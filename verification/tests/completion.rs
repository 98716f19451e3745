use syntaxis::completion::{complete_any_word, complete_with_words, WordCompletions};

#[test]
fn completes_from_unique_document_words_in_document_order() {
    let source = "render_page renderer render_page ren";

    assert_eq!(
        complete_any_word(source, source.len(), 8),
        WordCompletions {
            from: source.len() - 3,
            options: vec!["render_page".into(), "renderer".into()],
        }
    );
}

#[test]
fn supports_unicode_and_common_identifier_characters() {
    let source = "данни_ред $document дан";

    assert_eq!(
        complete_any_word(source, source.len(), 8).options,
        vec!["данни_ред"]
    );
    assert_eq!(
        complete_any_word("$document $doc", "$document $doc".len(), 8).options,
        vec!["$document"]
    );
}

#[test]
fn explicit_completion_without_a_prefix_lists_document_words() {
    assert_eq!(
        complete_any_word("alpha beta ", "alpha beta ".len(), 8).options,
        vec!["alpha", "beta"]
    );
}

#[test]
fn maintained_dictionary_precedes_document_words_and_deduplicates_them() {
    let dictionary = vec!["return".into(), "ref".into()];

    assert_eq!(
        complete_with_words("renderer return re", 18, &dictionary, 8).options,
        vec!["return", "ref", "renderer"]
    );
}

#[test]
fn respects_the_limit_and_clamps_non_boundary_cursors() {
    assert_eq!(
        complete_any_word("alpha atom axe a", 16, 2).options.len(),
        2
    );
    assert_eq!(complete_any_word("éclair é", 1, 8).from, 0);
}

#[test]
fn a_zero_limit_offers_nothing_but_keeps_the_word_start() {
    let result = complete_any_word("alpha al", 8, 0);
    assert_eq!(result.from, 6);
    assert!(result.options.is_empty());
}

#[test]
fn cursor_past_the_end_is_clamped_to_the_text() {
    let result = complete_any_word("alpha al", 100, 8);
    assert_eq!(result.from, 6);
    assert_eq!(result.options, vec!["alpha"]);
}

#[test]
fn options_are_distinct_and_never_the_prefix_itself() {
    let result = complete_any_word("ab ab abc ab", 12, 8);
    assert_eq!(result.from, 10);
    assert_eq!(result.options, vec!["abc"]);
}

#[test]
fn words_far_from_the_cursor_are_not_scanned() {
    let far = "farword ".to_owned() + &" ".repeat(70_000) + "fa";
    let result = complete_any_word(&far, far.len(), 8);
    assert!(result.options.is_empty());
    let near = "farword ".to_owned() + &" ".repeat(1_000) + "fa";
    assert_eq!(complete_any_word(&near, near.len(), 8).options, vec!["farword"]);
}
