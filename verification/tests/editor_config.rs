use syntaxis::editor_config::{
    apply_editor_config, resolve_editor_config, EditorConfig, EditorConfigSource, IndentStyle,
    LineEnding,
};

#[test]
fn nested_sources_override_root_settings() {
    let sources = vec![
        EditorConfigSource {
            directory: String::new(),
            contents: "[*]\nindent_style = space\nindent_size = 2\n[*.rs]\nindent_size = 4\n"
                .into(),
        },
        EditorConfigSource {
            directory: "generated".into(),
            contents: "[*.rs]\nindent_style = tab\ntab_width = 8\nindent_size = tab\n".into(),
        },
    ];
    let config = resolve_editor_config(&sources, "generated/parser.rs");
    assert_eq!(config.indent_style, IndentStyle::Tabs);
    assert_eq!(config.indent_size, 8);
    assert_eq!(config.tab_width, 8);
}

#[test]
fn brace_patterns_and_line_endings_are_supported() {
    let sources = vec![EditorConfigSource {
        directory: String::new(),
        contents: "[*.{js,ts}]\nend_of_line = crlf\ninsert_final_newline = true\n".into(),
    }];
    let config = resolve_editor_config(&sources, "src/app.ts");
    assert_eq!(apply_editor_config("one\ntwo", &config), "one\r\ntwo\r\n");
}

#[test]
fn defaults_apply_without_matching_sections() {
    let sources = vec![EditorConfigSource {
        directory: "other".into(),
        contents: "[*]\nindent_size = 2\n".into(),
    }];
    assert_eq!(resolve_editor_config(&sources, "src/main.rs"), EditorConfig::default());
    assert_eq!(EditorConfig::default().indent_size, 4);
    assert_eq!(EditorConfig::default().line_ending, None);
}

#[test]
fn keys_and_values_ignore_case_and_invalid_sizes_clear_the_setting() {
    let sources = vec![EditorConfigSource {
        directory: String::new(),
        contents: "# comment\n[*]\nINDENT_STYLE = TAB\nindent_size = 0\ntab_width = +3\n".into(),
    }];
    let config = resolve_editor_config(&sources, "a.txt");
    assert_eq!(config.indent_style, IndentStyle::Tabs);
    assert_eq!(config.indent_size, 4);
    assert_eq!(config.tab_width, 3);
}

#[test]
fn patterns_with_a_slash_match_the_relative_path() {
    let sources = vec![EditorConfigSource {
        directory: "/web/".into(),
        contents: "[src/*.js]\nindent_size = 2\n[*.js]\ntab_width = 6\n".into(),
    }];
    let config = resolve_editor_config(&sources, "web/src/app.js");
    assert_eq!(config.indent_size, 2);
    assert_eq!(config.tab_width, 6);
    let nested = resolve_editor_config(&sources, "web/src/deep/app.js");
    assert_eq!(nested.indent_size, 2);
    let outside = resolve_editor_config(&sources, "web/lib/app.js");
    assert_eq!(outside.indent_size, 4);
    assert_eq!(nested.tab_width, 6);
}

#[test]
fn line_endings_are_normalized() {
    let lf = EditorConfig {
        line_ending: Some(LineEnding::Lf),
        ..EditorConfig::default()
    };
    assert_eq!(apply_editor_config("a\r\nb\rc\r\r\n", &lf), "a\nb\nc\n\n");
    let keep = EditorConfig {
        insert_final_newline: true,
        ..EditorConfig::default()
    };
    assert_eq!(apply_editor_config("a\r", &keep), "a\r");
    assert_eq!(apply_editor_config("a", &keep), "a\n");
    assert_eq!(apply_editor_config("", &keep), "\n");
}

#[test]
fn applying_the_config_twice_changes_nothing() {
    let text = "one\r\ntwo\rthree\n\rfour";
    for line_ending in [None, Some(LineEnding::Lf), Some(LineEnding::Crlf)] {
        for insert_final_newline in [false, true] {
            let config = EditorConfig { line_ending, insert_final_newline, ..EditorConfig::default() };
            let once = apply_editor_config(text, &config);
            assert_eq!(apply_editor_config(&once, &config), once);
        }
    }
    let lf = EditorConfig { line_ending: Some(LineEnding::Lf), ..EditorConfig::default() };
    assert!(!apply_editor_config(text, &lf).contains('\r'));
    let crlf = EditorConfig { line_ending: Some(LineEnding::Crlf), insert_final_newline: true, ..EditorConfig::default() };
    assert_eq!(apply_editor_config(text, &crlf), "one\r\ntwo\r\nthree\r\n\r\nfour\r\n");
}

#[test]
fn no_editorconfig_gives_the_defaults() {
    assert_eq!(resolve_editor_config(&[], "src/main.rs"), EditorConfig::default());
}

#[test]
fn sources_elsewhere_change_nothing_and_later_star_sections_win() {
    let root = EditorConfigSource { directory: String::new(), contents: "[*]\nindent_size = 2\n".into() };
    let elsewhere = EditorConfigSource { directory: "/docs/".into(), contents: "[*]\nindent_size = 8\n".into() };
    let base = resolve_editor_config(&[root.clone()], "src/main.rs");
    assert_eq!(resolve_editor_config(&[root.clone(), elsewhere], "src/main.rs"), base);
    let later = EditorConfigSource { directory: String::new(), contents: "[*]\nindent_size = 3\n".into() };
    assert_eq!(resolve_editor_config(&[root, later], "src/main.rs").indent_size, 3);
}
