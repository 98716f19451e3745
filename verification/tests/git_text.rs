use syntaxis::conflict::{fingerprint, parse_conflict_file, resolve_conflict_block};
use syntaxis::diff::parse_diff_hunks;
use syntaxis::git_model::{CloneClientMessage, ConflictChoice, GitErrorCode, CLONE_PROTOCOL_VERSION};

#[test]
fn resolves_blocks_independently_and_preserves_surrounding_text() {
    let source = "before\n<<<<<<< HEAD\ncurrent one\n=======\nincoming one\n>>>>>>> feature\n\
        middle\n<<<<<<< HEAD\ncurrent two\n=======\nincoming two\n>>>>>>> feature\nafter\n";
    let parsed = parse_conflict_file("file.txt".to_owned(), source).unwrap();
    assert_eq!(parsed.blocks.len(), 2);
    let resolved = resolve_conflict_block(
        source,
        0,
        parsed.blocks[0].fingerprint,
        ConflictChoice::Incoming,
    )
    .unwrap();
    assert!(!resolved.complete);
    assert!(resolved.content.contains("incoming one\nmiddle"));
    assert!(resolved.content.contains("<<<<<<< HEAD\ncurrent two"));
}

#[test]
fn rejects_malformed_and_stale_conflict_blocks() {
    let malformed = "<<<<<<< HEAD\ncurrent\n>>>>>>> feature\n";
    assert!(parse_conflict_file("file.txt".to_owned(), malformed).is_err());

    let source = "<<<<<<< HEAD\ncurrent\n=======\nincoming\n>>>>>>> feature\n";
    let parsed = parse_conflict_file("file.txt".to_owned(), source).unwrap();
    assert!(resolve_conflict_block(
        source,
        0,
        parsed.blocks[0].fingerprint ^ 1,
        ConflictChoice::Current,
    )
    .is_err());
}

#[test]
fn diff3_blocks_keep_labels_and_both_sides() {
    let source = "<<<<<<< ours\r\na\n||||||| base\nz\n=======\nb\n>>>>>>> theirs\n";
    let parsed = parse_conflict_file("f".to_owned(), source).unwrap();
    let block = &parsed.blocks[0];
    assert_eq!(block.current_label, "ours");
    assert_eq!(block.incoming_label, "theirs");
    assert_eq!(block.current, "a\n");
    assert_eq!(block.incoming, "b\n");
    let both = resolve_conflict_block(source, 0, block.fingerprint, ConflictChoice::Both).unwrap();
    assert_eq!(both.content, "a\nb\n");
    assert!(both.complete);
}

#[test]
fn conflict_errors_carry_their_codes() {
    let err = parse_conflict_file("f".to_owned(), "no markers\n").unwrap_err();
    assert_eq!(err.code, GitErrorCode::Unsupported);
    let stray = resolve_conflict_block("=======\n", 0, 0, ConflictChoice::Current).unwrap_err();
    assert_eq!(stray.code, GitErrorCode::Unsupported);
    let source = "<<<<<<< a\nx\n=======\ny\n>>>>>>> b\n";
    let missing = resolve_conflict_block(source, 1, 0, ConflictChoice::Current).unwrap_err();
    assert_eq!(missing.code, GitErrorCode::Conflict);
}

#[test]
fn block_fingerprint_is_the_fnv1a_hash_of_the_marked_text() {
    let source = "<<<<<<< a\nx\n=======\ny\n>>>>>>> b\n";
    let parsed = parse_conflict_file("f".to_owned(), source).unwrap();
    let expected = source.as_bytes().iter().fold(0xcbf2_9ce4_8422_2325_u64, |hash, byte| {
        (hash ^ u64::from(*byte)).wrapping_mul(0x0000_0100_0000_01b3)
    });
    assert_eq!(parsed.blocks[0].fingerprint, expected);
}

#[test]
fn preserves_file_headers_and_splits_multiple_hunks() {
    let patch = [
        "diff --git a/file.txt b/file.txt\n",
        "index 1111111..2222222 100644\n",
        "--- a/file.txt\n",
        "+++ b/file.txt\n",
        "@@ -1,2 +1,2 @@\n",
        "-old one\n",
        "+new one\n",
        " context\n",
        "@@ -20 +20 @@\n",
        "-old two\n",
        "+new two\n",
    ]
    .concat();
    let patch = patch.as_str();
    let hunks = parse_diff_hunks(patch).unwrap();
    assert_eq!(hunks.len(), 2);
    assert_eq!(hunks[0].additions, 1);
    assert_eq!(hunks[0].deletions, 1);
    assert_eq!((hunks[0].old_start, hunks[0].new_start), (1, 1));
    assert_eq!((hunks[1].old_start, hunks[1].new_start), (20, 20));
    assert!(hunks[0].patch.contains("diff --git a/file.txt b/file.txt"));
    assert!(!hunks[0].patch.contains("@@ -20 +20 @@"));
    assert!(hunks[1].patch.contains("@@ -20 +20 @@"));
}

#[test]
fn unsupported_and_malformed_patches_are_rejected() {
    assert_eq!(
        parse_diff_hunks("Binary files a and b differ\n").unwrap_err().code,
        GitErrorCode::Unsupported
    );
    assert_eq!(
        parse_diff_hunks("diff --git a/x b/y\nrename from x\nrename to y\n")
            .unwrap_err()
            .code,
        GitErrorCode::Unsupported
    );
    assert_eq!(
        parse_diff_hunks("@@ -1 +1 @@\n-a\n+b\n").unwrap_err().code,
        GitErrorCode::Parse
    );
    assert_eq!(
        parse_diff_hunks("diff --git a/x b/x\n@@ -x +1 @@\n").unwrap_err().code,
        GitErrorCode::Parse
    );
    assert!(parse_diff_hunks("no hunks here\n").unwrap().is_empty());
}

#[test]
fn hunk_patch_is_preamble_and_body_with_its_fingerprint() {
    let patch = "diff --git a/f b/f\n@@ -3,4 +5,6 @@ fn\n+++x\n+y\n---z\n";
    let hunks = parse_diff_hunks(patch).unwrap();
    assert_eq!(hunks[0].header, "@@ -3,4 +5,6 @@ fn");
    assert_eq!(hunks[0].patch, patch);
    assert_eq!(hunks[0].body, "@@ -3,4 +5,6 @@ fn\n+++x\n+y\n---z\n");
    assert_eq!(hunks[0].additions, 1);
    assert_eq!(hunks[0].deletions, 0);
    assert_eq!((hunks[0].old_start, hunks[0].new_start), (3, 5));
    let expected = patch.as_bytes().iter().fold(0xcbf2_9ce4_8422_2325_u64, |hash, byte| {
        (hash ^ u64::from(*byte)).wrapping_mul(0x0000_0100_0000_01b3)
    });
    assert_eq!(hunks[0].fingerprint, expected);
}

#[test]
fn clone_start_carries_an_explicit_protocol_version() {
    let message = CloneClientMessage::Start {
        version: CLONE_PROTOCOL_VERSION,
        url: "https://example.invalid/repository.git".into(),
        destination_parent: "/srv/projects".into(),
    };
    assert!(matches!(
        message,
        CloneClientMessage::Start {
            version: CLONE_PROTOCOL_VERSION,
            ..
        }
    ));
}

#[test]
fn hunks_reassemble_their_patch() {
    let preamble = "diff --git a/f b/f\n--- a/f\n+++ b/f\n";
    let patch = format!("{preamble}@@ -1 +1 @@\n-a\n+b\n@@ -9 +9 @@\n-c\n+d\n");
    let hunks = parse_diff_hunks(&patch).unwrap();
    let mut joined = preamble.to_owned();
    for (k, hunk) in hunks.iter().enumerate() {
        assert_eq!(hunk.index, k);
        assert_eq!(hunk.patch, format!("{preamble}{}", hunk.body));
        assert_eq!(hunk.fingerprint, fingerprint(hunk.patch.as_bytes()));
        joined.push_str(&hunk.body);
    }
    assert_eq!(joined, patch);
    assert_eq!(
        parse_diff_hunks("diff --git a/f b/f\nGIT binary patch\n").unwrap_err().code,
        GitErrorCode::Unsupported
    );
}

#[test]
fn conflict_files_need_complete_blocks() {
    assert!(parse_conflict_file("f".to_owned(), "a\n<<<<<<< HEAD\nmine\n").is_err());
    assert!(parse_conflict_file("f".to_owned(), "a\n<<<<<<< HEAD\nmine\n=======\ntheirs\n").is_err());
    assert!(parse_conflict_file("f".to_owned(), "a\n=======\nb\n").is_err());
    assert!(parse_conflict_file("f".to_owned(), "no markers\n").is_err());
    assert!(parse_conflict_file("f".to_owned(), "<<<<<<< HEAD\nm\n=======\nt\n>>>>>>> b\n").is_ok());
}

#[test]
fn hunk_bodies_begin_with_their_headers() {
    let patch = "diff --git a/f b/f\n--- a/f\n+++ b/f\n@@ -1 +1 @@\n-a\n+b\n@@ -5 +5 @@\n-c\n+d\n";
    for hunk in parse_diff_hunks(patch).unwrap() {
        assert!(hunk.body.starts_with("@@ "));
        assert!(hunk.patch.starts_with("diff --git "));
    }
}
