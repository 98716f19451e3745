use syntaxis::buffer::{BufferStatus, EditorBuffer, ExternalChange, FileVersion};
use syntaxis::editor_config::EditorConfig;

fn version(length: u64, modified_unix_nanos: u128) -> FileVersion {
    FileVersion { length, modified_unix_nanos }
}

#[test]
fn editing_and_reverting_preserve_the_saved_snapshot() {
    let mut buffer =
        EditorBuffer::open("src/main.rs", "old".into(), version(3, 1), EditorConfig::default());
    buffer.edit("new".into());
    assert_eq!(buffer.status, BufferStatus::Dirty);
    buffer.revert();
    assert_eq!(buffer.contents, "old");
    assert_eq!(buffer.status, BufferStatus::Clean);
}

#[test]
fn external_changes_ignore_own_saves_and_conflict_only_with_unsaved_work() {
    let mut clean =
        EditorBuffer::open("file.txt", "old".into(), version(3, 1), EditorConfig::default());
    assert_eq!(
        clean.reconcile_external("external".into(), version(8, 2)),
        ExternalChange::Reload
    );
    assert_eq!(clean.contents, "external");

    clean.edit("mine".into());
    clean.begin_save("mine".into());
    clean.edit("mine, still typing".into());
    assert_eq!(
        clean.reconcile_external("mine".into(), version(4, 3)),
        ExternalChange::Unchanged
    );
    assert_eq!(clean.status, BufferStatus::Dirty);
    assert_eq!(clean.saved_contents, "mine");

    assert_eq!(
        clean.reconcile_external("someone else's edit".into(), version(20, 4)),
        ExternalChange::Conflict
    );
    assert_eq!(clean.status, BufferStatus::Conflict);
    assert_eq!(clean.contents, "mine, still typing");
}

#[test]
fn finishing_a_save_does_not_overwrite_edits_made_while_it_was_running() {
    let mut buffer =
        EditorBuffer::open("file.txt", "old".into(), version(3, 1), EditorConfig::default());
    buffer.edit("saved snapshot".into());
    buffer.begin_save("saved snapshot".into());
    buffer.edit("newer local edit".into());

    buffer.finish_save("saved snapshot".into(), version(14, 2));

    assert_eq!(buffer.contents, "newer local edit");
    assert_eq!(buffer.saved_contents, "saved snapshot");
    assert_eq!(buffer.status, BufferStatus::Dirty);
}

#[test]
fn an_external_write_of_the_saved_text_only_updates_the_version() {
    let mut buffer =
        EditorBuffer::open("a.txt", "same".into(), version(4, 1), EditorConfig::default());
    buffer.edit("typed".into());
    assert_eq!(
        buffer.reconcile_external("same".into(), version(4, 9)),
        ExternalChange::Unchanged
    );
    assert_eq!(buffer.version, version(4, 9));
    assert_eq!(buffer.contents, "typed");
    assert!(buffer.is_dirty());
}

#[test]
fn cancelled_and_marked_saves_clear_the_pending_save() {
    let mut buffer =
        EditorBuffer::open("a.txt", "x".into(), version(1, 1), EditorConfig::default());
    buffer.begin_save("y".into());
    assert!(buffer.has_pending_save());
    buffer.cancel_save();
    assert!(!buffer.has_pending_save());
    buffer.begin_save("y".into());
    buffer.mark_saved("y".into(), version(1, 2));
    assert!(!buffer.has_pending_save());
    assert_eq!(buffer.contents, "y");
    assert_eq!(buffer.saved_contents, "y");
    assert!(!buffer.is_dirty());
    buffer.rename("b.txt");
    assert_eq!(buffer.path, "b.txt");
}

#[test]
fn editing_back_to_the_saved_text_is_clean() {
    let mut buffer =
        EditorBuffer::open("a.txt", "x".into(), version(1, 1), EditorConfig::default());
    buffer.edit("y".into());
    buffer.edit("x".into());
    assert_eq!(buffer.status, BufferStatus::Clean);
}

#[test]
fn getters_show_the_buffer_state() {
    let mut buffer = EditorBuffer::open("a.rs", "old".into(), version(3, 1), EditorConfig::default());
    buffer.edit("new".into());
    buffer.begin_save("new".into());
    assert_eq!(buffer.path(), "a.rs");
    assert_eq!(buffer.contents(), "new");
    assert_eq!(buffer.saved_contents(), "old");
    assert_eq!(buffer.status(), BufferStatus::Dirty);
    assert_eq!(buffer.version(), version(3, 1));
    assert_eq!(buffer.config(), EditorConfig::default());
    assert_eq!(buffer.pending_save().map(String::as_str), Some("new"));
}
