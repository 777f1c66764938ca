use clawpad::document::{ReadFailure, TextBuffer, WriteFailure};
use clawpad::document_set::{DocumentSet, OpenOutcome};

fn failure() -> WriteFailure {
    WriteFailure { message: "disk full".to_string() }
}

#[test]
fn new_buffer_is_clean_and_tagged() {
    let buffer = TextBuffer::new("fn main() {}".to_string(), Some("src/main.rs".to_string()));
    assert_eq!(buffer.content(), "fn main() {}");
    assert!(!buffer.is_dirty());
    assert_eq!(buffer.language(), "Rust");
    assert_eq!(buffer.origin(), Some(&"src/main.rs".to_string()));
    assert_eq!(buffer.name(), "main.rs");
    assert!(buffer.cursors().is_empty());
    assert!(buffer.has_origin("src/main.rs"));
    assert!(!buffer.has_origin("main.rs"));
}

#[test]
fn untitled_buffer() {
    let buffer = TextBuffer::untitled();
    assert_eq!(buffer.content(), "");
    assert!(!buffer.is_dirty());
    assert_eq!(buffer.language(), "Plain Text");
    assert_eq!(buffer.origin(), None);
    assert_eq!(buffer.name(), "Untitled");
    assert_eq!(buffer.tab_label(), "Untitled");
    assert_eq!(buffer.len_chars(), 0);
    assert_eq!(buffer.len_lines(), 1);
    assert!(!buffer.has_origin(""));
}

#[test]
fn replace_content_marks_dirty_only_on_change() {
    let mut buffer = TextBuffer::new("abc".to_string(), None);
    buffer.replace_content("abc");
    assert!(!buffer.is_dirty());
    assert_eq!(buffer.content(), "abc");
    buffer.replace_content("abd");
    assert!(buffer.is_dirty());
    assert_eq!(buffer.content(), "abd");
}

#[test]
fn replace_content_twice_is_idempotent() {
    let mut buffer = TextBuffer::new("abc".to_string(), None);
    buffer.replace_content("xyz");
    let dirty_after_first = buffer.is_dirty();
    buffer.replace_content("xyz");
    assert_eq!(buffer.is_dirty(), dirty_after_first);
    assert_eq!(buffer.content(), "xyz");

    let mut clean = TextBuffer::new("same".to_string(), None);
    clean.replace_content("same");
    clean.replace_content("same");
    assert!(!clean.is_dirty());
}

#[test]
fn replace_content_after_save_does_not_redirty() {
    let mut buffer = TextBuffer::new("a".to_string(), Some("a.txt".to_string()));
    buffer.replace_content("b");
    assert!(buffer.finish_save(Ok(())).is_ok());
    assert!(!buffer.is_dirty());
    buffer.replace_content("b");
    assert!(!buffer.is_dirty());
}

#[test]
fn save_clears_dirty_only_on_success() {
    let mut buffer = TextBuffer::new("a".to_string(), Some("a.txt".to_string()));
    buffer.replace_content("b");
    assert!(buffer.is_dirty());
    let result = buffer.finish_save(Err(failure()));
    assert_eq!(result.unwrap_err().message, "disk full");
    assert!(buffer.is_dirty());
    assert_eq!(buffer.content(), "b");
    assert!(buffer.finish_save(Ok(())).is_ok());
    assert!(!buffer.is_dirty());
    assert_eq!(buffer.content(), "b");
}

#[test]
fn rename_rederives_language_and_keeps_dirty() {
    let mut buffer = TextBuffer::new("x".to_string(), Some("notes.txt".to_string()));
    buffer.replace_content("y");
    buffer.rename("notes.md".to_string());
    assert_eq!(buffer.language(), "Markdown");
    assert_eq!(buffer.origin(), Some(&"notes.md".to_string()));
    assert!(buffer.is_dirty());
    assert_eq!(buffer.content(), "y");
}

#[test]
fn save_as_sets_origin_only_on_success() {
    let mut buffer = TextBuffer::untitled();
    buffer.replace_content("print(1)");
    assert!(buffer.finish_save_as("tool.py".to_string(), Err(failure())).is_err());
    assert_eq!(buffer.origin(), None);
    assert_eq!(buffer.language(), "Plain Text");
    assert!(buffer.is_dirty());
    assert!(buffer.finish_save_as("tool.py".to_string(), Ok(())).is_ok());
    assert_eq!(buffer.origin(), Some(&"tool.py".to_string()));
    assert_eq!(buffer.language(), "Python");
    assert!(!buffer.is_dirty());
    assert_eq!(buffer.name(), "tool.py");
}

#[test]
fn tab_label_marks_dirty_documents() {
    let mut buffer = TextBuffer::new("a".to_string(), Some("dir/a.rs".to_string()));
    assert_eq!(buffer.tab_label(), "a.rs");
    buffer.replace_content("b");
    assert_eq!(buffer.tab_label(), "* a.rs");
}

#[test]
fn metrics_follow_the_rope() {
    let buffer = TextBuffer::new("héllo\nworld\r\nlast".to_string(), None);
    assert_eq!(buffer.len_chars(), 17);
    assert_eq!(buffer.len_lines(), 3);
    let ending = TextBuffer::new("a\n".to_string(), None);
    assert_eq!(ending.len_lines(), 2);
    let breaks = TextBuffer::new("a\rb\u{0b}c\u{0c}d\u{85}e\u{2028}f\u{2029}g\r\n\rh".to_string(), None);
    assert_eq!(breaks.len_lines(), 9);
    let mut replaced = TextBuffer::untitled();
    replaced.replace_content("one\ntwo");
    assert_eq!(replaced.len_chars(), 7);
    assert_eq!(replaced.len_lines(), 2);
    assert_eq!(replaced.content(), "one\ntwo");
}

#[test]
fn new_set_has_one_untitled_document() {
    let set = DocumentSet::new();
    assert_eq!(set.len(), 1);
    assert_eq!(set.active_index(), 0);
    assert_eq!(set.active_doc().name(), "Untitled");
    assert!(set.document(0).is_some());
    assert!(set.document(1).is_none());
}

#[test]
fn closing_the_last_document_is_rejected() {
    let mut set = DocumentSet::new();
    assert!(!set.close(0));
    assert_eq!(set.len(), 1);
    assert_eq!(set.active_index(), 0);
    set.new_tab();
    assert!(set.close(0));
    assert!(!set.close(0));
    assert_eq!(set.len(), 1);
}

#[test]
fn close_out_of_range_changes_nothing() {
    let mut set = DocumentSet::new();
    set.new_tab();
    assert!(!set.close(2));
    assert_eq!(set.len(), 2);
    assert_eq!(set.active_index(), 1);
}

#[test]
fn close_clamps_the_active_index() {
    let mut set = DocumentSet::new();
    set.new_tab();
    set.new_tab();
    assert_eq!(set.len(), 3);
    assert_eq!(set.active_index(), 2);
    assert!(set.close(2));
    assert_eq!(set.len(), 2);
    assert_eq!(set.active_index(), 1);
    assert!(set.set_active(0));
    assert!(set.close(1));
    assert_eq!(set.active_index(), 0);
    assert_eq!(set.len(), 1);
}

#[test]
fn close_before_active_keeps_the_index() {
    let mut set = DocumentSet::new();
    assert_eq!(set.open_file("a.rs", Ok("a".to_string())), OpenOutcome::Opened);
    assert_eq!(set.open_file("b.rs", Ok("b".to_string())), OpenOutcome::Opened);
    assert!(set.set_active(1));
    assert!(set.close(0));
    assert_eq!(set.active_index(), 1);
    assert_eq!(set.active_doc().name(), "b.rs");
}

#[test]
fn set_active_checks_the_index() {
    let mut set = DocumentSet::new();
    set.new_tab();
    assert!(set.set_active(0));
    assert_eq!(set.active_index(), 0);
    assert!(!set.set_active(2));
    assert_eq!(set.active_index(), 0);
}

#[test]
fn open_file_adds_or_focuses() {
    let mut set = DocumentSet::new();
    assert_eq!(set.position_of("a.rs"), None);
    assert!(!set.focus_path("a.rs"));
    assert_eq!(set.open_file("a.rs", Ok("fn a() {}".to_string())), OpenOutcome::Opened);
    assert_eq!(set.len(), 2);
    assert_eq!(set.active_index(), 1);
    assert_eq!(set.active_doc().content(), "fn a() {}");
    assert_eq!(set.active_doc().language(), "Rust");
    assert!(!set.active_doc().is_dirty());
    set.new_tab();
    assert_eq!(set.active_index(), 2);
    assert_eq!(set.open_file("a.rs", Ok("other".to_string())), OpenOutcome::AlreadyOpen);
    assert_eq!(set.len(), 3);
    assert_eq!(set.active_index(), 1);
    assert_eq!(set.active_doc().content(), "fn a() {}");
    assert_eq!(set.position_of("a.rs"), Some(1));
    assert!(set.set_active(0));
    assert!(set.focus_path("a.rs"));
    assert_eq!(set.active_index(), 1);
}

#[test]
fn open_file_that_cannot_be_read_changes_nothing() {
    let mut set = DocumentSet::new();
    let outcome = set.open_file("missing.txt", Err(ReadFailure { message: "not found".to_string() }));
    assert_eq!(outcome, OpenOutcome::Unavailable);
    assert_eq!(set.len(), 1);
    assert_eq!(set.active_index(), 0);
}

#[test]
fn edits_and_saves_reach_the_active_document() {
    let mut set = DocumentSet::new();
    set.open_file("a.txt", Ok("one".to_string()));
    set.replace_active_content("two");
    assert!(set.active_doc().is_dirty());
    assert_eq!(set.active_doc().content(), "two");
    assert!(!set.document(0).unwrap().is_dirty());
    assert!(set.finish_save_active(Err(failure())).is_err());
    assert!(set.active_doc().is_dirty());
    assert!(set.finish_save_active(Ok(())).is_ok());
    assert!(!set.active_doc().is_dirty());
    assert!(set.set_active(0));
    set.replace_active_content("draft");
    assert!(set.finish_save_active_as("draft.md".to_string(), Ok(())).is_ok());
    assert_eq!(set.active_doc().language(), "Markdown");
    assert_eq!(set.active_doc().name(), "draft.md");
    assert!(!set.active_doc().is_dirty());
    assert_eq!(set.document(1).unwrap().content(), "two");
}

#[test]
fn only_markdown_has_a_preview() {
    assert!(TextBuffer::new(String::new(), Some("README.md".to_string())).has_preview());
    assert!(!TextBuffer::new(String::new(), Some("main.rs".to_string())).has_preview());
    assert!(!TextBuffer::untitled().has_preview());
}
