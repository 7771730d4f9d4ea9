use lekhani_latex::buffer::EditorBuffer;
use lekhani_latex::types::{AppError, IoError, IoKind};

fn io(kind: IoKind, m: &str) -> IoError {
    IoError { kind, message: m.to_string() }
}

fn buffer_with(text: &str, cursor: usize) -> EditorBuffer {
    let mut b = EditorBuffer::load("doc.tex", Ok(text.to_string())).unwrap();
    b.set_cursor(cursor);
    b
}

#[test]
fn new_buffer_holds_default_document() {
    let b = EditorBuffer::new();
    assert!(b.text().starts_with("\\documentclass{article}\n\n% Preamble"));
    assert!(b.text().ends_with("\\end{document}\n"));
    assert_eq!(b.text().len(), 275);
    assert_eq!(b.cursor(), 0);
    assert!(!b.dirty());
    assert_eq!(b.line_count(), 18);
    assert!(b.path().is_none());
    assert!(!b.can_undo());
    assert!(!b.can_redo());
}

#[test]
fn insert_moves_cursor_and_marks_dirty() {
    let mut b = buffer_with("ab", 1);
    b.insert_str("XY");
    assert_eq!(b.text(), "aXYb");
    assert_eq!(b.cursor(), 3);
    assert!(b.dirty());
    assert!(b.can_undo());
}

#[test]
fn insert_empty_changes_nothing() {
    let mut b = buffer_with("ab", 1);
    b.insert_str("");
    assert_eq!(b.text(), "ab");
    assert!(!b.dirty());
    assert!(!b.can_undo());
}

#[test]
fn undo_restores_insert_and_redo_reapplies() {
    let mut b = buffer_with("hello", 5);
    b.insert_str(" world");
    assert_eq!(b.text(), "hello world");
    b.undo();
    assert_eq!(b.text(), "hello");
    assert_eq!(b.cursor(), 5);
    assert!(b.can_redo());
    b.redo();
    assert_eq!(b.text(), "hello world");
    assert_eq!(b.cursor(), 11);
    assert!(!b.can_redo());
}

#[test]
fn backspace_removes_whole_multibyte_char() {
    let mut b = buffer_with("aé", 3);
    b.backspace();
    assert_eq!(b.text(), "a");
    assert_eq!(b.cursor(), 1);
    b.undo();
    assert_eq!(b.text(), "aé");
    assert_eq!(b.cursor(), 3);
}

#[test]
fn backspace_at_start_does_nothing() {
    let mut b = buffer_with("abc", 0);
    b.backspace();
    assert_eq!(b.text(), "abc");
    assert!(!b.can_undo());
}

#[test]
fn delete_removes_next_char_and_keeps_cursor() {
    let mut b = buffer_with("aéb", 1);
    b.delete();
    assert_eq!(b.text(), "ab");
    assert_eq!(b.cursor(), 1);
    b.undo();
    assert_eq!(b.text(), "aéb");
    assert_eq!(b.cursor(), 3);
}

#[test]
fn delete_at_end_does_nothing() {
    let mut b = buffer_with("ab", 2);
    b.delete();
    assert_eq!(b.text(), "ab");
    assert!(!b.can_undo());
}

#[test]
fn new_edit_clears_redo() {
    let mut b = buffer_with("", 0);
    b.insert_str("a");
    b.undo();
    assert!(b.can_redo());
    b.insert_str("b");
    assert!(!b.can_redo());
    assert_eq!(b.text(), "b");
}

#[test]
fn undo_history_is_complete() {
    let mut b = buffer_with("start", 5);
    for _ in 0..1500 {
        b.insert_str("x");
    }
    b.backspace();
    b.set_cursor(0);
    b.delete();
    let mut undone = 0;
    while b.can_undo() {
        b.undo();
        undone += 1;
    }
    assert_eq!(undone, 1502);
    assert_eq!(b.text(), "start");
}

#[test]
fn cursor_queries_and_undo_on_loaded_buffer() {
    let mut b = buffer_with("hé\ncd", 0);
    b.sync_after_edit();
    for (c, lc) in [(0, (1, 0)), (3, (1, 2)), (4, (2, 0)), (6, (2, 2))] {
        b.set_cursor(c);
        assert_eq!(b.cursor_line_col(), lc);
    }
    b.undo();
    b.redo();
    assert_eq!(b.text(), "hé\ncd");
    b.set_cursor(1);
    b.move_right();
    assert_eq!(b.cursor(), 3);
    b.move_left();
    assert_eq!(b.cursor(), 1);
}

#[test]
fn move_left_right_step_over_chars() {
    let mut b = buffer_with("aé", 0);
    b.move_right();
    assert_eq!(b.cursor(), 1);
    b.move_right();
    assert_eq!(b.cursor(), 3);
    b.move_right();
    assert_eq!(b.cursor(), 3);
    b.move_left();
    assert_eq!(b.cursor(), 1);
    b.move_left();
    b.move_left();
    assert_eq!(b.cursor(), 0);
}

#[test]
fn cursor_line_col_counts_chars() {
    let b = buffer_with("ab\ncé d\n", 7);
    assert_eq!(b.cursor_line_col(), (2, 3));
    let b = buffer_with("ab\ncd\n", 3);
    assert_eq!(b.cursor_line_col(), (2, 0));
    let b = buffer_with("ab\ncd\n", 6);
    assert_eq!(b.cursor_line_col(), (3, 0));
    assert_eq!(b.line_count(), 3);
}

#[test]
fn move_up_and_down_keep_column() {
    let mut b = buffer_with("abcd\nxy\nlonger", 3);
    b.move_down();
    // column 3 clamped to line length minus one (the newline counts as a character)
    assert_eq!(b.cursor_line_col(), (2, 2));
    b.move_down();
    assert_eq!(b.cursor_line_col(), (3, 2));
    b.move_down();
    assert_eq!(b.cursor(), b.text().len());
    b.move_up();
    assert_eq!(b.cursor_line_col(), (2, 2));
    b.move_up();
    assert_eq!(b.cursor_line_col(), (1, 2));
    b.move_up();
    assert_eq!(b.cursor(), 0);
}

#[test]
fn home_and_end_of_line() {
    let mut b = buffer_with("abc\ndef\n", 5);
    b.move_end();
    assert_eq!(b.cursor(), 7);
    b.move_home();
    assert_eq!(b.cursor(), 4);
    let mut last = buffer_with("abc\ndef", 5);
    last.move_end();
    assert_eq!(last.cursor(), 7);
}

#[test]
fn line_start_and_text() {
    let b = buffer_with("one\ntwo\nthree", 0);
    assert_eq!(b.line_start(0), None);
    assert_eq!(b.line_start(1), Some(0));
    assert_eq!(b.line_start(2), Some(4));
    assert_eq!(b.line_start(4), None);
    assert_eq!(b.line_text(1), Some("one\n"));
    assert_eq!(b.line_text(3), Some("three"));
    assert_eq!(b.line_text(4), None);
}

#[test]
fn indentation_is_leading_spaces_and_tabs() {
    let b = buffer_with("x\n \t  item\n", 5);
    assert_eq!(b.indentation_at_cursor(), " \t  ");
    let b = buffer_with("plain", 2);
    assert_eq!(b.indentation_at_cursor(), "");
}

#[test]
fn replace_all_is_two_undo_steps() {
    let mut b = buffer_with("old", 1);
    b.replace_all("new text");
    assert_eq!(b.text(), "new text");
    assert_eq!(b.cursor(), 8);
    assert!(b.dirty());
    b.undo();
    assert_eq!(b.text(), "");
    b.undo();
    assert_eq!(b.text(), "old");
}

#[test]
fn replace_all_with_same_text_does_nothing() {
    let mut b = buffer_with("same", 2);
    b.replace_all("same");
    assert_eq!(b.cursor(), 2);
    assert!(!b.dirty());
    assert!(!b.can_undo());
}

#[test]
fn load_success_and_failure() {
    let b = EditorBuffer::load("/tmp/a.tex", Ok("x\ny".to_string())).unwrap();
    assert_eq!(b.text(), "x\ny");
    assert_eq!(b.path(), Some("/tmp/a.tex"));
    assert!(!b.dirty());
    assert_eq!(b.line_count(), 2);
    match EditorBuffer::load("/tmp/a.tex", Err(io(IoKind::PermissionDenied, "denied"))) {
        Err(AppError::Io(e)) => {
            assert_eq!(e.message, "denied");
            assert_eq!(e.kind, IoKind::PermissionDenied);
        }
        _ => panic!("expected an I/O error"),
    }
}

#[test]
fn save_without_path_fails() {
    let mut b = EditorBuffer::new();
    b.insert_str("x");
    match b.save(Ok(())) {
        Err(AppError::Io(e)) => {
            assert_eq!(e.message, "no file path set");
            assert_eq!(e.kind, IoKind::NotFound);
        }
        _ => panic!("expected an I/O error"),
    }
    assert!(b.dirty());
}

#[test]
fn save_cleans_buffer_and_reports_write_errors() {
    let mut b = buffer_with("a", 0);
    b.insert_str("b");
    assert!(matches!(b.save(Err(io(IoKind::Other, "disk full"))), Err(AppError::Io(ref e)) if e.message == "disk full"));
    assert!(b.dirty());
    assert!(b.save(Ok(())).is_ok());
    assert!(!b.dirty());
}

#[test]
fn save_as_sets_path() {
    let mut b = EditorBuffer::new();
    b.insert_str("x");
    assert!(b.save_as("/tmp/new.tex", Err(io(IoKind::Other, "nope"))).is_err());
    assert!(b.path().is_none());
    assert!(b.save_as("/tmp/new.tex", Ok(())).is_ok());
    assert_eq!(b.path(), Some("/tmp/new.tex"));
    assert!(!b.dirty());
}

#[test]
fn error_messages() {
    assert_eq!(AppError::Io(io(IoKind::Other, "x")).message(), "I/O error: x");
    assert_eq!(AppError::Compile("y".to_string()).message(), "Compile error: y");
    assert_eq!(AppError::Preview("z".to_string()).message(), "Preview error: z");
}

#[test]
fn sync_after_edit_rebuilds_lines() {
    let mut b = buffer_with("a\nb\nc", 0);
    b.sync_after_edit();
    assert_eq!(b.line_count(), 3);
    assert!(b.dirty());
}
