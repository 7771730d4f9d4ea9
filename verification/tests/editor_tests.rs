use lekhani_latex::buffer::EditorBuffer;
use lekhani_latex::editor::{
    apply_heading, apply_text_style, indent_at_cursor, replace_selection, selected_text, detect_current_heading, display_heading_label, heading_enabled,
    is_article_document, is_article_from, toggle_heading_starred, TextStyle,
};

fn buffer_with(text: &str, cursor: usize) -> EditorBuffer {
    let mut b = EditorBuffer::load("doc.tex", Ok(text.to_string())).unwrap();
    b.set_cursor(cursor);
    b
}

#[test]
fn article_detection() {
    assert!(is_article_document("\\documentclass[12pt]{article}\n\\begin{document}"));
    assert!(!is_article_document("\\documentclass{book}\n"));
    assert!(is_article_document("no class at all"));
}

#[test]
fn article_from_captures() {
    let text = "\\documentclass{report}";
    assert!(!is_article_from(text, Some(vec![Some((0, 22)), Some((15, 21))])));
    let text = "\\documentclass{article}";
    assert!(is_article_from(text, Some(vec![Some((0, 23)), Some((15, 22))])));
    assert!(is_article_from(text, None));
    assert!(!is_article_from(text, Some(vec![Some((0, 23))])));
}

#[test]
fn heading_on_cursor_line() {
    let b = buffer_with("intro\n  \\section{Intro}  \nmore", 9);
    assert_eq!(detect_current_heading(&b), Some("section"));
    let b = buffer_with("\\subsection*{A}", 3);
    assert_eq!(detect_current_heading(&b), Some("subsection"));
    let b = buffer_with("\\subsubsection{A}\n", 0);
    assert_eq!(detect_current_heading(&b), Some("subsubsection"));
    let b = buffer_with("plain text", 2);
    assert_eq!(detect_current_heading(&b), None);
    let b = buffer_with("\\sectionx{A}", 2);
    assert_eq!(detect_current_heading(&b), None);
}

#[test]
fn apply_numbered_heading() {
    let mut b = buffer_with("first\nHello world\nlast", 8);
    apply_heading(&mut b, Some("section"), true);
    assert_eq!(b.text(), "first\n\\section{Hello world}\nlast");
    assert_eq!(b.cursor(), 6 + "\\section{Hello world}".len() - 1);
    assert!(b.dirty());
}

#[test]
fn apply_unnumbered_heading_keeps_content() {
    let mut b = buffer_with("\\section{ Title }", 3);
    apply_heading(&mut b, Some("chapter"), false);
    assert_eq!(b.text(), "\\chapter*{Title}");
    assert_eq!(b.cursor(), "\\chapter*{Title}".len() - 1);
}

#[test]
fn apply_paragraph_removes_heading() {
    let mut b = buffer_with("  \\section*{ Title }", 5);
    apply_heading(&mut b, None, true);
    assert_eq!(b.text(), "  Title");
    assert_eq!(b.cursor(), 7);
}

#[test]
fn apply_heading_indent_is_length_difference() {
    // the indentation is the line's first (length - trimmed length) bytes
    let mut b = buffer_with("  Hello  ", 3);
    apply_heading(&mut b, Some("section"), true);
    assert_eq!(b.text(), "  He\\section{Hello}");
}

#[test]
fn toggle_star_adds_and_removes() {
    let mut b = buffer_with("\\section{A}\nx", 3);
    toggle_heading_starred(&mut b, false);
    assert_eq!(b.text(), "\\section*{A}\nx");
    assert_eq!(b.cursor(), 4);
    toggle_heading_starred(&mut b, true);
    assert_eq!(b.text(), "\\section{A}\nx");
    assert_eq!(b.cursor(), 3);
}

#[test]
fn toggle_without_heading_changes_nothing() {
    let mut b = buffer_with("plain", 2);
    toggle_heading_starred(&mut b, false);
    assert_eq!(b.text(), "plain");
    assert!(!b.dirty());
    let mut b = buffer_with("\\section*{A}", 0);
    toggle_heading_starred(&mut b, false);
    assert_eq!(b.text(), "\\section*{A}");
}

#[test]
fn heading_labels() {
    assert_eq!(display_heading_label(None), "Paragraph");
    assert_eq!(display_heading_label(Some("section")), "Section");
    assert_eq!(display_heading_label(Some("part")), "Part");
    assert_eq!(display_heading_label(Some("subsection")), "Subsection");
    assert_eq!(display_heading_label(Some("subsubsection")), "Sub-subsection");
    assert_eq!(display_heading_label(Some("subparagraph")), "Subparagraph");
    assert_eq!(display_heading_label(Some("paragraph")), "Paragraph");
}

#[test]
fn text_styles_put_cursor_inside_braces() {
    let mut b = buffer_with("x", 0);
    apply_text_style(&mut b, TextStyle::Bold);
    assert_eq!(b.text(), "\\textbf{}x");
    assert_eq!(b.cursor(), 8);
    apply_text_style(&mut b, TextStyle::Italic);
    assert_eq!(b.text(), "\\textbf{\\textit{}}x");
    assert_eq!(b.cursor(), 16);
    let mut u = buffer_with("", 0);
    apply_text_style(&mut u, TextStyle::Underline);
    assert_eq!(u.text(), "\\underline{}");
    assert_eq!(u.cursor(), 11);
    u.undo();
    assert_eq!(u.text(), "");
}

#[test]
fn chapters_are_disabled_in_articles() {
    assert!(!heading_enabled("chapter", true));
    assert!(heading_enabled("chapter", false));
    assert!(heading_enabled("section", true));
}

#[test]
fn tab_key_indents() {
    let mut b = buffer_with("ab", 1);
    indent_at_cursor(&mut b);
    assert_eq!(b.text(), "a    b");
    assert_eq!(b.cursor(), 5);
    assert!(b.dirty());
    assert!(!b.can_undo());
}

#[test]
fn cut_and_paste_selections() {
    let mut b = buffer_with("héllo world", 0);
    // cut characters 1..5 (selection given back to front)
    replace_selection(&mut b, 5, 1, "");
    assert_eq!(b.text(), "h world");
    assert_eq!(b.cursor(), 1);
    // paste over characters 2..100 (past the end stands for the end)
    replace_selection(&mut b, 2, 100, "é!");
    assert_eq!(b.text(), "h é!");
    assert_eq!(b.cursor(), 2 + "é!".len());
    assert_eq!(selected_text("héllo", 4, 1), "éll");
    assert_eq!(selected_text("héllo", 3, 50), "lo");
    assert_eq!(selected_text("héllo", 9, 7), "");
}
