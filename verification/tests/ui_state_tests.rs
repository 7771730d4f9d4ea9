use lekhani_latex::completion::{completion_trigger, CompletionMenu};
use lekhani_latex::highlight::highlight_sections;
use lekhani_latex::lexer::TokenType;
use lekhani_latex::tabs::{close_tab, move_tab};

#[test]
fn moving_tabs_keeps_active_tab() {
    let mut t = vec!["a", "b", "c", "d"];
    let active = move_tab(&mut t, 0, 2, 0);
    assert_eq!(t, vec!["b", "a", "c", "d"]);
    assert_eq!(t[active], "a");
    let mut t = vec!["a", "b", "c", "d"];
    let active = move_tab(&mut t, 3, 0, 1);
    assert_eq!(t, vec!["d", "a", "b", "c"]);
    assert_eq!(t[active], "b");
    let mut t = vec!["a", "b", "c", "d"];
    let active = move_tab(&mut t, 0, 3, 2);
    assert_eq!(t, vec!["b", "c", "a", "d"]);
    assert_eq!(t[active], "c");
    let mut t = vec!["a", "b"];
    assert_eq!(move_tab(&mut t, 1, 1, 0), 0);
    assert_eq!(t, vec!["a", "b"]);
}

#[test]
fn closing_tabs() {
    let mut t = vec!["a", "b", "c"];
    assert_eq!(close_tab(&mut t, 2, 2), 1);
    assert_eq!(t, vec!["a", "b"]);
    let mut t = vec!["a", "b", "c"];
    assert_eq!(close_tab(&mut t, 0, 1), 1);
    assert_eq!(t, vec!["b", "c"]);
    let mut t = vec!["a"];
    assert_eq!(close_tab(&mut t, 0, 0), 0);
    assert!(t.is_empty());
}

#[test]
fn completion_is_offered_after_backslash_and_letters() {
    assert_eq!(completion_trigger("text \\sec", 9), Some((5, 9)));
    assert_eq!(completion_trigger("text \\sec", 100), Some((5, 9)));
    assert_eq!(completion_trigger("text \\", 6), None);
    assert_eq!(completion_trigger("\\a b", 4), None);
    assert_eq!(completion_trigger("no command", 5), None);
    assert_eq!(completion_trigger("\\émph", 5), Some((0, 5)));
    assert_eq!(completion_trigger("\\sec{", 5), None);
}

#[test]
fn completion_menu_navigation() {
    let mut m = CompletionMenu::new();
    assert!(!m.is_visible());
    m.offer("\\se".to_string(), vec![], (0, 3));
    assert!(!m.is_visible());
    m.offer("\\se".to_string(), vec!["\\section".to_string(), "\\setlength".to_string()], (0, 3));
    assert!(m.is_visible());
    assert_eq!(m.selected(), 0);
    m.down();
    assert_eq!(m.selected(), 1);
    m.down();
    assert_eq!(m.selected(), 0);
    m.up();
    assert_eq!(m.selected(), 1);
    // same command, shorter list: the highlight moves onto the last entry
    m.offer("\\se".to_string(), vec!["\\section".to_string()], (0, 3));
    assert_eq!(m.selected(), 0);
    m.offer("\\sec".to_string(), vec!["\\section".to_string(), "\\sectionmark".to_string()], (0, 4));
    m.down();
    m.offer("\\sect".to_string(), vec!["\\section".to_string(), "\\sectionmark".to_string()], (0, 5));
    assert_eq!(m.selected(), 0);
    let chosen = m.close(Some(1));
    assert_eq!(chosen, Some(("\\sectionmark".to_string(), (0, 5))));
    assert!(!m.is_visible());
    assert!(!m.may_offer(true, 3, false));
    assert!(m.may_offer(true, 3, true));
    assert!(m.may_offer(true, 3, false));
    assert!(!m.may_offer(false, 3, true));
    m.escape();
    assert!(!m.is_visible());
    m.conceal();
    assert!(!m.is_visible());
}

#[test]
fn highlight_marks_error_lines_and_selection() {
    let text = "a\n\\b c";
    let s = highlight_sections(text, &[2], Some((3, 5)));
    let got: Vec<(usize, usize, TokenType, bool, bool)> =
        s.iter().map(|x| (x.start, x.end, x.token_type, x.on_error_line, x.selected)).collect();
    assert_eq!(
        got,
        vec![
            (0, 2, TokenType::Text, false, false),
            (2, 3, TokenType::Command, true, false),
            (3, 4, TokenType::Command, true, true),
            (4, 5, TokenType::Text, true, true),
            (5, 6, TokenType::Text, true, false),
        ]
    );
}

#[test]
fn highlight_without_selection_follows_tokens() {
    let s = highlight_sections("%x\n{y}", &[], None);
    let got: Vec<(usize, usize, TokenType)> = s.iter().map(|x| (x.start, x.end, x.token_type)).collect();
    assert_eq!(
        got,
        vec![
            (0, 2, TokenType::Comment),
            (2, 3, TokenType::Text),
            (3, 4, TokenType::OpenBrace),
            (4, 5, TokenType::Text),
            (5, 6, TokenType::CloseBrace),
        ]
    );
    assert!(s.iter().all(|x| !x.on_error_line && !x.selected));
}

#[test]
fn highlight_runs_cover_every_byte_once() {
    let text = "\\section{Intro} $x$ % note\né {y}\n";
    let s = highlight_sections(text, &[1, 2], Some((4, 20)));
    assert_eq!(s[0].start, 0);
    assert_eq!(s.last().unwrap().end, text.len());
    for w in s.windows(2) {
        assert_eq!(w[0].end, w[1].start);
        assert!(w[0].start < w[0].end);
    }
    assert!(s.iter().any(|x| x.selected));
    assert!(s.iter().all(|x| x.on_error_line));
}
