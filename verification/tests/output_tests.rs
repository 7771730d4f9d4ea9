use lekhani_latex::output::{corrected_text, failure_report, ref_number_from, status_line, success_message};
use lekhani_latex::types::CompileStatus;

#[test]
fn failure_report_lines_and_numbers() {
    let errors = vec![
        "! Undefined control sequence.".to_string(),
        "l.2 \\foo bar".to_string(),
        "! Missing $ inserted.".to_string(),
        "! Extra }.".to_string(),
        "l.2 }".to_string(),
    ];
    let r = failure_report(&errors, "first\n\\foo bar\n");
    assert_eq!(
        r.messages,
        vec![
            "\u{00D7} Error[line 2]: \\foo bar Undefined control sequence.".to_string(),
            "\u{00D7} Error[line 0]: first Missing $ inserted.".to_string(),
            "\u{00D7} Error[line 2]: \\foo bar Extra }.".to_string(),
        ]
    );
    assert_eq!(r.error_lines, vec![2]);
    assert_eq!(r.error_text, errors.join("\n"));
    assert!(!r.missing_compiler);
}

#[test]
fn failure_report_uses_context_past_the_end() {
    let errors = vec!["! Bad thing.".to_string(), "l.9 \\oops   ".to_string()];
    let r = failure_report(&errors, "one line\n");
    assert_eq!(r.messages, vec!["\u{00D7} Error[line 9]: \\oops Bad thing.".to_string()]);
    assert_eq!(r.error_lines, vec![9]);
}

#[test]
fn failure_report_without_source() {
    let errors = vec!["! Emergency.".to_string()];
    let r = failure_report(&errors, "");
    assert_eq!(r.messages, vec!["\u{00D7} Error: Emergency.".to_string()]);
    assert!(r.error_lines.is_empty());
}

#[test]
fn failure_report_sorts_line_numbers() {
    let errors = vec![
        "! A".to_string(),
        "l.7 x".to_string(),
        "! B".to_string(),
        "l.3 y".to_string(),
        "! C".to_string(),
        "l.7 z".to_string(),
    ];
    let r = failure_report(&errors, "");
    assert_eq!(r.error_lines, vec![3, 7]);
}

#[test]
fn failure_report_notices_missing_latex() {
    let errors =
        vec!["'pdflatex' was not found. Is a LaTeX distribution (MiKTeX/TeX Live) installed?".to_string()];
    let r = failure_report(&errors, "x");
    assert!(r.missing_compiler);
    assert!(r.messages.is_empty());
}

#[test]
fn line_number_from_captures() {
    assert_eq!(ref_number_from("l.42 foo", Some(vec![Some((0, 4)), Some((2, 4))])), Some(42));
    assert_eq!(ref_number_from("l.42 foo", None), None);
    assert_eq!(ref_number_from("l.42 foo", Some(vec![Some((0, 4)), None])), None);
    assert_eq!(ref_number_from("l.42 foo", Some(vec![Some((0, 4))])), None);
}

#[test]
fn success_durations() {
    assert_eq!(success_message(2, 50), "\u{221A} Compilation succeeded in 2.05s");
    assert_eq!(success_message(0, 350), "\u{221A} Compilation succeeded in 350ms");
    assert_eq!(success_message(1, 5), "\u{221A} Compilation succeeded in 1.00s");
    assert_eq!(success_message(3, 999), "\u{221A} Compilation succeeded in 3.99s");
}

#[test]
fn one_line_corrections() {
    assert_eq!(corrected_text("a\nb\nc", 2, "B"), Some("a\nB\nc".to_string()));
    assert_eq!(corrected_text("a\nb\n", 1, "A"), Some("A\nb\n".to_string()));
    assert_eq!(corrected_text("a", 2, "x"), None);
    assert_eq!(corrected_text("a", 0, "x"), None);
}

#[test]
fn status_bar_text() {
    assert_eq!(
        status_line(Some("/tmp/a.tex"), true, 3, 0, "Saved", CompileStatus::Running),
        "/tmp/a.tex \u{2022} | Ln 3, Col 1 | Saved | Compiling\u{2026}"
    );
    assert_eq!(status_line(None, false, 1, 9, "", CompileStatus::Idle), "Untitled | Ln 1, Col 10 | ");
    assert_eq!(status_line(None, false, 12, 4, "x", CompileStatus::Success), "Untitled | Ln 12, Col 5 | x | OK");
    assert_eq!(status_line(None, false, 1, 0, "x", CompileStatus::Failed), "Untitled | Ln 1, Col 1 | x | Error");
}
