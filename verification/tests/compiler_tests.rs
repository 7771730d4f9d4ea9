use lekhani_latex::compiler::parser::{extract_errors, extract_warnings, read_log_fatal};
use lekhani_latex::compiler::{
    after_save, auto_compile_step, compile_request, SaveStep, precheck_document, run_events, AutoCompileStep, CompileEvent, CompileRequest,
    CompilerBridge, Received, RunOutcome,
};
use lekhani_latex::output::build_status_text;
use lekhani_latex::types::{AppError, CompileStatus, CompilerConfig, IoError, IoKind};

fn strings(v: &[&str]) -> Vec<String> {
    v.iter().map(|s| s.to_string()).collect()
}

#[test]
fn warnings_from_output_are_trimmed() {
    let w = extract_warnings("", "LaTeX Warning: Ref undefined\nok line\n  Overfull \\hbox  ", None);
    assert_eq!(w, strings(&["LaTeX Warning: Ref undefined", "Overfull \\hbox"]));
}

#[test]
fn warnings_from_log_are_added_once() {
    let w = extract_warnings(
        "",
        "LaTeX Warning: Ref undefined\nOverfull \\hbox",
        Some("Underfull \\vbox\nLaTeX Warning: Ref undefined\n  Underfull \\vbox \n"),
    );
    assert_eq!(w, strings(&["LaTeX Warning: Ref undefined", "Overfull \\hbox", "Underfull \\vbox"]));
}

#[test]
fn warnings_are_capped_at_ten() {
    let out: Vec<String> = (0..12).map(|i| format!("Package Warning: number {}", i)).collect();
    let w = extract_warnings(&out.join("\n"), "", None);
    assert_eq!(w.len(), 10);
    assert_eq!(w[9], "Package Warning: number 9");
}

#[test]
fn errors_from_output() {
    let e = extract_errors("", "! Undefined control sequence.\nl.5 \\foo\n! Emergency stop.\n", None);
    assert_eq!(e, strings(&["! Undefined control sequence.", "l.5 \\foo"]));
}

#[test]
fn errors_from_log_blocks() {
    let log = "This is pdfTeX\n! Missing $ inserted.\n  <inserted text>\nl.7 x^2\nother\n";
    let e = extract_errors("", "nothing useful", Some(log));
    assert_eq!(e, strings(&["! Missing $ inserted.", "<inserted text>", "l.7 x^2"]));
}

#[test]
fn errors_from_log_tail() {
    let log = "This is pdfTeX\n(./a.tex\nsome message\n\nOutput written on a.pdf\nTranscript written on a.log.\n";
    let e = extract_errors("", "", Some(log));
    assert_eq!(e, strings(&["This is pdfTeX", "some message"]));
}

#[test]
fn errors_fall_back_to_generic_message() {
    let e = extract_errors("", "", None);
    assert_eq!(e, strings(&["Compilation failed. Check your LaTeX syntax."]));
}

#[test]
fn errors_are_capped_at_eight() {
    let out: Vec<String> = (0..10).map(|i| format!("! Error {}", i)).collect();
    let e = extract_errors("", &out.join("\n"), None);
    assert_eq!(e.len(), 8);
    assert_eq!(e[7], "! Error 7");
}

#[test]
fn fatal_log_detection() {
    assert!(read_log_fatal(Some("...\nFatal error occurred, no output PDF file produced!\n")));
    assert!(!read_log_fatal(Some("all fine")));
    assert!(!read_log_fatal(None));
}

#[test]
fn precheck_refusals() {
    assert_eq!(precheck_document(Err("missing".to_string()), None), Some("Cannot read file: missing".to_string()));
    assert_eq!(
        precheck_document(Ok(0), Some("")),
        Some("The document is empty. Add some LaTeX content first.".to_string())
    );
    let short = precheck_document(Ok(5), Some("hello")).unwrap();
    assert!(short.starts_with("The document is too short to compile."));
    let plain = precheck_document(Ok(20), Some("just some plain text")).unwrap();
    assert!(plain.starts_with("The document doesn't appear to contain valid LaTeX."));
}

#[test]
fn precheck_accepts_latex_and_unreadable_content() {
    assert_eq!(precheck_document(Ok(29), Some("\\documentclass{article} hello")), None);
    assert_eq!(precheck_document(Ok(5), None), None);
    let long_plain = "x".repeat(120);
    assert_eq!(precheck_document(Ok(120), Some(&long_plain)), None);
}

#[test]
fn run_success_with_warnings() {
    let ev = run_events(
        "pdflatex",
        RunOutcome::Finished { success: true, stderr: String::new(), stdout: "LaTeX Warning: x".to_string() },
        None,
        "/tmp/a.pdf",
        true,
    );
    assert_eq!(ev.len(), 2);
    assert!(matches!(&ev[0], CompileEvent::Warnings(w) if w == &strings(&["LaTeX Warning: x"])));
    assert!(matches!(&ev[1], CompileEvent::Success(p) if p == "/tmp/a.pdf"));
}

#[test]
fn run_success_without_pdf() {
    let ev = run_events(
        "pdflatex",
        RunOutcome::Finished { success: true, stderr: String::new(), stdout: String::new() },
        None,
        "/tmp/a.pdf",
        false,
    );
    assert_eq!(ev.len(), 1);
    assert!(matches!(&ev[0], CompileEvent::Failure(e) if e == &strings(&["Compilation finished but no PDF was produced."])));
}

#[test]
fn run_with_fatal_log_fails() {
    let ev = run_events(
        "pdflatex",
        RunOutcome::Finished { success: true, stderr: String::new(), stdout: "! Emergency stop.".to_string() },
        Some("Fatal error occurred\n"),
        "/tmp/a.pdf",
        true,
    );
    assert_eq!(ev.len(), 1);
    assert!(matches!(&ev[0], CompileEvent::Failure(e) if e == &strings(&["Fatal error occurred"])));
}

#[test]
fn run_that_could_not_start() {
    let ev = run_events("pdflatex", RunOutcome::NotFound, None, "/tmp/a.pdf", false);
    assert!(matches!(&ev[0], CompileEvent::Failure(e)
        if e == &strings(&["'pdflatex' was not found. Is a LaTeX distribution (MiKTeX/TeX Live) installed?"])));
    let ev = run_events("pdflatex", RunOutcome::Failed("boom".to_string()), None, "/tmp/a.pdf", false);
    assert!(matches!(&ev[0], CompileEvent::Failure(e) if e == &strings(&["Failed to run 'pdflatex': boom"])));
}

#[test]
fn bridge_status_follows_events() {
    let mut b = CompilerBridge::new(CompilerConfig::default());
    assert_eq!(b.status(), CompileStatus::Idle);
    assert_eq!(b.config().command, "pdflatex");
    assert_eq!(b.config().args, strings(&["-interaction=nonstopmode", "-halt-on-error"]));
    b.compile();
    assert_eq!(b.status(), CompileStatus::Running);
    assert!(b.poll(Received::Empty).is_none());
    assert_eq!(b.status(), CompileStatus::Running);
    let w = b.poll(Received::Event(CompileEvent::Warnings(strings(&["w"]))));
    assert!(matches!(w, Some(CompileEvent::Warnings(_))));
    assert_eq!(b.status(), CompileStatus::Running);
    b.poll(Received::Event(CompileEvent::Success("/tmp/a.pdf".to_string())));
    assert_eq!(b.status(), CompileStatus::Success);
    b.poll(Received::Event(CompileEvent::Started));
    assert_eq!(b.status(), CompileStatus::Running);
    b.poll(Received::Event(CompileEvent::Failure(strings(&["x"]))));
    assert_eq!(b.status(), CompileStatus::Failed);
    b.reset_status();
    assert_eq!(b.status(), CompileStatus::Idle);
    assert!(b.poll(Received::Disconnected).is_none());
    assert_eq!(b.status(), CompileStatus::Failed);
}

#[test]
fn compile_button_decisions() {
    assert_eq!(compile_request(false, true, true), CompileRequest::Ignore);
    assert_eq!(compile_request(true, true, true), CompileRequest::ShowCompilerDialog);
    assert_eq!(compile_request(true, false, false), CompileRequest::SaveFirst);
    assert_eq!(compile_request(true, false, true), CompileRequest::Build);
}

#[test]
fn automatic_build_timing() {
    assert_eq!(auto_compile_step(false, true, None, None, true, true), AutoCompileStep::Wait);
    assert_eq!(auto_compile_step(true, false, None, None, true, true), AutoCompileStep::Wait);
    assert_eq!(auto_compile_step(true, true, Some(799), None, true, true), AutoCompileStep::Wait);
    assert_eq!(auto_compile_step(true, true, Some(800), Some(1199), true, true), AutoCompileStep::Wait);
    assert_eq!(auto_compile_step(true, true, Some(800), Some(1200), true, true), AutoCompileStep::Build);
    assert_eq!(auto_compile_step(true, true, None, None, true, false), AutoCompileStep::Skip);
    assert_eq!(auto_compile_step(true, true, None, None, false, true), AutoCompileStep::Skip);
}

#[test]
fn build_status_messages() {
    assert_eq!(build_status_text(&CompileEvent::Started), Some("Compiling\u{2026}"));
    assert_eq!(build_status_text(&CompileEvent::Warnings(strings(&["w"]))), None);
    assert_eq!(build_status_text(&CompileEvent::Success("a.pdf".to_string())), Some("Compilation succeeded"));
    assert_eq!(build_status_text(&CompileEvent::Failure(vec![])), Some("Compilation failed"));
}

#[test]
fn what_follows_a_save() {
    assert!(matches!(after_save(Ok(()), false, true), SaveStep::SaveAs));
    assert!(matches!(after_save(Ok(()), true, true), SaveStep::Saved { ref status, compile: true } if status == "Saved"));
    assert!(matches!(after_save(Ok(()), true, false), SaveStep::Saved { compile: false, .. }));
    let e = AppError::Io(IoError { kind: IoKind::Other, message: "disk full".to_string() });
    assert!(matches!(after_save(Err(e), true, true),
        SaveStep::Failed { ref error } if error == "Failed to save: I/O error: disk full"));
}
