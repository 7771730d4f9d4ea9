//! Building a document: the decisions around a LaTeX run and the status they lead to.
pub mod parser;

use vstd::prelude::*;

use crate::compiler::parser::{extract_errors, extract_warnings, opt_view, read_log_fatal, errors_of, warnings_of};
use crate::strings::{chars_of, contains, contains_exec, views};
use crate::text::utf8;
use crate::types::{error_text, AppError, CompileStatus, CompilerConfig};

verus! {

/// What a build reports, in order: it started, warnings (if any), then success with the PDF's
/// path or failure with error messages.
#[derive(Debug, Clone)]
pub enum CompileEvent {
    Started,
    Warnings(Vec<String>),
    Success(String),
    Failure(Vec<String>),
}

/// How running the LaTeX program went.
#[derive(Debug)]
pub enum RunOutcome {
    /// It ran; whether it exited successfully, and what it printed.
    Finished { success: bool, stderr: String, stdout: String },
    /// The program could not be found.
    NotFound,
    /// It could not be started for another reason, with the system's message.
    Failed(String),
}

/// What the build worker received from the event channel on one poll.
#[derive(Debug)]
pub enum Received {
    Event(CompileEvent),
    Empty,
    Disconnected,
}

/// Whether a document shows any LaTeX structure.
pub open spec fn has_tex_structure(c: Seq<char>) -> bool {
    ||| contains(c, "\\document"@)
    ||| contains(c, "\\begin{"@)
    ||| contains(c, "\\section"@)
    ||| contains(c, "\\chapter"@)
    ||| contains(c, "\\end{"@)
}

/// Message for an empty document.
pub open spec fn empty_document_message() -> Seq<char> {
    "The document is empty. Add some LaTeX content first."@
}

/// Message for a document under ten bytes.
pub open spec fn short_document_message() -> Seq<char> {
    "The document is too short to compile.\nAdd LaTeX content like:\n  \\documentclass{article}\n  \\begin{document}\n  Hello, world!\n  \\end{document}"@
}

/// Message for a short document without LaTeX structure.
pub open spec fn not_latex_message() -> Seq<char> {
    "The document doesn't appear to contain valid LaTeX.\nAdd a preamble like:\n  \\documentclass{article}\n  \\begin{document}\n  Your content here\n  \\end{document}"@
}

/// The refusal, if any, before running LaTeX on a file whose size was read as `size` (or the
/// error reading it) and whose text was read as `content` (if readable): unreadable file, empty
/// file, under ten bytes, or under a hundred bytes without any LaTeX structure.
pub open spec fn precheck_spec(size: Result<u64, Seq<char>>, content: Option<Seq<char>>) -> Option<
    Seq<char>,
> {
    match size {
        Err(e) => Some("Cannot read file: "@ + e),
        Ok(n) => if n == 0 {
            Some(empty_document_message())
        } else {
            match content {
                None => None,
                Some(c) => if utf8(c).len() < 10 {
                    Some(short_document_message())
                } else if !has_tex_structure(c) && utf8(c).len() < 100 {
                    Some(not_latex_message())
                } else {
                    None
                },
            }
        },
    }
}

/// Checks a file before building it; a refusal is the failure message to report.
pub fn precheck_document(size: Result<u64, String>, content: Option<&str>) -> (r: Option<String>)
    ensures
        match r {
            Some(m) => precheck_spec(
                match size {
                    Ok(n) => Ok(n),
                    Err(e) => Err(e@),
                },
                opt_view(content),
            ) == Some(m@),
            None => precheck_spec(
                match size {
                    Ok(n) => Ok(n),
                    Err(e) => Err(e@),
                },
                opt_view(content),
            ) is None,
        },
{
    match size {
        Err(e) => Some(String::from_str("Cannot read file: ").concat(e.as_str())),
        Ok(n) => {
            if n == 0 {
                return Some(String::from_str("The document is empty. Add some LaTeX content first."));
            }
            match content {
                None => None,
                Some(c) => {
                    let len = c.as_bytes().len();
                    if len < 10 {
                        return Some(String::from_str("The document is too short to compile.\nAdd LaTeX content like:\n  \\documentclass{article}\n  \\begin{document}\n  Hello, world!\n  \\end{document}"));
                    }
                    let cc = chars_of(c);
                    let structured = contains_exec(cc.as_slice(), chars_of("\\document").as_slice())
                        || contains_exec(cc.as_slice(), chars_of("\\begin{").as_slice())
                        || contains_exec(cc.as_slice(), chars_of("\\section").as_slice())
                        || contains_exec(cc.as_slice(), chars_of("\\chapter").as_slice())
                        || contains_exec(cc.as_slice(), chars_of("\\end{").as_slice());
                    if !structured && len < 100 {
                        return Some(String::from_str("The document doesn't appear to contain valid LaTeX.\nAdd a preamble like:\n  \\documentclass{article}\n  \\begin{document}\n  Your content here\n  \\end{document}"));
                    }
                    None
                },
            }
        },
    }
}

/// The failure reported when a finished run produced no PDF.
pub open spec fn no_pdf_message() -> Seq<char> {
    "Compilation finished but no PDF was produced."@
}

/// The events of a run of `command`, after `Started`: for a finished run, its warnings (if
/// any), then success with `pdf_path` when it exited successfully, its log shows no fatal error
/// and the PDF exists, otherwise failure with its errors (or the missing-PDF message); for a run
/// that could not start, one failure saying why.
pub open spec fn run_events_spec(
    command: Seq<char>,
    outcome: RunOutcome,
    log: Option<Seq<char>>,
    pdf_path: Seq<char>,
    pdf_exists: bool,
) -> Seq<EventView> {
    match outcome {
        RunOutcome::Finished { success, stderr, stdout } => {
            let w = warnings_of(stderr@, stdout@, log);
            let fatal = match log {
                Some(l) => contains(l, "Fatal error occurred"@),
                None => false,
            };
            let last = if success && !fatal {
                if pdf_exists {
                    EventView::Success(pdf_path)
                } else {
                    EventView::Failure(seq![no_pdf_message()])
                }
            } else {
                EventView::Failure(errors_of(stderr@, stdout@, log))
            };
            if w.len() > 0 {
                seq![EventView::Warnings(w), last]
            } else {
                seq![last]
            }
        },
        RunOutcome::NotFound => seq![
            EventView::Failure(
                seq![
                    "'"@ + command
                        + "' was not found. Is a LaTeX distribution (MiKTeX/TeX Live) installed?"@,
                ],
            ),
        ],
        RunOutcome::Failed(e) => seq![
            EventView::Failure(seq!["Failed to run '"@ + command + "': "@ + e@]),
        ],
    }
}

/// The meaning of a build event.
pub enum EventView {
    Started,
    Warnings(Seq<Seq<char>>),
    Success(Seq<char>),
    Failure(Seq<Seq<char>>),
}

impl View for CompileEvent {
    type V = EventView;

    open spec fn view(&self) -> EventView {
        match self {
            CompileEvent::Started => EventView::Started,
            CompileEvent::Warnings(w) => EventView::Warnings(views(w@)),
            CompileEvent::Success(p) => EventView::Success(p@),
            CompileEvent::Failure(e) => EventView::Failure(views(e@)),
        }
    }
}

/// The views of a sequence of events.
pub open spec fn event_views(v: Seq<CompileEvent>) -> Seq<EventView> {
    v.map_values(|e: CompileEvent| e@)
}

fn one_string(s: String) -> (r: Vec<String>)
    ensures
        views(r@) == seq![s@],
{
    let mut v: Vec<String> = Vec::new();
    v.push(s);
    assert(views(v@) =~= seq![s@]);
    v
}

/// The events to report after running `command` (see `run_events_spec`); `log` is the run's log
/// file if it could be read, `pdf_exists` whether `pdf_path` exists after the run.
pub fn run_events(
    command: &str,
    outcome: RunOutcome,
    log: Option<&str>,
    pdf_path: &str,
    pdf_exists: bool,
) -> (r: Vec<CompileEvent>)
    ensures
        event_views(r@) == run_events_spec(command@, outcome, opt_view(log), pdf_path@, pdf_exists),
{
    let ghost out = outcome;
    let mut events: Vec<CompileEvent> = Vec::new();
    match outcome {
        RunOutcome::Finished { success, stderr, stdout } => {
            let warnings = extract_warnings(stderr.as_str(), stdout.as_str(), log);
            if warnings.len() > 0 {
                events.push(CompileEvent::Warnings(warnings));
            }
            let fatal = read_log_fatal(log);
            if success && !fatal {
                if pdf_exists {
                    events.push(CompileEvent::Success(pdf_path.to_owned()));
                } else {
                    events.push(
                        CompileEvent::Failure(
                            one_string(
                                String::from_str("Compilation finished but no PDF was produced."),
                            ),
                        ),
                    );
                }
            } else {
                let errors = extract_errors(stderr.as_str(), stdout.as_str(), log);
                events.push(CompileEvent::Failure(errors));
            }
        },
        RunOutcome::NotFound => {
            let m = String::from_str("'").concat(command).concat(
                "' was not found. Is a LaTeX distribution (MiKTeX/TeX Live) installed?",
            );
            events.push(CompileEvent::Failure(one_string(m)));
        },
        RunOutcome::Failed(e) => {
            let m = String::from_str("Failed to run '").concat(command).concat("': ").concat(
                e.as_str(),
            );
            events.push(CompileEvent::Failure(one_string(m)));
        },
    }
    proof {
        assert(event_views(events@) =~= run_events_spec(
            command@,
            out,
            opt_view(log),
            pdf_path@,
            pdf_exists,
        ));
    }
    events
}

/// The status a build has after `event`; warnings leave it unchanged.
pub open spec fn status_after(s: CompileStatus, event: EventView) -> CompileStatus {
    match event {
        EventView::Started => CompileStatus::Running,
        EventView::Warnings(_) => s,
        EventView::Success(_) => CompileStatus::Success,
        EventView::Failure(_) => CompileStatus::Failed,
    }
}

/// The build settings of a document and the status of its latest build.
pub struct CompilerBridge {
    config: CompilerConfig,
    status: CompileStatus,
}

impl CompilerBridge {
    /// The status of the latest build.
    pub closed spec fn status_view(&self) -> CompileStatus {
        self.status
    }

    /// The command line it builds with.
    pub closed spec fn config_view(&self) -> CompilerConfig {
        self.config
    }

    /// A bridge that builds with `config`, idle.
    pub fn new(config: CompilerConfig) -> (r: Self)
        ensures
            r.status_view() == CompileStatus::Idle,
            r.config_view() == config,
    {
        CompilerBridge { config, status: CompileStatus::Idle }
    }

    /// The command line to build with.
    pub fn config(&self) -> (r: &CompilerConfig)
        ensures
            *r == self.config_view(),
    {
        &self.config
    }

    /// Marks a build as started; the worker then runs `config()`.
    pub fn compile(&mut self)
        ensures
            final(self).status_view() == CompileStatus::Running,
            final(self).config_view() == old(self).config_view(),
    {
        self.status = CompileStatus::Running;
    }

    /// Takes in what one poll of the event channel gave: an event updates the status and is
    /// handed on; an empty channel changes nothing; a closed channel means the build failed.
    pub fn poll(&mut self, received: Received) -> (r: Option<CompileEvent>)
        ensures
            match received {
                Received::Event(e) => r == Some(e) && final(self).status_view() == status_after(
                    old(self).status_view(),
                    e@,
                ),
                Received::Empty => r is None && final(self).status_view() == old(
                    self,
                ).status_view(),
                Received::Disconnected => r is None && final(self).status_view()
                    == CompileStatus::Failed,
            },
            final(self).config_view() == old(self).config_view(),
    {
        match received {
            Received::Event(event) => {
                self.status = match &event {
                    CompileEvent::Started => CompileStatus::Running,
                    CompileEvent::Warnings(_) => {
                        return Some(event);
                    },
                    CompileEvent::Success(_) => CompileStatus::Success,
                    CompileEvent::Failure(_) => CompileStatus::Failed,
                };
                Some(event)
            },
            Received::Empty => None,
            Received::Disconnected => {
                self.status = CompileStatus::Failed;
                None
            },
        }
    }

    /// The status of the latest build.
    pub fn status(&self) -> (r: CompileStatus)
        ensures
            r == self.status_view(),
    {
        self.status
    }

    /// Forgets the outcome of the latest build.
    pub fn reset_status(&mut self)
        ensures
            final(self).status_view() == CompileStatus::Idle,
            final(self).config_view() == old(self).config_view(),
    {
        self.status = CompileStatus::Idle;
    }
}

/// What the compile button leads to.
#[derive(Debug, Clone, PartialEq, Eq, Structural)]
pub enum CompileRequest {
    /// No document is open.
    Ignore,
    /// LaTeX is not installed: offer to install it.
    ShowCompilerDialog,
    /// The document has no file yet: ask for it to be saved first.
    SaveFirst,
    /// Write the document to its file and build it.
    Build,
}

/// Decides what pressing Compile does: nothing without a document; the installer dialog when
/// `pdflatex --version` did not run successfully; a request to save a document without a file;
/// otherwise a build.
pub fn compile_request(has_tab: bool, compiler_missing: bool, has_path: bool) -> (r: CompileRequest)
    ensures
        r == if !has_tab {
            CompileRequest::Ignore
        } else if compiler_missing {
            CompileRequest::ShowCompilerDialog
        } else if !has_path {
            CompileRequest::SaveFirst
        } else {
            CompileRequest::Build
        },
{
    if !has_tab {
        CompileRequest::Ignore
    } else if compiler_missing {
        CompileRequest::ShowCompilerDialog
    } else if !has_path {
        CompileRequest::SaveFirst
    } else {
        CompileRequest::Build
    }
}

/// What the automatic build does on one frame.
#[derive(Debug, Clone, PartialEq, Eq, Structural)]
pub enum AutoCompileStep {
    /// Not yet: auto-compile is off, no document is open, typing went on less than 800 ms ago,
    /// or the last automatic build is less than 1200 ms old.
    Wait,
    /// The time has come but there is nothing to build: only the time of this check is kept.
    Skip,
    /// Write the document to its file and build it, and keep the time of this check.
    Build,
}

/// The automatic-build decision: `idle_ms` is the time since the last edit and `since_last_ms`
/// the time since the last automatic build (`None`: never).
pub open spec fn auto_compile_spec(
    enabled: bool,
    has_tab: bool,
    idle_ms: Option<u64>,
    since_last_ms: Option<u64>,
    has_path: bool,
    dirty: bool,
) -> AutoCompileStep {
    let idle_ok = match idle_ms {
        Some(t) => t >= 800,
        None => true,
    };
    let interval_ok = match since_last_ms {
        Some(t) => t >= 1200,
        None => true,
    };
    if !(enabled && has_tab && idle_ok && interval_ok) {
        AutoCompileStep::Wait
    } else if has_path && dirty {
        AutoCompileStep::Build
    } else {
        AutoCompileStep::Skip
    }
}

/// Decides what the automatic build does now (see `auto_compile_spec`).
pub fn auto_compile_step(
    enabled: bool,
    has_tab: bool,
    idle_ms: Option<u64>,
    since_last_ms: Option<u64>,
    has_path: bool,
    dirty: bool,
) -> (r: AutoCompileStep)
    ensures
        r == auto_compile_spec(enabled, has_tab, idle_ms, since_last_ms, has_path, dirty),
{
    let idle_ok = match idle_ms {
        Some(t) => t >= 800,
        None => true,
    };
    let interval_ok = match since_last_ms {
        Some(t) => t >= 1200,
        None => true,
    };
    if !(enabled && has_tab && idle_ok && interval_ok) {
        AutoCompileStep::Wait
    } else if has_path && dirty {
        AutoCompileStep::Build
    } else {
        AutoCompileStep::Skip
    }
}

/// What follows a request to save the active document.
#[derive(Debug)]
pub enum SaveStep {
    /// The document has no file yet: ask for one (Save As).
    SaveAs,
    /// It was saved: the status message, and whether to build it now (auto-compile).
    Saved { status: String, compile: bool },
    /// Saving failed: the error to show.
    Failed { error: String },
}

/// What follows saving: `saved` is the outcome of saving to the document's file (used only when
/// the document has one).
pub open spec fn after_save_ok(r: SaveStep, saved: Result<(), AppError>, has_path: bool, auto_compile: bool) -> bool {
    if !has_path {
        r is SaveAs
    } else {
        match saved {
            Ok(_) => r matches SaveStep::Saved { status, compile } && status@ == "Saved"@
                && compile == auto_compile,
            Err(e) => r matches SaveStep::Failed { error } && error@ == "Failed to save: "@
                + error_text(e),
        }
    }
}

/// Decides what follows a save: Save As for a document without a file; otherwise "Saved" and a
/// build when auto-compile is on, or the error.
pub fn after_save(saved: Result<(), AppError>, has_path: bool, auto_compile: bool) -> (r: SaveStep)
    ensures
        after_save_ok(r, saved, has_path, auto_compile),
{
    if !has_path {
        return SaveStep::SaveAs;
    }
    match saved {
        Ok(()) => SaveStep::Saved { status: String::from_str("Saved"), compile: auto_compile },
        Err(e) => SaveStep::Failed {
            error: String::from_str("Failed to save: ").concat(e.message().as_str()),
        },
    }
}

} // verus!
