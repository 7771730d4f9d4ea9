//! Shared value types: errors, cursor positions, undo records, themes and compiler settings.
use vstd::prelude::*;

verus! {

/// The kind of a failed file operation.
#[derive(Debug, Clone, Copy, PartialEq, Eq, Structural)]
pub enum IoKind {
    /// The file (or the path to save under) does not exist.
    NotFound,
    /// The operation was not permitted.
    PermissionDenied,
    /// Any other failure.
    Other,
}

/// A failed file operation: its kind and the system's message.
#[derive(Debug, Clone)]
pub struct IoError {
    pub kind: IoKind,
    pub message: String,
}

/// Errors reported to the user.
#[derive(Debug, Clone)]
pub enum AppError {
    Io(IoError),
    Compile(String),
    Preview(String),
}

/// The text shown for an error ("I/O error: ...", "Compile error: ...", "Preview error: ...").
pub open spec fn error_text(e: AppError) -> Seq<char> {
    match e {
        AppError::Io(e) => "I/O error: "@ + e.message@,
        AppError::Compile(e) => "Compile error: "@ + e@,
        AppError::Preview(e) => "Preview error: "@ + e@,
    }
}

impl AppError {
    /// The text shown for this error ("I/O error: ...", "Compile error: ...", "Preview error: ...").
    pub fn message(&self) -> (r: String)
        ensures
            r@ == error_text(*self),
    {
        match self {
            AppError::Io(e) => String::from_str("I/O error: ").concat(e.message.as_str()),
            AppError::Compile(e) => String::from_str("Compile error: ").concat(e.as_str()),
            AppError::Preview(e) => String::from_str("Preview error: ").concat(e.as_str()),
        }
    }
}

/// A 1-based line and 0-based column.
#[derive(Debug, Clone)]
pub struct CursorPos {
    pub line: usize,
    pub col: usize,
}

/// What an undo record did to the text.
#[derive(Debug, Clone)]
pub enum EditKind {
    Insert(String),
    Delete(String),
}

/// One undo record: an insertion or deletion at a byte position.
#[derive(Debug, Clone)]
pub struct EditToken {
    pub kind: EditKind,
    pub position: usize,
}

/// The meaning of an undo record: inserted or deleted characters at a byte position.
pub struct EditView {
    pub insert: bool,
    pub text: Seq<char>,
    pub position: int,
}

impl View for EditToken {
    type V = EditView;

    open spec fn view(&self) -> EditView {
        EditView {
            insert: self.kind is Insert,
            text: match &self.kind {
                EditKind::Insert(s) => s@,
                EditKind::Delete(s) => s@,
            },
            position: self.position as int,
        }
    }
}

/// Colour scheme of the editor: dark, light, or following the desktop.
#[derive(Debug, Clone, Copy, PartialEq, Eq, Structural)]
pub enum Theme {
    Dark,
    Light,
    System,
}

/// The LaTeX command line used to build a document.
#[derive(Debug, Clone)]
pub struct CompilerConfig {
    pub command: String,
    pub args: Vec<String>,
}

impl Default for CompilerConfig {
    fn default() -> (r: Self)
        ensures
            r.command@ == "pdflatex"@,
            r.args@.len() == 2,
            r.args@[0]@ == "-interaction=nonstopmode"@,
            r.args@[1]@ == "-halt-on-error"@,
    {
        let mut args: Vec<String> = Vec::new();
        args.push("-interaction=nonstopmode".to_owned());
        args.push("-halt-on-error".to_owned());
        CompilerConfig { command: "pdflatex".to_owned(), args }
    }
}

/// Outcome of the latest build, as shown in the status bar.
#[derive(Debug, Clone, Copy, PartialEq, Eq, Structural)]
pub enum CompileStatus {
    Idle,
    Running,
    Success,
    Failed,
}

} // verus!
