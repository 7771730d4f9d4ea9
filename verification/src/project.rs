//! Where a new document goes: a project folder named after the document, next to the place the
//! user chose, holding the document under the chosen file name.
use vstd::prelude::*;

verus! {

/// `Path::parent` of `path`, as a string. Which part is the parent follows the platform's path
/// rules (its separators and prefixes), so nothing is stated of it.
#[verifier::external_body]
fn path_parent(path: &str) -> (r: Option<String>) {
    match std::path::Path::new(path).parent() {
        Some(p) => Some(p.to_string_lossy().into_owned()),
        None => None,
    }
}

/// `Path::file_name` of `path`, as a string. Which part is the file name follows the platform's
/// path rules, so nothing is stated of it.
#[verifier::external_body]
fn path_file_name(path: &str) -> (r: Option<String>) {
    match std::path::Path::new(path).file_name() {
        Some(n) => Some(n.to_string_lossy().into_owned()),
        None => None,
    }
}

/// `Path::file_stem` of `path`, as a string. It depends on the file name, which follows the
/// platform's path rules, so nothing is stated of it.
#[verifier::external_body]
fn path_file_stem(path: &str) -> (r: Option<String>) {
    match std::path::Path::new(path).file_stem() {
        Some(n) => Some(n.to_string_lossy().into_owned()),
        None => None,
    }
}

/// `Path::join` of `base` and `part`, as a string. The separator, and whether `part` replaces
/// `base`, follow the platform's path rules, so nothing is stated of the result.
#[verifier::external_body]
fn path_join(base: &str, part: &str) -> (r: String) {
    std::path::Path::new(base).join(part).to_string_lossy().into_owned()
}

/// The parts of a new document's place, from what was read of the chosen path: the folder it
/// is in (else the current folder `.`), the project folder's name (the chosen file's stem, else
/// `document`) and the document's file name (else `document.tex`).
pub fn project_layout(
    parent: Option<String>,
    stem: Option<String>,
    file_name: Option<String>,
) -> (r: (String, String, String))
    ensures
        r.0@ == (match parent {
            Some(p) => p@,
            None => "."@,
        }),
        r.1@ == (match stem {
            Some(s) => s@,
            None => "document"@,
        }),
        r.2@ == (match file_name {
            Some(f) => f@,
            None => "document.tex"@,
        }),
{
    let folder = match parent {
        Some(p) => p,
        None => String::from_str("."),
    };
    let name = match stem {
        Some(s) => s,
        None => String::from_str("document"),
    };
    let file = match file_name {
        Some(f) => f,
        None => String::from_str("document.tex"),
    };
    (folder, name, file)
}

/// Where a document chosen as `path` is created: the chosen file name inside a folder named
/// after the file's stem, next to the chosen place. The path parts come from the platform's path
/// rules; [`project_layout`] states what is done with them.
pub fn project_tex_path(path: &str) -> (r: String) {
    let (folder, name, file) = project_layout(
        path_parent(path),
        path_file_stem(path),
        path_file_name(path),
    );
    let project_folder = path_join(folder.as_str(), name.as_str());
    path_join(project_folder.as_str(), file.as_str())
}

} // verus!
