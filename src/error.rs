//! Classification of I/O failures met during a walk, and their diagnostic text.

use vstd::prelude::*;

verus! {

/// An I/O failure described by plain values: whether it means that the entry
/// does not exist, the raw OS error number if there is one, and its text.
/// `loop_errno` is the number that the platform uses for `ELOOP`, too many
/// levels of symbolic links (40 on Linux, 62 on the BSDs and macOS).
#[derive(Debug)]
pub struct IoFailure {
    pub not_found: bool,
    pub raw_os_error: Option<i32>,
    pub message: String,
    pub loop_errno: i32,
}

/// A diagnostic for the user, in the categories that `find` reports.
#[derive(PartialEq, Eq, Debug)]
pub enum Error {
    /// The path that was searched met a symbolic link loop.
    TooManySymlinks(String),
    /// Any other failure, carrying its own text.
    Custom(String),
    /// The path that was searched does not exist.
    NoSuchFile(String),
}

/// Whether a raw OS error number is the platform's `loop_errno`: "too many
/// levels of symbolic links".
pub open spec fn too_many_symlinks(raw: Option<i32>, loop_errno: i32) -> bool {
    raw == Some(loop_errno)
}

/// The diagnostic that an I/O failure on `path` is reported as.
pub open spec fn classify(failure: IoFailure, path: Seq<char>) -> ErrorView {
    if failure.not_found {
        ErrorView::NoSuchFile(path)
    } else if too_many_symlinks(failure.raw_os_error, failure.loop_errno) {
        ErrorView::TooManySymlinks(path)
    } else {
        ErrorView::Custom(failure.message@)
    }
}

/// The mathematical value of an [`Error`].
pub enum ErrorView {
    TooManySymlinks(Seq<char>),
    Custom(Seq<char>),
    NoSuchFile(Seq<char>),
}

impl View for Error {
    type V = ErrorView;

    open spec fn view(&self) -> ErrorView {
        match self {
            Error::TooManySymlinks(p) => ErrorView::TooManySymlinks(p@),
            Error::Custom(m) => ErrorView::Custom(m@),
            Error::NoSuchFile(p) => ErrorView::NoSuchFile(p@),
        }
    }
}

/// The text that a diagnostic is rendered as.
pub open spec fn message_of(e: ErrorView) -> Seq<char> {
    match e {
        ErrorView::TooManySymlinks(p) => "'"@ + p + "': Too many levels of symbolic links"@,
        ErrorView::Custom(m) => m,
        ErrorView::NoSuchFile(p) => "'"@ + p + "': No such file or directory"@,
    }
}

/// Whether `raw` is the OS error number for a symbolic link loop on a
/// platform whose `ELOOP` is `loop_errno`.
pub fn is_too_many_symlinks(raw: Option<i32>, loop_errno: i32) -> (r: bool)
    ensures
        r == too_many_symlinks(raw, loop_errno),
{
    match raw {
        Some(code) => code == loop_errno,
        None => false,
    }
}

fn quoted(path: &String, tail: &str) -> (r: String)
    ensures
        r@ == "'"@ + path@ + tail@,
{
    let mut r = String::from_str("'");
    r.append(path.as_str());
    r.append(tail);
    r
}

impl Error {
    /// Classifies an I/O failure met while searching `path`: a missing entry
    /// is `NoSuchFile`, a symbolic link loop is `TooManySymlinks`, and
    /// anything else is `Custom` with the failure's own text.
    pub fn from_io(error: IoFailure, path: String) -> (r: Error)
        ensures
            r@ == classify(error, path@),
    {
        if error.not_found {
            Error::NoSuchFile(path)
        } else if is_too_many_symlinks(error.raw_os_error, error.loop_errno) {
            Error::TooManySymlinks(path)
        } else {
            Error::Custom(error.message)
        }
    }

    /// The diagnostic's text, without the program name in front.
    pub fn message(&self) -> (r: String)
        ensures
            r@ == message_of(self@),
    {
        proof {
            reveal_strlit("'");
            reveal_strlit("': Too many levels of symbolic links");
            reveal_strlit("': No such file or directory");
        }
        match self {
            Error::TooManySymlinks(p) => quoted(p, "': Too many levels of symbolic links"),
            Error::Custom(m) => m.clone(),
            Error::NoSuchFile(p) => quoted(p, "': No such file or directory"),
        }
    }
}

} // verus!
