//! The library's error kinds.
use vstd::prelude::*;

verus! {

/// What went wrong, with a message for the user.
#[derive(Clone, Debug, PartialEq, Eq)]
pub enum ErrorKind {
    /// The input (from the user or a remote service) is not acceptable.
    InputError(String),
    /// Launching or controlling a process failed.
    LauncherError(String),
    /// A file or its record on disk is missing or inconsistent.
    FSError(String),
    /// A JSON text could not be read.
    JSONError(String),
    /// Any other failure.
    OtherError(String),
}

impl ErrorKind {
    /// The message an error carries.
    pub open spec fn message(self) -> Seq<char> {
        match self {
            ErrorKind::InputError(m) => m@,
            ErrorKind::LauncherError(m) => m@,
            ErrorKind::FSError(m) => m@,
            ErrorKind::JSONError(m) => m@,
            ErrorKind::OtherError(m) => m@,
        }
    }
}

/// An input error carrying `message`.
pub fn input_error(message: &str) -> (e: ErrorKind)
    ensures
        e matches ErrorKind::InputError(m) && m@ == message@,
{
    ErrorKind::InputError(crate::text::to_owned_string(message))
}

/// A launcher error carrying `message`.
pub fn launcher_error(message: &str) -> (e: ErrorKind)
    ensures
        e matches ErrorKind::LauncherError(m) && m@ == message@,
{
    ErrorKind::LauncherError(crate::text::to_owned_string(message))
}

/// A file-system error carrying `message`.
pub fn fs_error(message: String) -> (e: ErrorKind)
    ensures
        e matches ErrorKind::FSError(m) && m@ == message@,
{
    ErrorKind::FSError(message)
}

/// An error of another kind carrying `message`.
pub fn other_error(message: &str) -> (e: ErrorKind)
    ensures
        e matches ErrorKind::OtherError(m) && m@ == message@,
{
    ErrorKind::OtherError(crate::text::to_owned_string(message))
}

} // verus!
