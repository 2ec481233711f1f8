use vstd::prelude::*;

verus! {

/// The launcher's error, one variant per kind of failure, each with its message.
#[derive(Debug, PartialEq, Eq)]
pub enum LauncherError {
    /// A failure of the HTTP client.
    Reqwest(String),
    /// A failure of file I/O.
    Io(String),
    /// A JSON text that could not be read or written.
    SerdeJson(String),
    /// A MessagePack payload that could not be decoded.
    MessagePack(String),
    /// A missing system resource or a failed system call.
    System(String),
    /// Input that the launcher refuses.
    Validation(String),
}

/// The kind of a `LauncherError`, without its message.
#[derive(Debug, Clone, Copy, PartialEq, Eq)]
pub enum ErrorKind {
    Reqwest,
    Io,
    SerdeJson,
    MessagePack,
    System,
    Validation,
}

impl View for LauncherError {
    type V = (ErrorKind, Seq<char>);

    open spec fn view(&self) -> (ErrorKind, Seq<char>) {
        match self {
            LauncherError::Reqwest(m) => (ErrorKind::Reqwest, m@),
            LauncherError::Io(m) => (ErrorKind::Io, m@),
            LauncherError::SerdeJson(m) => (ErrorKind::SerdeJson, m@),
            LauncherError::MessagePack(m) => (ErrorKind::MessagePack, m@),
            LauncherError::System(m) => (ErrorKind::System, m@),
            LauncherError::Validation(m) => (ErrorKind::Validation, m@),
        }
    }
}

/// `LauncherError::System` with the given message.
pub fn system_error(message: &str) -> (e: LauncherError)
    ensures
        e@ == (ErrorKind::System, message@),
{
    LauncherError::System(message.to_owned())
}

/// `LauncherError::Validation` with the given message.
pub fn validation_error(message: &str) -> (e: LauncherError)
    ensures
        e@ == (ErrorKind::Validation, message@),
{
    LauncherError::Validation(message.to_owned())
}

} // verus!
