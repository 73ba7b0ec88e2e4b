//! Structured error values produced by the engines.
//!
//! All engine operations return a `Result` with one of these values on
//! failure; the engines themselves never panic and never interact with the
//! user directly.

use vstd::prelude::*;

verus! {

/// Error kinds that the engines can signal.
#[derive(Debug, Clone, Copy, PartialEq, Eq, Structural)]
pub enum Error {
    /// A host path was not representable as required text.
    StringToPathUTF8Error,
    /// Converting a host path to its foreign-subsystem form failed.
    WinToUnixPathError,
    /// The foreign-subsystem binaries were not found.
    WSLNotFound,
    /// Spawning the foreign-subsystem host process failed.
    WSLProcessError,
    /// A path was missing a directory or a filename component.
    InvalidPathError,
    /// The composed command exceeds the platform ceiling even after
    /// spilling arguments to a file.
    CommandTooLong,
    /// An in-progress path translation was cancelled by the caller.
    Cancel,
    /// A host input/output operation failed.
    IOError,
    /// A persistent-store operation failed, e.g. a record was absent.
    RegistryError,
    /// An invariant violation, e.g. registering an empty extension name.
    LogicError,
    /// The drop target could not be mapped to a registered extension.
    DropHandlerError,
}

/// The description text of each error.
pub open spec fn spec_message(e: Error) -> Seq<char> {
    match e {
        Error::StringToPathUTF8Error => "Path contains invalid UTF-8 characters."@,
        Error::WinToUnixPathError => "Failed to convert Windows path to WSL path."@,
        Error::WSLNotFound => "WSL not found or not installed."@,
        Error::WSLProcessError => "Failed to start WSL process."@,
        Error::InvalidPathError => "Invalid path."@,
        Error::CommandTooLong => "Command is too long."@,
        Error::Cancel => "Operation was cancelled."@,
        Error::IOError => "IO error."@,
        Error::RegistryError => "Registry error."@,
        Error::LogicError => "Logic error."@,
        Error::DropHandlerError => "Drop handler error."@,
    }
}

impl Error {
    /// A short human-readable description of the error.
    pub fn message(&self) -> (r: &'static str)
        ensures
            r@ == spec_message(*self),
            r@.len() > 0,
    {
        let r = match self {
            Error::StringToPathUTF8Error => "Path contains invalid UTF-8 characters.",
            Error::WinToUnixPathError => "Failed to convert Windows path to WSL path.",
            Error::WSLNotFound => "WSL not found or not installed.",
            Error::WSLProcessError => "Failed to start WSL process.",
            Error::InvalidPathError => "Invalid path.",
            Error::CommandTooLong => "Command is too long.",
            Error::Cancel => "Operation was cancelled.",
            Error::IOError => "IO error.",
            Error::RegistryError => "Registry error.",
            Error::LogicError => "Logic error.",
            Error::DropHandlerError => "Drop handler error.",
        };
        proof {
            reveal_strlit("Path contains invalid UTF-8 characters.");
            reveal_strlit("Failed to convert Windows path to WSL path.");
            reveal_strlit("WSL not found or not installed.");
            reveal_strlit("Failed to start WSL process.");
            reveal_strlit("Invalid path.");
            reveal_strlit("Command is too long.");
            reveal_strlit("Operation was cancelled.");
            reveal_strlit("IO error.");
            reveal_strlit("Registry error.");
            reveal_strlit("Logic error.");
            reveal_strlit("Drop handler error.");
        }
        r
    }
}

} // verus!
