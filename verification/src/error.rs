//! The library's error type.

use vstd::prelude::*;

verus! {

/// Errors of the low-level process-memory layer.
#[derive(Debug, Clone, PartialEq, Eq)]
pub enum MfError {
    /// The process exited (or its `/proc` entry vanished).
    ProcessDied,
    /// No process matched the request.
    ProcessNotFound,
    /// No module matched the request.
    ModuleNotFound,
    /// A string read from memory was not valid UTF-8.
    InvalidString,
    /// The operating system reported this error number.
    Os(i32),
}

/// Errors surfaced by the library.
#[derive(Debug, Clone, PartialEq, Eq)]
pub enum SdkError {
    /// A low-level memory operation failed.
    Memory(MfError),
    /// A memory read/write against the target failed.
    Access {
        /// Target address the failed access was aimed at.
        address: usize,
    },
    /// A managed plugin library could not be loaded or was missing an export.
    Plugin(String),
    /// A signature/pattern string could not be parsed.
    Pattern(String),
    /// An address expression could not be parsed or evaluated.
    Expr(String),
    /// A referenced module was not found in the target.
    ModuleNotFound(String),
    /// Project serialization/deserialization failed.
    Project(String),
    /// A filesystem operation on a project folder failed.
    Io(String),
    /// A debugger control operation failed.
    Debug(String),
    /// A raw `ptrace` request failed.
    Ptrace {
        /// The ptrace request that failed (e.g. `"SEIZE"`).
        op: &'static str,
        /// The OS error number.
        errno: i32,
    },
    /// A memory scan failed to complete.
    Scan(String),
    /// A pluggable backend reported an internal error.
    Backend {
        /// Backend name.
        name: &'static str,
        /// Human-readable failure reason.
        reason: String,
    },
    /// The requested backend/feature is not available.
    Unsupported(&'static str),
}

} // verus!
