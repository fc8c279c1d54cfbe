//! Error taxonomy of a run and the exit codes derived from it.
//!
//! Errors that invalidate the precondition of the whole run (configuration)
//! are fatal before any filesystem mutation; errors local to one file are
//! recorded and the run continues with the next file.

use vstd::prelude::*;

verus! {

/// Why a whole run stops before any file is touched.
#[derive(Clone, Copy, PartialEq, Eq, Structural, Debug)]
pub enum ConfigError {
    /// The context list resolved to nothing.
    NoContexts,
    /// A context name between separators was empty after trimming.
    EmptyContextName,
    /// No destination root could be resolved.
    MissingDestination,
    /// No repository storage path could be resolved.
    MissingRepoStorage,
    /// Neither a numeric uid nor a user name could be resolved.
    MissingOwner,
}

/// Why one file failed; the run records the failure and continues.
#[derive(Clone, Copy, PartialEq, Eq, Structural, Debug)]
pub enum FileError {
    /// The source file could not be read.
    ClassifyRead,
    /// Strict-mode rendering failed (missing variable or bad template).
    Render,
    /// The pre-existing destination could not be renamed aside.
    Backup,
    /// The destination could not be created or filled, or it exists but is
    /// not a regular file.
    Write,
    /// Permissions or ownership could not be applied.
    Permission,
}

/// Exit code of a run whose configuration failed to resolve.
pub const CONFIG_EXIT_CODE: u8 = 19;

/// Exit code of a finished run: `0` when every file reconciled cleanly,
/// `1` when at least one file failed.
pub fn run_exit_code(files_failed: u64) -> (code: u8)
    ensures
        code == if files_failed == 0 { 0u8 } else { 1u8 },
{
    if files_failed == 0 {
        0
    } else {
        1
    }
}

} // verus!
