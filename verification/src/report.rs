//! The outcomes and messages the core produces.
//!
//! Each external invocation's result is a tagged variant rather than a
//! boolean, so callers can apply the differentiated non-fatal-versus-
//! fatal policy: a missing tool is a reported warning, a non-zero exit
//! is a reported failure, and only another spawn-level error is a hard
//! error. Reports are structured values; rendering them as text is the
//! unverified shell's business.

use vstd::prelude::*;

verus! {

/// The scaffolding tools, in the fixed order they run.
#[derive(Clone, Copy, PartialEq, Eq, Structural, Debug)]
pub enum Tool {
    Git,
    Cargo,
    Npm,
    Go,
}

/// What came of spawning one external tool.
#[derive(Debug)]
pub enum RunOutcome {
    /// The tool ran and exited zero; `stdout` is its captured output.
    Success { stdout: String },
    /// The tool ran and exited non-zero; `stderr` is its captured diagnostics.
    NonZeroExit { stderr: String },
    /// The tool is not installed: a reported warning, never a hard error.
    NotFound,
    /// Any other spawn-level error: a hard error for the directory's
    /// initialization step.
    SpawnError { message: String },
}

/// Why a filesystem operation of the model refused.
#[derive(Clone, Copy, PartialEq, Eq, Structural, Debug)]
pub enum FsError {
    /// The path is empty once trailing separators are dropped.
    EmptyPath,
    /// A component of the path already exists as a plain file.
    ComponentIsFile,
    /// A file was asked for where a directory stands.
    TargetIsDirectory,
    /// The entry to change does not exist.
    NotFound,
}

/// Why one path of the batch failed; caught and reported per path,
/// never aborting the rest of the batch.
#[derive(Debug)]
pub enum CreateError {
    Fs { err: FsError },
    Spawn { message: String },
}

/// One line of the run's outcome, as structured data. The shell decides
/// how each variant is rendered and on which stream.
#[derive(Debug)]
pub enum Report {
    /// A directory was actually created (pre-existence reports nothing).
    DirCreated { path: Vec<u8> },
    /// A plain file was actually created.
    FileCreated { path: Vec<u8> },
    /// The file already existed and was re-truncated; a verbose note,
    /// not a creation event.
    FileTouched { path: Vec<u8> },
    /// The permission mode was applied; a verbose note.
    ModeSet { path: Vec<u8>, mode: u32 },
    /// The platform has no permission modes; the request is an advisory
    /// no-op, noted when verbose.
    ModeUnsupported { path: Vec<u8> },
    /// Scaffolding was requested against a plain file: a user error,
    /// reported once, with zero tools spawned.
    InitRefusedFile { path: Vec<u8> },
    /// Verbose companion note to the refusal above.
    InitSkippedFile { path: Vec<u8> },
    /// The tool ran and exited zero.
    ToolSucceeded { tool: Tool },
    /// The tool's non-empty standard output, echoed when verbose.
    ToolOutput { tool: Tool, stdout: String },
    /// The tool ran and exited non-zero.
    ToolFailed { tool: Tool, stderr: String },
    /// The tool is absent from the search path.
    ToolNotFound { tool: Tool },
}

/// The report announces a creation event: a directory or file made, or
/// an existing file touched. Scaffolding produces no such line.
pub open spec fn is_creation_report(r: Report) -> bool {
    ||| r matches Report::DirCreated { .. }
    ||| r matches Report::FileCreated { .. }
    ||| r matches Report::FileTouched { .. }
}

/// The reports hold a directory-created line for `p`.
pub open spec fn has_dir_created(rs: Seq<Report>, p: Seq<u8>) -> bool {
    exists|i: int|
        0 <= i < rs.len() && (#[trigger] rs[i] matches Report::DirCreated { path } && path@ == p)
}

/// The reports hold a file-created line for `p`.
pub open spec fn has_file_created(rs: Seq<Report>, p: Seq<u8>) -> bool {
    exists|i: int|
        0 <= i < rs.len() && (#[trigger] rs[i] matches Report::FileCreated { path } && path@ == p)
}

/// The reports hold a touched note for `p`.
pub open spec fn has_file_touched(rs: Seq<Report>, p: Seq<u8>) -> bool {
    exists|i: int|
        0 <= i < rs.len() && (#[trigger] rs[i] matches Report::FileTouched { path } && path@ == p)
}

/// The reports hold the advisory note that the platform has no
/// permission modes, for `p`.
pub open spec fn has_mode_unsupported(rs: Seq<Report>, p: Seq<u8>) -> bool {
    exists|i: int|
        0 <= i < rs.len() && (#[trigger] rs[i] matches Report::ModeUnsupported { path } && path@
            == p)
}

/// The reports hold a success line for tool `t`.
pub open spec fn has_tool_succeeded(rs: Seq<Report>, t: Tool) -> bool {
    exists|i: int|
        0 <= i < rs.len() && (#[trigger] rs[i] matches Report::ToolSucceeded { tool } && tool == t)
}

/// The reports hold a failure line for tool `t`.
pub open spec fn has_tool_failed(rs: Seq<Report>, t: Tool) -> bool {
    exists|i: int|
        0 <= i < rs.len() && (#[trigger] rs[i] matches Report::ToolFailed { tool, .. } && tool == t)
}

/// The reports hold a not-found line for tool `t`.
pub open spec fn has_tool_not_found(rs: Seq<Report>, t: Tool) -> bool {
    exists|i: int|
        0 <= i < rs.len() && (#[trigger] rs[i] matches Report::ToolNotFound { tool } && tool == t)
}

/// The reports hold the refusal that scaffolding was asked of a file.
pub open spec fn has_init_refused(rs: Seq<Report>, p: Seq<u8>) -> bool {
    exists|i: int|
        0 <= i < rs.len() && (#[trigger] rs[i] matches Report::InitRefusedFile { path } && path@
            == p)
}

} // verus!
