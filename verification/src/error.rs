//! Structured failures of the scan pipeline and of the patch planner.
//!
//! A parse failure carries the offending file's path, its full text and,
//! where the fault is a malformed value, the byte span of that value, so a
//! caller can point at the exact characters without re-reading anything.

use vstd::prelude::*;

verus! {

/// A byte range within a definition file's text.
#[derive(Clone, Copy, Debug, PartialEq, Eq, Structural)]
pub struct Span {
    /// Byte offset of the first offending byte.
    pub start: usize,
    /// Number of offending bytes.
    pub len: usize,
}

/// Why a single definition file failed to parse.
#[derive(Clone, Copy, Debug, PartialEq, Eq, Structural)]
pub enum ParseIssue {
    /// `steam_id` or `name` never appeared with a usable value.
    MissingField,
    /// A `steam_id` value was not an unsigned integer; the span covers it.
    InvalidId(Span),
}

impl ParseIssue {
    /// Human-readable description, matching the historical wording.
    pub fn message(&self) -> (r: &'static str)
        ensures
            *self is InvalidId ==> r@ == "Wrong number format"@,
            *self is MissingField ==> r@ == "Cannot find 'steam_id' or 'name'"@,
    {
        match self {
            ParseIssue::InvalidId(_) => "Wrong number format",
            ParseIssue::MissingField => "Cannot find 'steam_id' or 'name'",
        }
    }
}

/// A parse failure together with the context needed to display it:
/// the file, its complete text, and the span of the bad token if one
/// can be pinpointed.
#[derive(Debug)]
pub struct ParseDiagnostic {
    /// Path of the definition file that failed.
    pub path: Vec<u8>,
    /// The file's full text.
    pub text: Vec<u8>,
    /// What went wrong; `InvalidId` carries the offending byte span.
    pub issue: ParseIssue,
}

/// Errors when generating the DLC list.
#[derive(Debug)]
pub enum GenerateError {
    /// Neither DLC folder candidate exists under the target.
    DlcFolderNotExists(Vec<u8>),
    /// No explicit output was given and the target matches no known game.
    InvalidOutput,
    /// The DLC folder itself could not be enumerated.
    ReadDlcFolderFailed(Vec<u8>),
    /// A definition file could not be read; this aborts the whole run.
    ReadDlcFileFailed(Vec<u8>),
    /// A definition file was readable but malformed.
    ParseDlcFailed(ParseDiagnostic),
    /// The output file could not be created or written.
    WriteOutputFileFailed(Vec<u8>),
}

impl GenerateError {
    /// Human-readable description of the failure class.
    pub fn message(&self) -> (r: &'static str) {
        match self {
            GenerateError::DlcFolderNotExists(_) => "Failed to find absolute path of the DLC folder",
            GenerateError::InvalidOutput => "Invalid output DLC.txt file",
            GenerateError::ReadDlcFolderFailed(_) => "Failed to read DLC folder",
            GenerateError::ReadDlcFileFailed(_) => "Failed to read DLC file",
            GenerateError::ParseDlcFailed(_) => "Failed to parse the DLC file",
            GenerateError::WriteOutputFileFailed(_) => "Failed to write output",
        }
    }
}

/// Errors when planning or performing the library patch.
#[derive(Debug)]
pub enum PatchError {
    /// The target folder matches no recognized game.
    GameNotRecognized,
    /// The library file the plan points at does not exist.
    LibNotExists(Vec<u8>),
}

impl PatchError {
    /// Human-readable description of the failure.
    pub fn message(&self) -> (r: &'static str) {
        match self {
            PatchError::GameNotRecognized => "Invalid game",
            PatchError::LibNotExists(_) =>
                "Failed to find absolute path of the libsteam_api.dylib file",
        }
    }
}

} // verus!
