//! The ways a run can fail. Every failure ends the run where it happens and
//! carries the offending path with the diagnostic text that explains it.

use vstd::prelude::*;

verus! {

/// Why the tool did not confirm a candidate as a bare repository.
#[derive(Clone, Debug, PartialEq, Eq)]
pub enum ValidationFailure {
    /// The tool could not be run; the text says why.
    Launch(String),
    /// The tool ran and exited with a failure status.
    ExitStatus,
    /// The tool succeeded but its trimmed answer, given here, was not `true`.
    Answer(String),
}

/// A fatal failure of the pipeline.
#[derive(Clone, Debug, PartialEq, Eq)]
pub enum PipelineError {
    /// A root or a subdirectory could not be read.
    Access { path: String, detail: String },
    /// A directory entry had an unexpected shape (a name that is no name).
    Shape { path: String },
    /// The tool disagreed with the shape of a candidate.
    Validation { path: String, reason: ValidationFailure },
    /// Cloning a confirmed repository failed; the tool's diagnostics are kept.
    Clone { path: String, diagnostics: String },
    /// The identifier generated for a clone is already taken.
    Collision { path: String },
    /// The recovery area held something unexpected while it was triaged.
    Classification { path: String, detail: String },
    /// No source of a fingerprint could be read.
    Fingerprint { path: String, detail: String },
}

} // verus!
