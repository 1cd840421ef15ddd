//! Confirming a candidate with the version-control tool's own answer.

use vstd::prelude::*;
use crate::error::{PipelineError, ValidationFailure};

verus! {

/// What a finished run of the tool reported.
#[derive(Clone, Debug)]
pub struct ToolOutput {
    /// The exit status was success.
    pub success: bool,
    pub stdout: String,
    pub stderr: String,
}

/// The characters of Unicode's White_Space property, as `char::is_whitespace`
/// recognises them.
pub open spec fn is_white_space(c: char) -> bool {
    let u = c as u32;
    ||| 0x09 <= u <= 0x0d
    ||| u == 0x20 || u == 0x85 || u == 0xa0 || u == 0x1680
    ||| 0x2000 <= u <= 0x200a
    ||| u == 0x2028 || u == 0x2029 || u == 0x202f || u == 0x205f || u == 0x3000
}

/// `s` without its leading white space.
pub open spec fn trim_start_of(s: Seq<char>) -> Seq<char>
    decreases s.len(),
{
    if s.len() > 0 && is_white_space(s[0]) {
        trim_start_of(s.drop_first())
    } else {
        s
    }
}

/// `s` without its trailing white space.
pub open spec fn trim_end_of(s: Seq<char>) -> Seq<char>
    decreases s.len(),
{
    if s.len() > 0 && is_white_space(s.last()) {
        trim_end_of(s.drop_last())
    } else {
        s
    }
}

/// `s` without its leading and trailing white space.
pub open spec fn trim_of(s: Seq<char>) -> Seq<char> {
    trim_end_of(trim_start_of(s))
}

/// Relies on `str::trim`: the argument without the leading and trailing
/// characters for which `char::is_whitespace` holds (Unicode White_Space).
#[verifier::external_body]
pub(crate) fn trimmed(s: &String) -> (r: String)
    ensures
        r@ == trim_of(s@),
{
    s.trim().to_owned()
}

/// The tool's verdict on a candidate: run at all, exited with success, and
/// answered exactly `true` once trimmed.
pub open spec fn confirms_bare(outcome: Result<ToolOutput, String>) -> bool {
    &&& outcome is Ok
    &&& outcome->Ok_0.success
    &&& trim_of(outcome->Ok_0.stdout@) == "true"@
}

/// Whether a trimmed answer of the tool is exactly `true`.
pub fn is_true_answer(answer: &String) -> (r: bool)
    ensures
        r == (answer@ == "true"@),
{
    let yes = "true".to_owned();
    proof {
        reveal_strlit("true");
    }
    *answer == yes
}

/// Turns the tool's answer to "is `path` a bare repository?" into a verdict.
/// Any answer but a successful, trimmed `true` fails, naming the path.
pub fn validate_bare_repo_with_git(path: &String, outcome: &Result<ToolOutput, String>) -> (r: Result<(), PipelineError>)
    ensures
        r is Ok <==> confirms_bare(*outcome),
        outcome is Err ==> r == Err::<(), PipelineError>(PipelineError::Validation {
            path: *path,
            reason: ValidationFailure::Launch(outcome->Err_0),
        }),
        outcome is Ok && !outcome->Ok_0.success ==> r == Err::<(), PipelineError>(PipelineError::Validation {
            path: *path,
            reason: ValidationFailure::ExitStatus,
        }),
        outcome is Ok && outcome->Ok_0.success && !confirms_bare(*outcome) ==> (exists|answer: String|
            answer@ == trim_of(outcome->Ok_0.stdout@) && r == Err::<(), PipelineError>(PipelineError::Validation {
                path: *path,
                reason: ValidationFailure::Answer(answer),
            })),
{
    match outcome {
        Err(e) => Err(PipelineError::Validation { path: path.clone(), reason: ValidationFailure::Launch(e.clone()) }),
        Ok(o) => {
            if !o.success {
                return Err(PipelineError::Validation { path: path.clone(), reason: ValidationFailure::ExitStatus });
            }
            let answer = trimmed(&o.stdout);
            if is_true_answer(&answer) {
                Ok(())
            } else {
                Err(PipelineError::Validation { path: path.clone(), reason: ValidationFailure::Answer(answer) })
            }
        },
    }
}

} // verus!
