//! Execution verdicts: how the captured outcome of one sandboxed child
//! becomes the pair `(status, payload)` and its two rendered shapes.
use vstd::prelude::*;

verus! {

use vstd::string::StringExecFns;

use crate::decimal::int_seq;
use crate::decimal::push_i8;
use crate::jsonfmt::json_verdict;
use crate::jsonfmt::render_json_verdict;
use crate::text::lossy_of;
use crate::text::lossy_string;
use crate::text::push_char;

/// What one child process left behind: its exit code, if it exited normally,
/// and the captured output streams.
pub struct ProgramOutput {
    /// Exit code; absent when the child was ended by a signal.
    pub code: Option<i32>,
    /// Captured standard output.
    pub stdout: Vec<u8>,
    /// Captured standard error.
    pub stderr: Vec<u8>,
}

/// Why a run produced no `ProgramOutput`.
pub enum ExecError {
    /// Spawning or talking to the child failed; the operating system's
    /// description of the failure.
    IoError(String),
    /// Captured output could not be decoded; the decoder's description.
    Utf8Error(String),
    /// The wall-clock deadline passed before the child exited.
    Timeout,
}

/// The outcome of one run.
pub type ExecResult = Result<ProgramOutput, ExecError>;

/// The status of the verdict for an outcome: 0 exactly when the child exited
/// with code 0, and 1 for every failure.
pub open spec fn verdict_status(r: ExecResult) -> int {
    match r {
        Ok(o) => if o.code == Some(0i32) {
            0
        } else {
            1
        },
        Err(_) => 1,
    }
}

/// The payload of the verdict for an outcome: standard output on success,
/// standard error on a non-zero exit, and a description otherwise.
pub open spec fn verdict_payload(r: ExecResult) -> Seq<char> {
    match r {
        Ok(o) => if o.code == Some(0i32) {
            lossy_of(o.stdout@)
        } else {
            lossy_of(o.stderr@)
        },
        Err(ExecError::IoError(m)) => m@,
        Err(ExecError::Utf8Error(m)) => m@,
        Err(ExecError::Timeout) => "Timeout"@,
    }
}

/// Forms the verdict pair for one outcome. The status is 0 exactly when the
/// child exited with code 0; a timeout yields status 1 with the literal
/// `Timeout` payload.
pub fn out_to_res_helper(output: ExecResult) -> (r: (i8, String))
    ensures
        r.0 as int == verdict_status(output),
        r.1@ == verdict_payload(output),
        r.0 == 0i8 <==> (output matches Ok(o) && o.code == Some(0i32)),
        output matches Err(e) && e is Timeout ==> r.0 == 1i8 && r.1@ == "Timeout"@,
        (output matches Ok(o) && o.code == Some(0i32) && o.stdout@.len() == 0) ==> r.1@.len()
            == 0,
{
    proof {
        assert(vstd::utf8::valid_utf8(Seq::<u8>::empty()));
        assert(vstd::utf8::decode_utf8(Seq::<u8>::empty()) =~= Seq::<char>::empty());
    }
    match output {
        Ok(o) => {
            if let Some(0) = o.code {
                (0, lossy_string(o.stdout.as_slice()))
            } else {
                (1, lossy_string(o.stderr.as_slice()))
            }
        },
        Err(ExecError::IoError(m)) => (1, m),
        Err(ExecError::Utf8Error(m)) => (1, m),
        Err(ExecError::Timeout) => (1, String::from_str("Timeout")),
    }
}

/// The plain two-line verdict body: the status, a newline, the payload.
pub open spec fn plain_verdict(status: int, payload: Seq<char>) -> Seq<char> {
    int_seq(status) + seq!['\n'] + payload
}

/// Renders the plain two-line verdict body for one outcome.
pub fn out_to_res(output: ExecResult) -> (r: String)
    ensures
        r@ == plain_verdict(verdict_status(output), verdict_payload(output)),
{
    let (status, payload) = out_to_res_helper(output);
    let mut out = String::new();
    push_i8(&mut out, status);
    push_char(&mut out, '\n');
    out.append(payload.as_str());
    proof {
        assert(out@ =~= plain_verdict(verdict_status(output), verdict_payload(output)));
    }
    out
}

/// Renders the structured JSON verdict body for one outcome.
pub fn out_to_res_json(output: ExecResult) -> (r: String)
    ensures
        r@ == json_verdict(verdict_status(output), verdict_payload(output)),
{
    let (status, payload) = out_to_res_helper(output);
    render_json_verdict(status, payload.as_str())
}

} // verus!
