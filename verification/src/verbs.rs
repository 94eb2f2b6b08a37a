//! The three request verbs' decisions: parsed request fields, the fixed
//! error bodies, appending a resolved test fixture, choosing the verdict
//! shape, and the coverage verb's status pipeline. The transport parses the
//! request body and performs the I/O; every decision about what to run and
//! what to answer is made here.
use vstd::prelude::*;

verus! {

use vstd::string::StringExecFns;
use vstd::utf8::decode_utf8;
use vstd::utf8::valid_utf8;

use crate::covparse::coverage_of;
use crate::covparse::parse_coverage_report;
use crate::jsonfmt::json_verdict;
use crate::text::utf8_string;
use crate::verdict::plain_verdict;
use crate::verdict::out_to_res;
use crate::verdict::out_to_res_json;
use crate::verdict::verdict_payload;
use crate::verdict::verdict_status;
use crate::verdict::ExecResult;

/// One parsed request: the fields every verb reads. The transport fills it
/// from the request's JSON body.
pub struct JsonInput {
    /// Source to execute.
    pub code: String,
    /// Wall-clock deadline for the evaluation, in seconds.
    pub timeout: u64,
    /// Bytes to feed the child's standard input; none means empty.
    pub stdin: Option<String>,
    /// Language tag for the polyglot verb; none means the primary language.
    pub lang: Option<String>,
    /// Whether to answer with the structured JSON shape.
    pub json_resp: Option<bool>,
    /// A repository and hash naming a test fixture to append to the code.
    pub testhash: Option<(String, String)>,
}

/// The body answered when the request's JSON cannot be parsed.
pub fn invalid_input_body() -> (r: String)
    ensures
        r@ == "1\nInvalid JSON input"@,
{
    String::from_str("1\nInvalid JSON input")
}

/// The body the coverage verb answers when the request's JSON cannot be
/// parsed.
pub fn coverage_invalid_body() -> (r: String)
    ensures
        r@ == "-1"@,
{
    String::from_str("-1")
}

/// The body rejecting a test fixture on the polyglot verb, where fixtures
/// are not defined.
pub fn testhash_rejection_body() -> (r: String)
    ensures
        r@ == "-1\nTesthash is not supported for this endpoint"@,
{
    String::from_str("-1\nTesthash is not supported for this endpoint")
}

/// Gates the polyglot verb: a request that names a test fixture is turned
/// away with the fixed rejection body, as fixtures are only defined for the
/// primary language.
pub fn any_exec_gate(input: &JsonInput) -> (r: Option<String>)
    ensures
        r is Some <==> input.testhash is Some,
        r matches Some(b) ==> b@ == "-1\nTesthash is not supported for this endpoint"@,
{
    if input.testhash.is_some() {
        Some(testhash_rejection_body())
    } else {
        None
    }
}

/// The language a request asks for, with the primary language as default.
pub fn lang_or_default(lang: Option<String>) -> (r: String)
    ensures
        lang is None ==> r@ == "py"@,
        lang matches Some(l) ==> r@ == l@,
{
    match lang {
        Some(l) => l,
        None => String::from_str("py"),
    }
}

/// The response shape a request asks for: the plain two-line form unless
/// the structured shape was requested.
pub fn json_resp_or_default(json_resp: Option<bool>) -> (r: bool)
    ensures
        json_resp is None ==> !r,
        json_resp matches Some(b) ==> r == b,
{
    match json_resp {
        Some(b) => b,
        None => false,
    }
}

/// The bytes a request feeds the child's standard input: empty unless given.
pub fn stdin_or_default(stdin: Option<String>) -> (r: String)
    ensures
        stdin is None ==> r@ == Seq::<char>::empty(),
        stdin matches Some(s) ==> r@ == s@,
{
    match stdin {
        Some(s) => s,
        None => String::new(),
    }
}

/// The code with a resolved test fixture appended after a blank line; code
/// for which no fixture was found runs unmodified.
pub fn augment_code(code: String, test: Option<String>) -> (r: String)
    ensures
        test is None ==> r@ == code@,
        test matches Some(t) ==> r@ == code@ + "\n\n"@ + t@,
{
    match test {
        None => code,
        Some(t) => {
            let ghost orig = code@;
            let mut out = code;
            out.append("\n\n");
            out.append(t.as_str());
            proof {
                assert(out@ =~= orig + "\n\n"@ + t@);
            }
            out
        },
    }
}

/// The body of the primary verb's answer for one outcome, in the requested
/// shape.
pub open spec fn exec_response_spec(output: ExecResult, json_resp: bool) -> Seq<char> {
    if json_resp {
        json_verdict(verdict_status(output), verdict_payload(output))
    } else {
        plain_verdict(verdict_status(output), verdict_payload(output))
    }
}

/// Renders one outcome in the requested shape.
pub fn render_exec_response(output: ExecResult, json_resp: bool) -> (r: String)
    ensures
        r@ == exec_response_spec(output, json_resp),
{
    if json_resp {
        out_to_res_json(output)
    } else {
        out_to_res(output)
    }
}

/// Identical requests produce identical bodies, whatever scratch identifiers
/// carried them: the answer is a function of the run's outcome and the
/// requested shape alone, and two runs of deterministic code from the same
/// code and stdin see the same outcome.
pub proof fn lemma_response_ignores_scratch(
    o1: ExecResult,
    o2: ExecResult,
    json_resp: bool,
    id1: u64,
    id2: u64,
)
    requires
        o1 == o2,
    ensures
        exec_response_spec(o1, json_resp) == exec_response_spec(o2, json_resp),
{
}

/// Whether a run finished with exit code 0.
pub open spec fn run_succeeded(r: ExecResult) -> bool {
    r matches Ok(o) && o.code == Some(0i32)
}

/// Tells whether the first coverage pass allows the report pass to run.
pub fn coverage_first_ok(first: &ExecResult) -> (r: bool)
    ensures
        r == run_succeeded(*first),
{
    match first {
        Ok(o) => match o.code {
            Some(c) => c == 0,
            None => false,
        },
        Err(_) => false,
    }
}

/// The percentage the report pass yields: the parsed totals row of its
/// standard output, or -1 when the pass failed, its output was not text, or
/// the report did not parse.
pub open spec fn coverage_value(second: ExecResult) -> int {
    match second {
        Ok(o) => if o.code == Some(0i32) {
            if valid_utf8(o.stdout@) {
                match coverage_of(decode_utf8(o.stdout@)) {
                    Some(v) => v as int,
                    None => -1,
                }
            } else {
                -1
            }
        } else {
            -1
        },
        Err(_) => -1,
    }
}

/// Extracts the percentage from the report pass's outcome.
pub fn coverage_report_value(second: ExecResult) -> (r: i8)
    ensures
        r as int == coverage_value(second),
{
    match second {
        Ok(o) => {
            let code_ok = match o.code {
                Some(c) => c == 0,
                None => false,
            };
            if !code_ok {
                return -1;
            }
            match utf8_string(o.stdout) {
                Some(report) => match parse_coverage_report(report.as_str()) {
                    Some(v) => v,
                    None => -1,
                },
                None => -1,
            }
        },
        Err(_) => -1,
    }
}

/// The coverage verb's percentage for the two passes: -1 unless the
/// instrumented run succeeded, else whatever its report yields.
pub fn coverage_outcome(first: ExecResult, second: Option<ExecResult>) -> (r: i8)
    ensures
        !run_succeeded(first) ==> r == -1,
        run_succeeded(first) && second is None ==> r == -1,
        run_succeeded(first) ==> (second matches Some(s) ==> r as int == coverage_value(s)),
{
    if !coverage_first_ok(&first) {
        return -1;
    }
    match second {
        Some(s) => coverage_report_value(s),
        None => -1,
    }
}

} // verus!
