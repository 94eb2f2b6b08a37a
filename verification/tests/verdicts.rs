use codeexec::jsonfmt::render_coverage_body;
use codeexec::jsonfmt::render_json_verdict;
use codeexec::verdict::out_to_res;
use codeexec::verdict::out_to_res_helper;
use codeexec::verdict::out_to_res_json;
use codeexec::verdict::ExecError;
use codeexec::verdict::ProgramOutput;
use codeexec::verbs::render_exec_response;

fn ok_output(code: i32, stdout: &[u8], stderr: &[u8]) -> Result<ProgramOutput, ExecError> {
    Ok(ProgramOutput {
        code: Some(code),
        stdout: stdout.to_vec(),
        stderr: stderr.to_vec(),
    })
}

#[test]
fn exit_zero_answers_stdout() {
    // the primary scenario: print(2+2) exits 0 with "4\n" on stdout
    let body = out_to_res(ok_output(0, b"4\n", b""));
    assert_eq!(body, "0\n4\n");
}

#[test]
fn stdin_echo_scenario() {
    // echoed stdin comes back as the payload
    let body = out_to_res(ok_output(0, b"hi\n", b""));
    assert_eq!(body, "0\nhi\n");
}

#[test]
fn timeout_gives_literal_timeout() {
    let body = out_to_res(Err(ExecError::Timeout));
    assert_eq!(body, "1\nTimeout");
}

#[test]
fn nonzero_exit_answers_stderr() {
    let body = out_to_res(ok_output(
        1,
        b"",
        b"ZeroDivisionError: division by zero\n",
    ));
    assert!(body.starts_with("1\n"));
    assert!(body.contains("ZeroDivisionError"));
}

#[test]
fn missing_exit_code_is_failure() {
    let body = out_to_res_helper(Ok(ProgramOutput {
        code: None,
        stdout: b"out".to_vec(),
        stderr: b"err".to_vec(),
    }));
    assert_eq!(body.0, 1);
    assert_eq!(body.1, "err");
}

#[test]
fn empty_stdout_is_empty_payload() {
    // empty code runs to a 0 exit with nothing on stdout
    let (status, payload) = out_to_res_helper(ok_output(0, b"", b""));
    assert_eq!(status, 0);
    assert_eq!(payload, "");
}

#[test]
fn decode_error_message_is_payload() {
    let body = out_to_res(Err(ExecError::Utf8Error(String::from(
        "invalid utf-8 sequence",
    ))));
    assert_eq!(body, "1\ninvalid utf-8 sequence");
}

#[test]
fn io_error_message_is_payload() {
    let body = out_to_res(Err(ExecError::IoError(String::from("spawn failed"))));
    assert_eq!(body, "1\nspawn failed");
}

#[test]
fn invalid_utf8_output_is_replaced_not_dropped() {
    let (status, payload) = out_to_res_helper(ok_output(0, &[0xff, 0x41], b""));
    assert_eq!(status, 0);
    assert_eq!(payload, "\u{FFFD}A");
}

#[test]
fn json_shape_parses_with_status_zero() {
    let body = out_to_res_json(ok_output(0, b"", b""));
    let v: serde_json::Value = serde_json::from_str(&body).expect("verdict must be JSON");
    assert_eq!(v["status"], serde_json::Value::from(0));
    assert_eq!(v["output"], serde_json::Value::from(""));
}

#[test]
fn json_shape_escapes_payload() {
    let body = render_json_verdict(1, "a\"b\\c\nd\te\u{1}");
    assert_eq!(
        body,
        "{\"status\":1,\"output\":\"a\\\"b\\\\c\\nd\\te\\u0001\"}"
    );
    let v: serde_json::Value = serde_json::from_str(&body).expect("escaped body must be JSON");
    assert_eq!(v["output"], serde_json::Value::from("a\"b\\c\nd\te\u{1}"));
}

#[test]
fn both_shapes_from_one_outcome() {
    let plain = render_exec_response(ok_output(0, b"4\n", b""), false);
    let json = render_exec_response(ok_output(0, b"4\n", b""), true);
    assert_eq!(plain, "0\n4\n");
    assert_eq!(json, "{\"status\":0,\"output\":\"4\\n\"}");
}

#[test]
fn coverage_body_shape() {
    assert_eq!(render_coverage_body(100), "{\"coverage\":100}");
    assert_eq!(render_coverage_body(-1), "{\"coverage\":-1}");
    assert_eq!(render_coverage_body(0), "{\"coverage\":0}");
}
