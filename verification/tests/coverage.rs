use codeexec::covparse::parse_coverage_report;
use codeexec::decimal::parse_i8;
use codeexec::decimal::u64_to_string;
use codeexec::verbs::coverage_outcome;
use codeexec::verdict::ExecError;
use codeexec::verdict::ProgramOutput;

fn report_100() -> String {
    String::from(
        "Name    Stmts   Miss  Cover\n\
         ---------------------------\n\
         f.py        2      0   100%\n\
         ---------------------------\n\
         TOTAL       2      0   100%\n",
    )
}

fn ok_with_stdout(stdout: &[u8]) -> Result<ProgramOutput, ExecError> {
    Ok(ProgramOutput {
        code: Some(0),
        stdout: stdout.to_vec(),
        stderr: Vec::new(),
    })
}

#[test]
fn full_coverage_parses_to_100() {
    assert_eq!(parse_coverage_report(&report_100()), Some(100));
}

#[test]
fn partial_coverage_parses_exactly() {
    let report = "Name    Stmts   Miss  Cover\n\
                  ---------------------------\n\
                  g.py        8      3    63%\n";
    assert_eq!(parse_coverage_report(report), Some(63));
}

#[test]
fn missing_divider_fails_to_parse() {
    assert_eq!(parse_coverage_report("TOTAL 2 0 100%\n"), None);
}

#[test]
fn empty_report_fails_to_parse() {
    assert_eq!(parse_coverage_report(""), None);
}

#[test]
fn blank_lines_after_divider_are_skipped() {
    let report = "---------\n\n\nx.py 4 0 100%\n";
    assert_eq!(parse_coverage_report(report), Some(100));
}

#[test]
fn divider_with_no_totals_row_fails() {
    assert_eq!(parse_coverage_report("---------\n"), None);
}

#[test]
fn short_totals_row_fails() {
    assert_eq!(parse_coverage_report("---------\nx.py 4 0\n"), None);
}

#[test]
fn coverage_pipeline_yields_100() {
    let first = ok_with_stdout(b"");
    let second = ok_with_stdout(report_100().as_bytes());
    assert_eq!(coverage_outcome(first, Some(second)), 100);
}

#[test]
fn failed_instrumented_run_is_minus_one() {
    let first = Ok(ProgramOutput {
        code: Some(1),
        stdout: Vec::new(),
        stderr: b"Traceback".to_vec(),
    });
    assert_eq!(coverage_outcome(first, None), -1);
}

#[test]
fn timed_out_instrumented_run_is_minus_one() {
    assert_eq!(coverage_outcome(Err(ExecError::Timeout), None), -1);
}

#[test]
fn non_utf8_report_is_minus_one() {
    let first = ok_with_stdout(b"");
    let second = ok_with_stdout(&[0xff, 0xfe, 0x00]);
    assert_eq!(coverage_outcome(first, Some(second)), -1);
}

#[test]
fn failed_report_pass_is_minus_one() {
    let first = ok_with_stdout(b"");
    let second = Ok(ProgramOutput {
        code: Some(2),
        stdout: report_100().into_bytes(),
        stderr: Vec::new(),
    });
    assert_eq!(coverage_outcome(first, Some(second)), -1);
}

#[test]
fn percent_signs_are_trimmed_before_parsing() {
    assert_eq!(parse_coverage_report("---------\na b c 63%%\n"), Some(63));
}

#[test]
fn totals_field_parses_like_rust() {
    assert_eq!(parse_i8(&"100".chars().collect()), Some(100));
    assert_eq!(parse_i8(&"-128".chars().collect()), Some(-128));
    assert_eq!(parse_i8(&"+5".chars().collect()), Some(5));
    assert_eq!(parse_i8(&"005".chars().collect()), Some(5));
    assert_eq!(parse_i8(&"128".chars().collect()), None);
    assert_eq!(parse_i8(&"12a".chars().collect()), None);
    assert_eq!(parse_i8(&"".chars().collect()), None);
    assert_eq!(parse_i8(&"-".chars().collect()), None);
    assert_eq!(parse_i8(&"9999999999".chars().collect()), None);
}

#[test]
fn decimal_rendering_is_exact() {
    assert_eq!(u64_to_string(0), "0");
    assert_eq!(u64_to_string(1234), "1234");
    assert_eq!(u64_to_string(u64::MAX), "18446744073709551615");
}
