use codeexec::pidpool::PidPool;
use codeexec::runner::eval_command;
use codeexec::runner::memory_limit_kb;
use codeexec::runner::py_command;
use codeexec::scratch::cov_file_path;
use codeexec::scratch::scratch_path;
use codeexec::scratch::scratch_root;
use codeexec::scratch::ScratchAllocator;
use codeexec::verbs::invalid_input_body;
use codeexec::verbs::lang_or_default;
use codeexec::verbs::testhash_rejection_body;
use codeexec::verbs::coverage_invalid_body;
use codeexec::verbs::any_exec_gate;
use codeexec::verbs::json_resp_or_default;
use codeexec::verbs::stdin_or_default;
use codeexec::verbs::JsonInput;

#[test]
fn scratch_ids_are_distinct() {
    let mut alloc = ScratchAllocator::new();
    let a = alloc.allocate().expect("counter not exhausted");
    let b = alloc.allocate().expect("counter not exhausted");
    let c = alloc.allocate().expect("counter not exhausted");
    assert_ne!(a, b);
    assert_ne!(b, c);
    assert_ne!(a, c);
}

#[test]
fn scratch_paths_follow_the_layout() {
    assert_eq!(scratch_root(), "/dev/shm/codeexec");
    let p = scratch_path(scratch_root(), 7, "py");
    assert_eq!(p, "/dev/shm/codeexec/7.py");
    assert_eq!(cov_file_path(&p), "/dev/shm/codeexec/7.py.cov");
}

#[test]
fn memory_limit_divides_by_cpus() {
    assert_eq!(memory_limit_kb(16_000_000, 4), 4_000_000);
    assert_eq!(memory_limit_kb(7, 2), 3);
}

#[test]
fn py_command_applies_the_limit_then_runs() {
    let cmd = py_command(4_000_000, "/dev/shm/codeexec/0.py");
    assert_eq!(cmd, "ulimit -v 4000000; python3 /dev/shm/codeexec/0.py");
}

#[test]
fn eval_command_names_the_language_evaluator() {
    let cmd = eval_command("/srv/service", "lua", "/dev/shm/codeexec/3.lua");
    assert_eq!(
        cmd,
        "import sys; sys.path.append('/srv/service/MultiPL-E/evaluation/src'); \
         import json; import eval_lua; \
         print(json.dumps(eval_lua.eval_script('/dev/shm/codeexec/3.lua')))"
    );
}

#[test]
fn fixed_bodies_match_the_protocol() {
    assert_eq!(invalid_input_body(), "1\nInvalid JSON input");
    assert_eq!(coverage_invalid_body(), "-1");
    assert_eq!(
        testhash_rejection_body(),
        "-1\nTesthash is not supported for this endpoint"
    );
}

#[test]
fn polyglot_verb_rejects_test_fixtures() {
    let mut input = JsonInput {
        code: String::from("print(1)"),
        timeout: 5,
        stdin: None,
        lang: Some(String::from("lua")),
        json_resp: None,
        testhash: Some((String::from("org/repo"), String::from("deadbeef"))),
    };
    let rejection = any_exec_gate(&input).expect("fixture must be rejected");
    assert_eq!(rejection, "-1\nTesthash is not supported for this endpoint");
    input.testhash = None;
    assert!(any_exec_gate(&input).is_none());
}

#[test]
fn lang_defaults_to_py() {
    assert_eq!(lang_or_default(None), "py");
    assert_eq!(lang_or_default(Some(String::from("rs"))), "rs");
}

#[test]
fn request_defaults_are_plain_shape_and_empty_stdin() {
    assert!(!json_resp_or_default(None));
    assert!(json_resp_or_default(Some(true)));
    assert_eq!(stdin_or_default(None), "");
    assert_eq!(stdin_or_default(Some(String::from("hi"))), "hi");
}

#[test]
fn overdue_children_are_taken_and_live_ones_kept() {
    let mut pool = PidPool::new();
    pool.record_spawn(100, 0, 1000);
    pool.record_spawn(200, 0, 60_000);
    pool.record_spawn(300, 500, 1000);
    // at t=2000ms: 100 is overdue (0+1000), 300 is overdue (500+1000), 200 is not
    let due = pool.take_due(2000);
    assert_eq!(due, vec![100, 300]);
    // the second sweep finds nothing new
    let due2 = pool.take_due(2000);
    assert!(due2.is_empty());
}

#[test]
fn deadline_is_strict() {
    let mut pool = PidPool::new();
    pool.record_spawn(100, 0, 1000);
    // exactly at the limit the child is not yet due
    let due = pool.take_due(1000);
    assert!(due.is_empty());
    let due = pool.take_due(1001);
    assert_eq!(due, vec![100]);
}
