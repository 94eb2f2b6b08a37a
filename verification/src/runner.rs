//! What the sandboxed runner is told to execute: the per-child memory cap
//! and the exact command lines of the three verbs.
use vstd::prelude::*;

verus! {

use vstd::string::StringExecFns;

use crate::decimal::dec_seq;
use crate::decimal::push_u64;

/// Relies on `sys_info::mem_info`: the machine's total physical memory in
/// kilobytes. What it reports depends on the machine alone, so nothing is
/// promised of the value.
#[verifier::external_body]
pub fn total_memory_kb() -> Option<u64> {
    match sys_info::mem_info() {
        Ok(m) => Some(m.total),
        Err(_) => None,
    }
}

/// The per-child address-space ceiling: total physical memory divided by the
/// number of logical processors, in kilobytes.
pub fn memory_limit_kb(total_kb: u64, cpus: u64) -> (r: u64)
    requires
        cpus > 0,
    ensures
        r == total_kb as int / cpus as int,
{
    total_kb / cpus
}

/// The shell command of the primary verb: apply the address-space limit,
/// then run the interpreter on the scratch file.
pub open spec fn py_command_spec(mem_kb: int, path: Seq<char>) -> Seq<char> {
    "ulimit -v "@ + dec_seq(mem_kb) + "; python3 "@ + path
}

/// Builds the shell command of the primary verb.
pub fn py_command(mem_kb: u64, path: &str) -> (r: String)
    ensures
        r@ == py_command_spec(mem_kb as int, path@),
{
    let mut out = String::from_str("ulimit -v ");
    push_u64(&mut out, mem_kb);
    out.append("; python3 ");
    out.append(path);
    proof {
        assert(out@ =~= py_command_spec(mem_kb as int, path@));
    }
    out
}

/// The bootstrap of the polyglot verb: put the evaluator directory on the
/// loader path, then hand the scratch file to the language's evaluator and
/// print its JSON-encoded result.
pub open spec fn eval_command_spec(crate_dir: Seq<char>, lang: Seq<char>, path: Seq<char>) -> Seq<
    char,
> {
    "import sys; sys.path.append('"@ + crate_dir + "/MultiPL-E/evaluation/src'); import json; import eval_"@
        + lang + "; print(json.dumps(eval_"@ + lang + ".eval_script('"@ + path + "')))"@
}

/// Builds the bootstrap of the polyglot verb.
pub fn eval_command(crate_dir: &str, lang: &str, path: &str) -> (r: String)
    ensures
        r@ == eval_command_spec(crate_dir@, lang@, path@),
{
    let mut out = String::from_str("import sys; sys.path.append('");
    out.append(crate_dir);
    out.append("/MultiPL-E/evaluation/src'); import json; import eval_");
    out.append(lang);
    out.append("; print(json.dumps(eval_");
    out.append(lang);
    out.append(".eval_script('");
    out.append(path);
    out.append("')))");
    proof {
        assert(out@ =~= eval_command_spec(crate_dir@, lang@, path@));
    }
    out
}

} // verus!
