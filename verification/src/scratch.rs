//! The scratch-file allocator: identifiers are minted from a counter that
//! never repeats within one process lifetime, and a path is the identifier
//! joined to the scratch root and an extension.
use vstd::prelude::*;

verus! {

use vstd::string::StringExecFns;

use crate::decimal::dec_seq;
use crate::decimal::push_u64;
use crate::text::push_char;

/// Mints scratch-file identifiers. The set of identifiers already handed out
/// is carried alongside so that freshness is part of the allocator's
/// contract.
pub struct ScratchAllocator {
    next: u64,
    issued: Ghost<Set<u64>>,
}

impl ScratchAllocator {
    /// Every issued identifier lies below the counter.
    pub closed spec fn wf(&self) -> bool {
        forall|i: u64| self.issued@.contains(i) ==> i < self.next
    }

    /// The identifiers handed out so far.
    pub closed spec fn issued_ids(&self) -> Set<u64> {
        self.issued@
    }

    /// The identifier the next allocation will return.
    pub closed spec fn next_id(&self) -> u64 {
        self.next
    }

    /// A fresh allocator that has issued nothing.
    pub fn new() -> (r: Self)
        ensures
            r.wf(),
            r.issued_ids() == Set::<u64>::empty(),
            r.next_id() == 0,
    {
        ScratchAllocator { next: 0, issued: Ghost(Set::empty()) }
    }

    /// Mints one identifier: it was never issued before, and it is recorded
    /// as issued from now on. Once the counter is exhausted, nothing more is
    /// issued.
    pub fn allocate(&mut self) -> (id: Option<u64>)
        requires
            old(self).wf(),
        ensures
            final(self).wf(),
            id is Some <==> old(self).next_id() < u64::MAX,
            id matches Some(i) ==> i == old(self).next_id() && !old(self).issued_ids().contains(i)
                && final(self).issued_ids() == old(self).issued_ids().insert(i)
                && final(self).next_id() == old(self).next_id() + 1,
            id is None ==> *final(self) == *old(self),
    {
        if self.next == u64::MAX {
            return None;
        }
        let id = self.next;
        self.next = self.next + 1;
        proof {
            self.issued@ = self.issued@.insert(id);
        }
        Some(id)
    }
}

/// Identifiers are distinct across one allocator's lifetime: whatever was
/// issued before, the identifier about to be minted is not among it.
pub proof fn lemma_scratch_ids_fresh(a: ScratchAllocator)
    requires
        a.wf(),
    ensures
        !a.issued_ids().contains(a.next_id()),
{
}

/// The default scratch root: a RAM-backed directory.
pub fn scratch_root() -> (r: &'static str)
    ensures
        r@ == "/dev/shm/codeexec"@,
{
    "/dev/shm/codeexec"
}

/// The path for one scratch file: `<root>/<id>.<ext>`.
pub open spec fn scratch_path_spec(root: Seq<char>, id: int, ext: Seq<char>) -> Seq<char> {
    root + seq!['/'] + dec_seq(id) + seq!['.'] + ext
}

/// Builds the path for one scratch file.
pub fn scratch_path(root: &str, id: u64, ext: &str) -> (r: String)
    ensures
        r@ == scratch_path_spec(root@, id as int, ext@),
{
    let mut out = String::from_str(root);
    push_char(&mut out, '/');
    push_u64(&mut out, id);
    push_char(&mut out, '.');
    out.append(ext);
    proof {
        assert(out@ =~= scratch_path_spec(root@, id as int, ext@));
    }
    out
}

/// The path of the coverage data file that sits beside a scratch file.
pub fn cov_file_path(path: &str) -> (r: String)
    ensures
        r@ == path@ + ".cov"@,
{
    let mut out = String::from_str(path);
    out.append(".cov");
    out
}

} // verus!
