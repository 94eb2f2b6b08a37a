//! The test-bank cache: per-repository maps from an MD5 hex hash to a test
//! source, loaded lazily from dataset rows, refreshed on every lookup, and
//! evicted whole when they have not been touched for too long.
use vstd::prelude::*;

verus! {

use vstd::string::StringExecFns;
use vstd::string::StrSliceExecFns;

/// How long a bank may go untouched before the reaper evicts it, in
/// milliseconds.
pub const MAX_BANK_AGE_MS: u64 = 3600000;

/// Why a bank could not be built from its rows.
#[derive(Debug)]
pub enum BankError {
    /// A row's hash key did not have the 32 characters of an MD5 hex digest.
    HashLength,
}

/// Whether every row's hash has the 32 characters of an MD5 hex digest.
pub open spec fn rows_all_md5(rows: Seq<(String, String)>) -> bool {
    forall|i: int| 0 <= i < rows.len() ==> (#[trigger] rows[i].1)@.len() == 32
}

/// The map a row sequence denotes: each row `(test, hash)` binds `hash` to
/// `test`, later rows winning.
pub open spec fn rows_map(rows: Seq<(String, String)>) -> Map<Seq<char>, Seq<char>>
    decreases rows.len(),
{
    if rows.len() == 0 {
        Map::empty()
    } else {
        rows_map(rows.drop_last()).insert(rows.last().1@, rows.last().0@)
    }
}

/// A hash bound by no row is not in the map.
proof fn lemma_rows_map_absent(rows: Seq<(String, String)>, h: Seq<char>)
    requires
        forall|m: int| 0 <= m < rows.len() ==> (#[trigger] rows[m].1)@ != h,
    ensures
        !rows_map(rows).dom().contains(h),
    decreases rows.len(),
{
    if rows.len() > 0 {
        assert(forall|m: int|
            0 <= m < rows.drop_last().len() ==> (#[trigger] rows.drop_last()[m].1)@
                == rows[m].1@);
        lemma_rows_map_absent(rows.drop_last(), h);
    }
}

/// The last row binding a hash gives the map's value for it.
proof fn lemma_rows_map_found(rows: Seq<(String, String)>, k: int, h: Seq<char>)
    requires
        0 <= k < rows.len(),
        rows[k].1@ == h,
        forall|m: int| k < m < rows.len() ==> (#[trigger] rows[m].1)@ != h,
    ensures
        rows_map(rows).dom().contains(h),
        rows_map(rows)[h] == rows[k].0@,
    decreases rows.len(),
{
    if k == rows.len() - 1 {
    } else {
        assert(rows.last().1@ != h);
        assert(forall|m: int|
            0 <= m < rows.drop_last().len() ==> (#[trigger] rows.drop_last()[m].1)@
                == rows[m].1@ && rows.drop_last()[m].0@ == rows[m].0@);
        lemma_rows_map_found(rows.drop_last(), k, h);
    }
}

/// Every key of the denoted map is a hash of some row.
proof fn lemma_rows_map_keys(rows: Seq<(String, String)>)
    requires
        rows_all_md5(rows),
    ensures
        forall|h: Seq<char>| rows_map(rows).dom().contains(h) ==> h.len() == 32,
    decreases rows.len(),
{
    if rows.len() > 0 {
        assert(forall|m: int|
            0 <= m < rows.drop_last().len() ==> (#[trigger] rows.drop_last()[m].1)@
                == rows[m].1@);
        assert(rows_all_md5(rows.drop_last()));
        lemma_rows_map_keys(rows.drop_last());
    }
}

/// One repository's bank: the rows it was loaded from and when it was last
/// touched.
pub struct TestBank {
    repo: String,
    entries: Vec<(String, String)>,
    last_accessed: u64,
}

impl TestBank {
    /// Every stored hash has the 32 characters of an MD5 hex digest.
    pub closed spec fn wf(&self) -> bool {
        rows_all_md5(self.entries@)
    }

    /// The map from hash to test source this bank holds.
    pub closed spec fn map_view(&self) -> Map<Seq<char>, Seq<char>> {
        rows_map(self.entries@)
    }

    /// The repository this bank belongs to.
    pub closed spec fn repo_name(&self) -> Seq<char> {
        self.repo@
    }

    /// When the bank was last touched, in milliseconds.
    pub closed spec fn accessed_at(&self) -> u64 {
        self.last_accessed
    }

    /// A bank with no tests.
    pub fn empty(repo: String, now: u64) -> (b: TestBank)
        ensures
            b.wf(),
            b.map_view() == Map::<Seq<char>, Seq<char>>::empty(),
            b.repo_name() == repo@,
            b.accessed_at() == now,
    {
        TestBank { repo, entries: Vec::new(), last_accessed: now }
    }

    /// Builds a bank from dataset rows of `(test, hash)` pairs. Every hash
    /// must be 32 characters long; any other length is a load-time error for
    /// the whole bank.
    #[verifier::loop_isolation(false)]
    pub fn from_hf(repo: String, rows: Vec<(String, String)>, now: u64) -> (r: Result<
        TestBank,
        BankError,
    >)
        ensures
            r is Ok <==> rows_all_md5(rows@),
            r matches Ok(b) ==> b.wf() && b.map_view() == rows_map(rows@) && b.repo_name()
                == repo@ && b.accessed_at() == now,
    {
        let n = rows.len();
        let mut i: usize = 0;
        while i < n
            invariant
                i <= n,
                forall|m: int| 0 <= m < i ==> (#[trigger] rows@[m].1)@.len() == 32,
            decreases n - i,
        {
            let hash_len = rows[i].1.as_str().unicode_len();
            if hash_len != 32 {
                return Err(BankError::HashLength);
            }
            i = i + 1;
        }
        Ok(TestBank { repo, entries: rows, last_accessed: now })
    }

    /// Looks a hash up and refreshes the access time, hit or miss. The
    /// result is the bank's binding for the hash, if there is one.
    #[verifier::loop_isolation(false)]
    pub fn get_test(&mut self, hash: &str, now: u64) -> (r: Option<String>)
        ensures
            final(self).wf() == old(self).wf(),
            final(self).map_view() == old(self).map_view(),
            final(self).repo_name() == old(self).repo_name(),
            final(self).accessed_at() == now,
            r is Some <==> old(self).map_view().dom().contains(hash@),
            r matches Some(t) ==> t@ == old(self).map_view()[hash@],
    {
        self.last_accessed = now;
        let key = String::from_str(hash);
        let n = self.entries.len();
        let mut j: usize = n;
        while j > 0
            invariant
                j <= n,
                forall|m: int| j <= m < n ==> (#[trigger] self.entries@[m].1)@ != hash@,
            decreases j,
        {
            j = j - 1;
            if self.entries[j].1 == key {
                let t = self.entries[j].0.clone();
                proof {
                    lemma_rows_map_found(self.entries@, j as int, hash@);
                }
                return Some(t);
            }
        }
        proof {
            lemma_rows_map_absent(self.entries@, hash@);
        }
        None
    }
}

/// Every key of a well-formed bank has length 32: the length of an MD5 hex
/// digest.
pub proof fn lemma_bank_keys_md5(b: &TestBank)
    requires
        b.wf(),
    ensures
        forall|h: Seq<char>| b.map_view().dom().contains(h) ==> h.len() == 32,
{
    lemma_rows_map_keys(b.entries@);
}

/// What a lookup against the registry found.
pub enum BankLookup {
    /// The bank holds the hash; the test source bound to it.
    Found(String),
    /// The bank is loaded but does not hold the hash.
    Missing,
    /// No bank is loaded for the repository yet.
    NeedLoad,
}

/// The tests a load attempt yields: the denoted map when every hash is an
/// MD5 digest, and an empty bank on a failed load or a malformed row.
pub open spec fn loaded_tests(rows: Option<Vec<(String, String)>>) -> Map<Seq<char>, Seq<char>> {
    match rows {
        Some(rs) => if rows_all_md5(rs@) {
            rows_map(rs@)
        } else {
            Map::empty()
        },
        None => Map::empty(),
    }
}

/// Whether a bank is still fresh at `now`.
pub open spec fn bank_is_fresh(b: TestBank, now: u64) -> bool {
    now as int <= b.accessed_at() + MAX_BANK_AGE_MS
}

/// The banks of `bs` from position `i` on that are still fresh at `now`, in
/// order.
spec fn fresh_from(bs: Seq<TestBank>, i: int, now: u64) -> Seq<TestBank>
    decreases bs.len() - i,
{
    if i < 0 || i >= bs.len() {
        Seq::empty()
    } else if bank_is_fresh(bs[i], now) {
        seq![bs[i]] + fresh_from(bs, i + 1, now)
    } else {
        fresh_from(bs, i + 1, now)
    }
}

/// Each fresh bank is kept, and everything kept is a fresh bank.
proof fn lemma_fresh_membership(bs: Seq<TestBank>, i: int, now: u64)
    requires
        0 <= i,
    ensures
        forall|j: int|
            0 <= j < fresh_from(bs, i, now).len() ==> exists|m: int|
                i <= m < bs.len() && #[trigger] fresh_from(bs, i, now)[j] == bs[m]
                    && bank_is_fresh(bs[m], now),
        forall|m: int|
            i <= m < bs.len() && bank_is_fresh(#[trigger] bs[m], now) ==> fresh_from(
                bs,
                i,
                now,
            ).contains(bs[m]),
    decreases bs.len() - i,
{
    if 0 <= i < bs.len() {
        lemma_fresh_membership(bs, i + 1, now);
        let f = fresh_from(bs, i, now);
        let rest = fresh_from(bs, i + 1, now);
        if bank_is_fresh(bs[i], now) {
            assert forall|j: int| 0 <= j < f.len() implies exists|m: int|
                i <= m < bs.len() && #[trigger] f[j] == bs[m] && bank_is_fresh(bs[m], now) by {
                if j == 0 {
                    assert(f[j] == bs[i]);
                } else {
                    assert(f[j] == rest[j - 1]);
                }
            }
            assert forall|m: int|
                i <= m < bs.len() && bank_is_fresh(#[trigger] bs[m], now) implies f.contains(
                bs[m],
            ) by {
                if m == i {
                    assert(f[0] == bs[i]);
                    assert(f.contains(bs[m]));
                } else {
                    assert(rest.contains(bs[m]));
                    let j = choose|j: int| 0 <= j < rest.len() && rest[j] == bs[m];
                    assert(f[j + 1] == bs[m]);
                    assert(f.contains(bs[m]));
                }
            }
        } else {
            assert forall|m: int|
                i <= m < bs.len() && bank_is_fresh(#[trigger] bs[m], now) implies f.contains(
                bs[m],
            ) by {
                assert(m != i);
                assert(rest.contains(bs[m]));
                assert(f =~= rest);
                let j = choose|j: int| 0 <= j < rest.len() && rest[j] == bs[m];
                assert(f[j] == bs[m]);
                assert(f.contains(bs[m]));
            }
        }
    }
}

/// Freshness filtering keeps repository names unique.
proof fn lemma_fresh_unique(bs: Seq<TestBank>, i: int, now: u64)
    requires
        forall|k: int, m: int|
            0 <= k < m < bs.len() ==> (#[trigger] bs[k]).repo_name() != (#[trigger] bs[m]).repo_name(),
    ensures
        forall|j1: int, j2: int|
            0 <= j1 < j2 < fresh_from(bs, i, now).len() ==> (#[trigger] fresh_from(bs, i, now)[j1]).repo_name()
                != (#[trigger] fresh_from(bs, i, now)[j2]).repo_name(),
    decreases bs.len() - i,
{
    if 0 <= i < bs.len() {
        lemma_fresh_unique(bs, i + 1, now);
        lemma_fresh_membership(bs, i + 1, now);
        let f = fresh_from(bs, i, now);
        let rest = fresh_from(bs, i + 1, now);
        if bank_is_fresh(bs[i], now) {
            assert forall|j1: int, j2: int| 0 <= j1 < j2 < f.len() implies (#[trigger] f[j1]).repo_name()
                != (#[trigger] f[j2]).repo_name() by {
                if j1 == 0 {
                    assert(f[j2] == rest[j2 - 1]);
                    let m = choose|m: int|
                        i + 1 <= m < bs.len() && rest[j2 - 1] == bs[m] && bank_is_fresh(
                            bs[m],
                            now,
                        );
                    assert(f[0] == bs[i]);
                    assert(bs[i].repo_name() != bs[m].repo_name());
                } else {
                    assert(f[j1] == rest[j1 - 1]);
                    assert(f[j2] == rest[j2 - 1]);
                }
            }
        }
    }
}

/// The registry of loaded banks, one per repository.
pub struct TestBanks {
    banks: Vec<TestBank>,
}

impl TestBanks {
    /// Each bank is well-formed and no repository appears twice.
    pub closed spec fn wf(&self) -> bool {
        &&& forall|k: int| 0 <= k < self.banks@.len() ==> (#[trigger] self.banks@[k]).wf()
        &&& forall|k: int, m: int|
            0 <= k < m < self.banks@.len() ==> (#[trigger] self.banks@[k]).repo_name() != (
            #[trigger] self.banks@[m]).repo_name()
    }

    /// Whether a bank is loaded for the repository.
    pub closed spec fn has_repo(&self, r: Seq<char>) -> bool {
        exists|k: int| 0 <= k < self.banks@.len() && (#[trigger] self.banks@[k]).repo_name() == r
    }

    /// The position of the repository's bank.
    closed spec fn idx_of(&self, r: Seq<char>) -> int {
        choose|k: int| 0 <= k < self.banks@.len() && (#[trigger] self.banks@[k]).repo_name() == r
    }

    /// The tests of the repository's bank.
    pub closed spec fn tests_of(&self, r: Seq<char>) -> Map<Seq<char>, Seq<char>> {
        self.banks@[self.idx_of(r)].map_view()
    }

    /// When the repository's bank was last touched.
    pub closed spec fn accessed_of(&self, r: Seq<char>) -> u64 {
        self.banks@[self.idx_of(r)].accessed_at()
    }

    /// The bank at a known position is the one its repository resolves to.
    proof fn lemma_idx(&self, k: int)
        requires
            self.wf(),
            0 <= k < self.banks@.len(),
        ensures
            self.has_repo(self.banks@[k].repo_name()),
            self.idx_of(self.banks@[k].repo_name()) == k,
    {
        let r = self.banks@[k].repo_name();
        assert(self.has_repo(r));
        let k2 = self.idx_of(r);
        assert(0 <= k2 < self.banks@.len() && self.banks@[k2].repo_name() == r);
        if k2 != k {
            if k2 < k {
                assert(self.banks@[k2].repo_name() != self.banks@[k].repo_name());
            } else {
                assert(self.banks@[k].repo_name() != self.banks@[k2].repo_name());
            }
        }
    }

    /// Every hash key of every loaded bank has length 32: the length of an
    /// MD5 hex digest.
    pub proof fn lemma_registry_keys_md5(&self, r: Seq<char>)
        requires
            self.wf(),
            self.has_repo(r),
        ensures
            forall|h: Seq<char>| self.tests_of(r).dom().contains(h) ==> h.len() == 32,
    {
        let k = self.idx_of(r);
        assert(0 <= k < self.banks@.len() && self.banks@[k].repo_name() == r);
        assert(self.banks@[k].wf());
        lemma_rows_map_keys(self.banks@[k].entries@);
    }

    /// An empty registry.
    pub fn new() -> (r: TestBanks)
        ensures
            r.wf(),
            forall|s: Seq<char>| !r.has_repo(s),
    {
        TestBanks { banks: Vec::new() }
    }

    /// Looks a hash up for a repository, refreshing the bank's access time,
    /// hit or miss. When no bank is loaded yet, nothing changes and the
    /// caller is told to load one.
    #[verifier::loop_isolation(false)]
    pub fn lookup(&mut self, repo: &str, hash: &str, now: u64) -> (r: BankLookup)
        requires
            old(self).wf(),
        ensures
            final(self).wf(),
            !old(self).has_repo(repo@) ==> {
                &&& r is NeedLoad
                &&& (forall|s: Seq<char>| final(self).has_repo(s) <==> old(self).has_repo(s))
                &&& (forall|s: Seq<char>|
                    old(self).has_repo(s) ==> final(self).tests_of(s) == old(self).tests_of(s)
                        && final(self).accessed_of(s) == old(self).accessed_of(s))
            },
            old(self).has_repo(repo@) ==> !(r is NeedLoad),
            old(self).has_repo(repo@) ==> {
                &&& (r is Found <==> old(self).tests_of(repo@).dom().contains(hash@))
                &&& (r matches BankLookup::Found(t) ==> t@ == old(self).tests_of(repo@)[hash@])
                &&& final(self).accessed_of(repo@) == now
                &&& final(self).tests_of(repo@) == old(self).tests_of(repo@)
                &&& (forall|s: Seq<char>| final(self).has_repo(s) <==> old(self).has_repo(s))
                &&& (forall|s: Seq<char>|
                    s != repo@ && old(self).has_repo(s) ==> final(self).tests_of(s) == old(
                        self,
                    ).tests_of(s) && final(self).accessed_of(s) == old(self).accessed_of(s))
            },
    {
        let key = String::from_str(repo);
        let n = self.banks.len();
        let mut k: usize = 0;
        while k < n
            invariant
                k <= n,
                self.banks@ == old(self).banks@,
                n == self.banks@.len(),
                forall|m: int| 0 <= m < k ==> (#[trigger] self.banks@[m]).repo_name() != repo@,
            decreases n - k,
        {
            if self.banks[k].repo == key {
                proof {
                    old(self).lemma_idx(k as int);
                }
                let mut b = self.banks.remove(k);
                let t = b.get_test(hash, now);
                self.banks.insert(k, b);
                proof {
                    assert(self.banks@ =~= old(self).banks@.update(k as int, b));
                    assert forall|m: int| 0 <= m < self.banks@.len() implies (
                    #[trigger] self.banks@[m]).repo_name() == old(self).banks@[m].repo_name()
                        && self.banks@[m].wf() == old(self).banks@[m].wf() by {}
                    assert forall|s: Seq<char>| self.has_repo(s) <==> old(self).has_repo(
                        s,
                    ) by {
                        if self.has_repo(s) {
                            let m = self.idx_of(s);
                            assert(old(self).banks@[m].repo_name() == s);
                        }
                        if old(self).has_repo(s) {
                            let m = old(self).idx_of(s);
                            assert(self.banks@[m].repo_name() == s);
                        }
                    }
                    assert(self.wf());
                    assert forall|s: Seq<char>| self.has_repo(s) implies self.tests_of(s)
                        == old(self).tests_of(s) && (s != repo@ ==> self.accessed_of(s) == old(
                        self,
                    ).accessed_of(s)) && (s == repo@ ==> self.accessed_of(s) == now) by {
                        let m = old(self).idx_of(s);
                        old(self).lemma_idx(m);
                        self.lemma_idx(m);
                        assert(self.idx_of(s) == m);
                    }
                }
                return match t {
                    Some(test) => BankLookup::Found(test),
                    None => BankLookup::Missing,
                };
            }
            k = k + 1;
        }
        BankLookup::NeedLoad
    }

    /// Installs the outcome of one load attempt for a repository, unless a
    /// bank for it appeared meanwhile: a failed load or a malformed row
    /// caches an empty bank, so repeated misses do not reload.
    #[verifier::loop_isolation(false)]
    pub fn install_loaded(&mut self, repo: String, rows: Option<Vec<(String, String)>>, now: u64)
        requires
            old(self).wf(),
        ensures
            final(self).wf(),
            old(self).has_repo(repo@) ==> {
                &&& (forall|s: Seq<char>| final(self).has_repo(s) <==> old(self).has_repo(s))
                &&& (forall|s: Seq<char>|
                    old(self).has_repo(s) ==> final(self).tests_of(s) == old(self).tests_of(s)
                        && final(self).accessed_of(s) == old(self).accessed_of(s))
            },
            !old(self).has_repo(repo@) ==> {
                &&& (forall|s: Seq<char>|
                    final(self).has_repo(s) <==> (old(self).has_repo(s) || s == repo@))
                &&& final(self).tests_of(repo@) == loaded_tests(rows)
                &&& final(self).accessed_of(repo@) == now
                &&& (forall|s: Seq<char>|
                    s != repo@ && old(self).has_repo(s) ==> final(self).tests_of(s) == old(
                        self,
                    ).tests_of(s) && final(self).accessed_of(s) == old(self).accessed_of(s))
            },
    {
        let n = self.banks.len();
        let mut k: usize = 0;
        while k < n
            invariant
                k <= n,
                self.banks@ == old(self).banks@,
                n == self.banks@.len(),
                forall|m: int| 0 <= m < k ==> (#[trigger] self.banks@[m]).repo_name() != repo@,
            decreases n - k,
        {
            if self.banks[k].repo == repo {
                proof {
                    old(self).lemma_idx(k as int);
                }
                return ;
            }
            k = k + 1;
        }
        let bank = match rows {
            Some(rs) => {
                let fallback = repo.clone();
                match TestBank::from_hf(repo, rs, now) {
                    Ok(b) => b,
                    Err(_) => TestBank::empty(fallback, now),
                }
            },
            None => TestBank::empty(repo, now),
        };
        let ghost nlen = self.banks@.len();
        self.banks.push(bank);
        proof {
            assert(self.banks@[nlen as int] == bank);
            assert(bank.repo_name() == repo@);
            assert forall|s: Seq<char>|
                final(self).has_repo(s) <==> (old(self).has_repo(s) || s == repo@) by {
                if self.has_repo(s) {
                    let m = self.idx_of(s);
                    if m < nlen {
                        assert(old(self).banks@[m].repo_name() == s);
                    }
                }
                if old(self).has_repo(s) {
                    let m = old(self).idx_of(s);
                    assert(self.banks@[m].repo_name() == s);
                }
                if s == repo@ {
                    assert(self.banks@[nlen as int].repo_name() == s);
                }
            }
            assert(self.wf());
            self.lemma_idx(nlen as int);
            assert(self.tests_of(repo@) == bank.map_view());
            assert forall|s: Seq<char>| s != repo@ && old(self).has_repo(s) implies self.tests_of(
                s,
            ) == old(self).tests_of(s) && self.accessed_of(s) == old(self).accessed_of(s) by {
                let m = old(self).idx_of(s);
                old(self).lemma_idx(m);
                self.lemma_idx(m);
            }
        }
    }

    /// Drops every bank that has gone untouched for longer than the
    /// freshness bound; everything fresher stays exactly as it was.
    #[verifier::loop_isolation(false)]
    pub fn evict_stale(&mut self, now: u64)
        requires
            old(self).wf(),
        ensures
            final(self).wf(),
            forall|s: Seq<char>|
                final(self).has_repo(s) <==> (old(self).has_repo(s) && now as int <= old(
                    self,
                ).accessed_of(s) + MAX_BANK_AGE_MS),
            forall|s: Seq<char>|
                final(self).has_repo(s) ==> final(self).tests_of(s) == old(self).tests_of(s)
                    && final(self).accessed_of(s) == old(self).accessed_of(s),
    {
        let ghost o = self.banks@;
        let mut kept: Vec<TestBank> = Vec::new();
        let ghost mut i: int = 0;
        while self.banks.len() > 0
            invariant
                0 <= i <= o.len(),
                self.banks@ == o.skip(i),
                kept@ + fresh_from(o, i, now) == fresh_from(o, 0, now),
            decreases self.banks@.len(),
        {
            let b = self.banks.remove(0);
            let fresh = if now <= MAX_BANK_AGE_MS {
                true
            } else {
                b.last_accessed >= now - MAX_BANK_AGE_MS
            };
            proof {
                assert(b == o[i]);
                assert(fresh == bank_is_fresh(o[i], now));
                assert(self.banks@ =~= o.skip(i + 1));
            }
            if fresh {
                kept.push(b);
                proof {
                    assert(kept@ + fresh_from(o, i + 1, now) =~= fresh_from(o, 0, now));
                }
            } else {
                proof {
                    assert(kept@ + fresh_from(o, i + 1, now) =~= fresh_from(o, 0, now));
                }
            }
            proof {
                i = i + 1;
            }
        }
        self.banks = kept;
        proof {
            assert(self.banks@ =~= fresh_from(o, 0, now));
            lemma_fresh_membership(o, 0, now);
            lemma_fresh_unique(o, 0, now);
            let f = fresh_from(o, 0, now);
            assert forall|j: int| 0 <= j < f.len() implies (#[trigger] f[j]).wf() by {
                let m = choose|m: int|
                    0 <= m < o.len() && f[j] == o[m] && bank_is_fresh(o[m], now);
                assert(o[m].wf());
            }
            assert(self.wf());
            assert forall|s: Seq<char>|
                self.has_repo(s) <==> (old(self).has_repo(s) && now as int <= old(
                    self,
                ).accessed_of(s) + MAX_BANK_AGE_MS) by {
                if self.has_repo(s) {
                    let j = self.idx_of(s);
                    assert(f[j].repo_name() == s);
                    let m = choose|m: int|
                        0 <= m < o.len() && f[j] == o[m] && bank_is_fresh(o[m], now);
                    old(self).lemma_idx(m);
                }
                if old(self).has_repo(s) && now as int <= old(self).accessed_of(s)
                    + MAX_BANK_AGE_MS {
                    let m = old(self).idx_of(s);
                    assert(bank_is_fresh(o[m], now));
                    assert(f.contains(o[m]));
                    let j = choose|j: int| 0 <= j < f.len() && f[j] == o[m];
                    assert(self.banks@[j].repo_name() == s);
                }
            }
            assert forall|s: Seq<char>| self.has_repo(s) implies self.tests_of(s) == old(
                self,
            ).tests_of(s) && self.accessed_of(s) == old(self).accessed_of(s) by {
                let j = self.idx_of(s);
                assert(f[j].repo_name() == s);
                let m = choose|m: int|
                    0 <= m < o.len() && f[j] == o[m] && bank_is_fresh(o[m], now);
                old(self).lemma_idx(m);
            }
        }
    }
}

} // verus!
