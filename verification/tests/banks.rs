use codeexec::bank::BankLookup;
use codeexec::bank::TestBank;
use codeexec::bank::TestBanks;
use codeexec::bank::MAX_BANK_AGE_MS;
use codeexec::verbs::augment_code;

fn md5ish(fill: char) -> String {
    std::iter::repeat(fill).take(32).collect()
}

fn rows() -> Vec<(String, String)> {
    vec![
        (String::from("assert add(1,2) == 3"), md5ish('a')),
        (String::from("assert sub(3,1) == 2"), md5ish('b')),
    ]
}

#[test]
fn from_hf_builds_and_looks_up() {
    let mut bank = TestBank::from_hf(String::from("org/repo"), rows(), 5).expect("valid rows");
    let hit = bank.get_test(&md5ish('a'), 6);
    assert_eq!(hit, Some(String::from("assert add(1,2) == 3")));
    let miss = bank.get_test(&md5ish('c'), 7);
    assert_eq!(miss, None);
}

#[test]
fn later_rows_win_on_equal_hashes() {
    let mut dup = rows();
    dup.push((String::from("assert add(2,2) == 4"), md5ish('a')));
    let mut bank = TestBank::from_hf(String::from("org/repo"), dup, 5).expect("valid rows");
    let hit = bank.get_test(&md5ish('a'), 6);
    assert_eq!(hit, Some(String::from("assert add(2,2) == 4")));
}

#[test]
fn short_hash_fails_the_whole_bank() {
    let mut bad = rows();
    bad.push((String::from("assert True"), String::from("abcd")));
    assert!(TestBank::from_hf(String::from("org/repo"), bad, 5).is_err());
}

#[test]
fn unknown_repo_asks_for_a_load() {
    let mut banks = TestBanks::new();
    let r = banks.lookup("org/repo", &md5ish('a'), 1);
    assert!(matches!(r, BankLookup::NeedLoad));
}

#[test]
fn installed_bank_serves_lookups() {
    let mut banks = TestBanks::new();
    banks.install_loaded(String::from("org/repo"), Some(rows()), 1);
    let r = banks.lookup("org/repo", &md5ish('b'), 2);
    match r {
        BankLookup::Found(t) => assert_eq!(t, "assert sub(3,1) == 2"),
        _ => panic!("expected a hit"),
    }
}

#[test]
fn unknown_hash_is_a_miss_and_code_runs_unmodified() {
    let mut banks = TestBanks::new();
    banks.install_loaded(String::from("org/repo"), Some(rows()), 1);
    let r = banks.lookup("org/repo", &md5ish('f'), 2);
    assert!(matches!(r, BankLookup::Missing));
    let code = augment_code(String::from("print(2+2)"), None);
    assert_eq!(code, "print(2+2)");
}

#[test]
fn found_test_is_appended_after_a_blank_line() {
    let code = augment_code(
        String::from("def add(a,b): return a+b"),
        Some(String::from("assert add(1,2) == 3")),
    );
    assert_eq!(code, "def add(a,b): return a+b\n\nassert add(1,2) == 3");
}

#[test]
fn failed_load_caches_an_empty_bank() {
    let mut banks = TestBanks::new();
    banks.install_loaded(String::from("org/repo"), None, 1);
    let r = banks.lookup("org/repo", &md5ish('a'), 2);
    assert!(matches!(r, BankLookup::Missing));
}

#[test]
fn malformed_rows_cache_an_empty_bank() {
    let mut banks = TestBanks::new();
    let bad = vec![(String::from("t"), String::from("tooshort"))];
    banks.install_loaded(String::from("org/repo"), Some(bad), 1);
    let r = banks.lookup("org/repo", &md5ish('a'), 2);
    assert!(matches!(r, BankLookup::Missing));
}

#[test]
fn stale_banks_are_evicted_and_fresh_ones_stay() {
    let mut banks = TestBanks::new();
    banks.install_loaded(String::from("org/old"), Some(rows()), 0);
    banks.install_loaded(String::from("org/new"), Some(rows()), MAX_BANK_AGE_MS);
    banks.evict_stale(MAX_BANK_AGE_MS + 1);
    assert!(matches!(
        banks.lookup("org/old", &md5ish('a'), MAX_BANK_AGE_MS + 2),
        BankLookup::NeedLoad
    ));
    assert!(matches!(
        banks.lookup("org/new", &md5ish('a'), MAX_BANK_AGE_MS + 2),
        BankLookup::Found(_)
    ));
}

#[test]
fn lookup_refreshes_the_access_time() {
    let mut banks = TestBanks::new();
    banks.install_loaded(String::from("org/repo"), Some(rows()), 0);
    // a miss still refreshes: the bank survives a sweep one age later
    banks.lookup("org/repo", &md5ish('f'), MAX_BANK_AGE_MS);
    banks.evict_stale(MAX_BANK_AGE_MS + 1);
    assert!(matches!(
        banks.lookup("org/repo", &md5ish('a'), MAX_BANK_AGE_MS + 2),
        BankLookup::Found(_)
    ));
}
