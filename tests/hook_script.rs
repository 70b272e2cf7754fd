use firstaide::cache::{load_bytes, save_bytes, CacheEntry};
use firstaide::env::{diff, Env};
use firstaide::hook::{active_notice, classify, hook_script, outside_env, Error, HookState};
use firstaide::script::env_diff_dump;
use firstaide::sums::{equal, Checksums};

fn b(s: &str) -> Vec<u8> {
    s.as_bytes().to_vec()
}

fn env(pairs: &[(&str, &str)]) -> Env {
    Env::from_pairs(pairs.iter().map(|(k, v)| (b(k), b(v))).collect()).unwrap()
}

fn sums(files: &[(&str, &str)]) -> Checksums {
    let reads: Vec<(Vec<u8>, Option<Vec<u8>>)> = files.iter().map(|(p, c)| (b(p), Some(b(c)))).collect();
    Checksums::compute(&reads).unwrap()
}

fn entry() -> CacheEntry {
    let outside = env(&[("FOO", "1")]);
    let inside = env(&[("BAR", "x"), ("FOO", "2")]);
    CacheEntry { diff: diff(&outside, &inside), sums: sums(&[("shell.nix", "{ }"), ("default.nix", "let in")]) }
}

fn script(cache: &Option<CacheEntry>, now: &Result<Checksums, Vec<u8>>) -> String {
    let live = env(&[("DIRENV_DIR", "-/p"), ("FOO", "1"), ("TERM", "xterm")]);
    let outside = env(&[("DIRENV_WATCHES", "abc"), ("FOO", "1")]);
    String::from_utf8(hook_script(&live, &outside, cache, now, b"Run make.", b"/p/.cache/env")).unwrap()
}

#[test]
fn hook_okay_when_watched_files_unchanged() {
    let cache = Some(entry());
    let now = Ok(sums(&[("default.nix", "let in"), ("shell.nix", "{ }")]));
    let first = script(&cache, &now);
    let second = script(&cache, &now);
    assert_eq!(first, second);
    assert!(first.starts_with("{ # Start.\n\n### Parent environment follows:\n"));
    assert!(first.ends_with("} # End.\n"));
    assert!(first.contains("### Development environment is up to date.\n"));
    assert!(first.contains("'Run make.'"));
    assert!(first.contains("### Cached environment follows:\nexport 'BAR'='x'\nexport 'FOO'='2'\n\n"));
    assert!(first.contains("### Watch dependencies.\nwatch_file 'shell.nix'\nwatch_file 'default.nix'\n\n"));
    assert!(first.contains("### Watch the cache file.\nwatch_file '/p/.cache/env'\n\n"));
    assert!(!first.contains("stale"));
}

#[test]
fn hook_parent_chunk_reverts_live_changes_and_keeps_watches() {
    let s = script(&None, &Ok(sums(&[])));
    assert!(s.contains(
        "### Parent environment follows:\nunset 'TERM'\nexport 'DIRENV_WATCHES'='abc'\n\n"
    ));
}

#[test]
fn hook_stale_when_watched_file_changed() {
    let cache = Some(entry());
    let okay = script(&cache, &Ok(sums(&[("shell.nix", "{ }"), ("default.nix", "let in")])));
    let stale = script(&cache, &Ok(sums(&[("shell.nix", "{ pkgs }"), ("default.nix", "let in")])));
    assert!(stale.contains("### Development environment is stale.\n"));
    assert!(stale.contains("### Cached environment follows:\nexport 'BAR'='x'\nexport 'FOO'='2'\n\n"));
    let deps = "### Watch dependencies.\nwatch_file 'shell.nix'\nwatch_file 'default.nix'\n\n";
    assert!(stale.contains(deps));
    assert!(okay.contains(deps));
    assert!(!stale.contains("up to date"));
}

#[test]
fn hook_stale_when_watched_file_unreadable() {
    let cache = Some(entry());
    let s = script(&cache, &Err(b("shell.nix")));
    assert!(s.contains("### Development environment is stale.\n"));
}

#[test]
fn hook_unknown_without_cache() {
    let s = script(&None, &Ok(sums(&[])));
    assert!(s.contains("### Development environment has not been built.\n"));
    assert!(!s.contains("Cached environment follows"));
    assert!(!s.contains("export 'BAR'"));
    assert!(s.contains("### Watch the cache file.\nwatch_file '/p/.cache/env'\n\n"));
}

#[test]
fn classify_three_states() {
    let cache = Some(entry());
    assert_eq!(classify(&None, &Ok(sums(&[]))), HookState::Unknown);
    assert_eq!(classify(&cache, &Ok(sums(&[("default.nix", "let in"), ("shell.nix", "{ }")]))), HookState::Okay);
    assert_eq!(classify(&cache, &Ok(sums(&[("shell.nix", "{ }")]))), HookState::Stale);
}

#[test]
fn active_notice_holds_quoted_message() {
    let n = String::from_utf8(active_notice(b"it's ready")).unwrap();
    assert!(n.contains("'it'\\''s ready'"));
    assert!(!n.contains("__MESSAGE__"));
}

#[test]
fn checksums_equal_is_reflexive_symmetric_and_order_free() {
    let a = sums(&[("a", "1"), ("b", "2")]);
    let b2 = sums(&[("b", "2"), ("a", "1")]);
    let c = sums(&[("a", "1"), ("b", "3")]);
    assert!(equal(&a, &a));
    assert!(equal(&a, &b2) && equal(&b2, &a));
    assert!(!equal(&a, &c) && !equal(&c, &a));
}

#[test]
fn checksum_is_sha256_of_contents() {
    let s = sums(&[("f", "abc")]);
    assert_eq!(s.sums[0].0, b("f"));
    let hex: String = s.sums[0].1.iter().map(|x| format!("{:02x}", x)).collect();
    assert_eq!(hex, "ba7816bf8f01cfea414140de5dae2223b00361a396177a9cb410ff61f20015ad");
}

#[test]
fn checksums_fail_on_first_unreadable_file() {
    let reads = vec![(b("ok"), Some(b("x"))), (b("missing"), None), (b("gone"), None)];
    assert_eq!(Checksums::compute(&reads).err(), Some(b("missing")));
}

#[test]
fn cache_entry_round_trips() {
    let e = entry();
    let bytes = save_bytes(&e).unwrap();
    let back = load_bytes(&bytes).unwrap();
    assert_eq!(env_diff_dump(&back.diff), env_diff_dump(&e.diff));
    assert_eq!(back.diff.changes.len(), e.diff.changes.len());
    assert_eq!(back.sums.sums, e.sums.sums);
    assert!(load_bytes(b"not a cache").is_none());
    assert!(load_bytes(&[]).is_none());
}

#[test]
fn outside_env_errors() {
    assert_eq!(outside_env(false, Some(vec![])).err(), Some(Error::EnvOutsideCapture));
    assert_eq!(outside_env(true, None).err(), Some(Error::Io));
    assert_eq!(outside_env(true, Some(vec![7])).err(), Some(Error::EnvOutsideDecode));
    let bytes = env(&[("A", "1")]).encode().unwrap();
    assert_eq!(outside_env(true, Some(bytes)).unwrap().vars, vec![(b("A"), b("1"))]);
    assert_eq!(Error::EnvOutsideCapture.message(), "could not capture outside environment");
}
