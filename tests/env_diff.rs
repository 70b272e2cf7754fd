use firstaide::env::{diff, Change, Diff, Env};
use firstaide::script::env_diff_dump;

fn b(s: &str) -> Vec<u8> {
    s.as_bytes().to_vec()
}

fn env(pairs: &[(&str, &str)]) -> Env {
    Env::from_pairs(pairs.iter().map(|(k, v)| (b(k), b(v))).collect()).unwrap()
}

fn describe(d: &Diff) -> Vec<String> {
    d.changes
        .iter()
        .map(|c| match c {
            Change::Added(k, v) => format!("+{}={}", String::from_utf8_lossy(k), String::from_utf8_lossy(v)),
            Change::Changed(k, x, y) => format!(
                "~{}={}>{}",
                String::from_utf8_lossy(k),
                String::from_utf8_lossy(x),
                String::from_utf8_lossy(y)
            ),
            Change::Removed(k, v) => format!("-{}={}", String::from_utf8_lossy(k), String::from_utf8_lossy(v)),
        })
        .collect()
}

#[test]
fn diff_changed_and_added_sorted_by_name() {
    let outside = env(&[("FOO", "1")]);
    let inside = env(&[("BAR", "x"), ("FOO", "2")]);
    let d = diff(&outside, &inside);
    assert_eq!(describe(&d), vec!["+BAR=x", "~FOO=1>2"]);
    let script = env_diff_dump(&d);
    assert_eq!(String::from_utf8(script).unwrap(), "export 'BAR'='x'\nexport 'FOO'='2'\n");
}

#[test]
fn diff_of_snapshot_with_itself_is_empty() {
    let s = env(&[("A", "1"), ("B", ""), ("PATH", "/bin:/usr/bin")]);
    assert!(diff(&s, &s).changes.is_empty());
    let empty = env(&[]);
    assert!(diff(&empty, &empty).changes.is_empty());
}

#[test]
fn diff_reversed_swaps_roles() {
    let a = env(&[("A", "1"), ("B", "2"), ("C", "3")]);
    let c = env(&[("B", "2"), ("C", "4"), ("D", "5")]);
    assert_eq!(describe(&diff(&a, &c)), vec!["-A=1", "~C=3>4", "+D=5"]);
    assert_eq!(describe(&diff(&c, &a)), vec!["+A=1", "~C=4>3", "-D=5"]);
}

#[test]
fn removed_variable_is_unset() {
    let d = diff(&env(&[("GONE", "v")]), &env(&[]));
    assert_eq!(String::from_utf8(env_diff_dump(&d)).unwrap(), "unset 'GONE'\n");
}

#[test]
fn dump_leaves_out_loader_and_ssh_variables() {
    let d = diff(
        &env(&[]),
        &env(&[("DIRENV_DIFF", "x"), ("SSH_AUTH_SOCK", "y"), ("USER", "me")]),
    );
    assert_eq!(String::from_utf8(env_diff_dump(&d)).unwrap(), "export 'USER'='me'\n");
}

#[test]
fn exclude_by_prefix_is_idempotent_and_keeps_input() {
    let d = diff(&env(&[]), &env(&[("DIRENV_A", "1"), ("DIRENV_B", "2"), ("X", "3")]));
    let once = d.exclude_by_prefix(b"DIRENV_");
    let twice = once.exclude_by_prefix(b"DIRENV_");
    assert_eq!(describe(&once), vec!["+X=3"]);
    assert_eq!(describe(&once), describe(&twice));
    assert_eq!(d.changes.len(), 3);
}

#[test]
fn from_pairs_rejects_unsorted_or_repeated_names() {
    assert!(Env::from_pairs(vec![(b("B"), b("1")), (b("A"), b("2"))]).is_none());
    assert!(Env::from_pairs(vec![(b("A"), b("1")), (b("A"), b("2"))]).is_none());
    assert!(Env::from_pairs(vec![(b("A"), b("1")), (b("AB"), b("2"))]).is_some());
}

#[test]
fn get_finds_values() {
    let e = env(&[("A", "1"), ("DIRENV_WATCHES", "w")]);
    assert_eq!(e.get(b"DIRENV_WATCHES"), Some(&b("w")));
    assert_eq!(e.get(b"B"), None);
}

#[test]
fn snapshot_encoding_round_trips() {
    let e = env(&[("A", "1"), ("B", "two words")]);
    let bytes = e.encode().unwrap();
    let back = Env::decode(&bytes).unwrap();
    assert_eq!(back.vars, e.vars);
    assert!(Env::decode(&[1, 2, 3]).is_none());
}

#[test]
fn byte_names_that_are_not_text_are_ordered_bytewise() {
    let before = Env::from_pairs(vec![(vec![0x41], b("1")), (vec![0xff, 0x00], b("2"))]).unwrap();
    let after = Env::from_pairs(vec![(vec![0x41], b("1"))]).unwrap();
    let d = diff(&before, &after);
    assert_eq!(d.changes.len(), 1);
    assert!(matches!(&d.changes[0], Change::Removed(k, _) if k == &vec![0xff, 0x00]));
}
