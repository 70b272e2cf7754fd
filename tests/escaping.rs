use firstaide::bash::escape;

fn esc(s: &[u8]) -> String {
    String::from_utf8(escape(s)).unwrap()
}

/// Reads a word built of single-quoted runs and backslash escapes, as a POSIX
/// shell does in an assignment.
fn read_word(s: &[u8]) -> Vec<u8> {
    let mut out = Vec::new();
    let mut i = 0;
    let mut quoted = false;
    while i < s.len() {
        let c = s[i];
        if quoted {
            if c == b'\'' {
                quoted = false;
            } else {
                out.push(c);
            }
        } else if c == b'\'' {
            quoted = true;
        } else if c == b'\\' && i + 1 < s.len() {
            i += 1;
            out.push(s[i]);
        } else {
            out.push(c);
        }
        i += 1;
    }
    out
}

#[test]
fn escape_plain_value() {
    assert_eq!(esc(b"hello"), "'hello'");
    assert_eq!(esc(b""), "''");
}

#[test]
fn escape_single_quote() {
    assert_eq!(esc(b"it's"), "'it'\\''s'");
    assert_eq!(esc(b"'"), "''\\'''");
}

#[test]
fn escape_leaves_shell_syntax_inert() {
    assert_eq!(esc(b"$(rm -rf /)"), "'$(rm -rf /)'");
    assert_eq!(esc(b"`id`"), "'`id`'");
    assert_eq!(esc(b"a\nb"), "'a\nb'");
    assert_eq!(esc(b"$HOME and ${X}"), "'$HOME and ${X}'");
}

#[test]
fn escape_round_trips_through_shell_reading() {
    let cases: Vec<Vec<u8>> = vec![
        b"plain".to_vec(),
        b"it's".to_vec(),
        b"''".to_vec(),
        b"$(echo pwned)`id`\n\t;|&".to_vec(),
        vec![0xff, 0x00, b'\'', 0x80],
        Vec::new(),
    ];
    for v in cases {
        assert_eq!(read_word(&escape(&v)), v);
    }
}
