//! Quoting of arbitrary bytes as single-quoted POSIX shell words.
use vstd::prelude::*;

verus! {

pub const QUOTE: u8 = 39;

pub const BACKSLASH: u8 = 92;

/// What one byte of the value becomes inside the quotes: a quote closes the
/// quoted run, is given as `\'`, and a new run opens.
pub open spec fn quoted_piece(c: u8) -> Seq<u8> {
    if c == QUOTE {
        seq![QUOTE, BACKSLASH, QUOTE, QUOTE]
    } else {
        seq![c]
    }
}

pub open spec fn quoted_body(v: Seq<u8>) -> Seq<u8>
    decreases v.len(),
{
    if v.len() == 0 {
        Seq::empty()
    } else {
        quoted_piece(v[0]) + quoted_body(v.drop_first())
    }
}

/// The shell word that stands for `v`: `'...'`, each `'` of `v` given as `'\''`.
pub open spec fn escaped(v: Seq<u8>) -> Seq<u8> {
    seq![QUOTE] + quoted_body(v) + seq![QUOTE]
}

/// The value a shell reads from `s`, standing inside a single-quoted run:
/// every byte is literal up to the closing quote.
pub open spec fn word_in_quotes(s: Seq<u8>) -> Seq<u8>
    decreases s.len(), 1nat,
{
    if s.len() == 0 {
        Seq::empty()
    } else if s[0] == QUOTE {
        word_value(s.drop_first())
    } else {
        seq![s[0]] + word_in_quotes(s.drop_first())
    }
}

/// The value a shell reads from the word `s` outside quotes: a quote opens a
/// single-quoted run, a backslash makes the next byte literal.
pub open spec fn word_value(s: Seq<u8>) -> Seq<u8>
    decreases s.len(), 0nat,
{
    if s.len() == 0 {
        Seq::empty()
    } else if s[0] == QUOTE {
        word_in_quotes(s.drop_first())
    } else if s[0] == BACKSLASH && s.len() >= 2 {
        seq![s[1]] + word_value(s.subrange(2, s.len() as int))
    } else {
        seq![s[0]] + word_value(s.drop_first())
    }
}

proof fn lemma_quoted_body_push(a: Seq<u8>, c: u8)
    ensures
        quoted_body(a.push(c)) == quoted_body(a) + quoted_piece(c),
    decreases a.len(),
{
    if a.len() == 0 {
        assert(a.push(c).drop_first() =~= Seq::<u8>::empty());
        assert(a.push(c)[0] == c);
        assert(quoted_body(Seq::<u8>::empty()) == Seq::<u8>::empty());
        assert(quoted_body(a) == Seq::<u8>::empty());
        assert(quoted_body(a.push(c)) =~= quoted_body(a) + quoted_piece(c));
    } else {
        assert(a.push(c).drop_first() =~= a.drop_first().push(c));
        lemma_quoted_body_push(a.drop_first(), c);
        assert(quoted_body(a.push(c)) =~= quoted_body(a) + quoted_piece(c));
    }
}

proof fn lemma_read_quoted(v: Seq<u8>, t: Seq<u8>)
    ensures
        word_in_quotes(quoted_body(v) + seq![QUOTE] + t) == v + word_value(t),
    decreases v.len(),
{
    let s = quoted_body(v) + seq![QUOTE] + t;
    if v.len() == 0 {
        assert(s =~= seq![QUOTE] + t);
        assert(s.drop_first() =~= t);
        assert(s[0] == QUOTE);
        assert(quoted_body(v) == Seq::<u8>::empty());
        assert(v + word_value(t) =~= word_value(t));
    } else {
        let rest = v.drop_first();
        let x = quoted_body(rest) + seq![QUOTE] + t;
        lemma_read_quoted(rest, t);
        assert(s =~= quoted_piece(v[0]) + x);
        if v[0] == QUOTE {
            let s1 = s.drop_first();
            let s2 = s1.subrange(2, s1.len() as int);
            assert(s[0] == QUOTE);
            assert(s1[0] == BACKSLASH);
            assert(s1[1] == QUOTE);
            assert(s2 =~= seq![QUOTE] + x);
            assert(s2[0] == QUOTE);
            assert(s2.drop_first() =~= x);
            assert(word_in_quotes(s) == word_value(s1));
            assert(word_value(s1) == seq![QUOTE] + word_value(s2));
            assert(word_value(s2) == word_in_quotes(x));
            assert(v =~= seq![QUOTE] + rest);
            assert(v + word_value(t) =~= seq![QUOTE] + (rest + word_value(t)));
        } else {
            assert(s.drop_first() =~= x);
            assert(s[0] == v[0]);
            assert(word_in_quotes(s) == seq![v[0]] + word_in_quotes(x));
            assert(v =~= seq![v[0]] + rest);
            assert(v + word_value(t) =~= seq![v[0]] + (rest + word_value(t)));
        }
    }
}

/// Reading the escaped form of any byte string back as a shell word gives
/// exactly that byte string, whatever quotes, `$`, backticks or newlines it holds.
pub proof fn lemma_escape_round_trip(v: Seq<u8>)
    ensures
        word_value(escaped(v)) == v,
{
    let e = escaped(v);
    assert(e.drop_first() =~= quoted_body(v) + seq![QUOTE] + Seq::<u8>::empty());
    lemma_read_quoted(v, Seq::empty());
    assert(v + Seq::<u8>::empty() =~= v);
}

/// Quotes `v` as a single shell word.
pub fn escape(v: &[u8]) -> (r: Vec<u8>)
    ensures
        r@ == escaped(v@),
{
    let mut out: Vec<u8> = Vec::new();
    out.push(QUOTE);
    let mut i: usize = 0;
    while i < v.len()
        invariant
            i <= v.len(),
            out@ == seq![QUOTE] + quoted_body(v@.subrange(0, i as int)),
        decreases v.len() - i,
    {
        proof {
            assert(v@.subrange(0, i + 1) =~= v@.subrange(0, i as int).push(v[i as int]));
            lemma_quoted_body_push(v@.subrange(0, i as int), v[i as int]);
        }
        if v[i] == QUOTE {
            out.push(QUOTE);
            out.push(BACKSLASH);
            out.push(QUOTE);
            out.push(QUOTE);
        } else {
            out.push(v[i]);
        }
        proof {
            assert(out@ =~= seq![QUOTE] + quoted_body(v@.subrange(0, i + 1)));
        }
        i = i + 1;
    }
    out.push(QUOTE);
    assert(v@.subrange(0, i as int) =~= v@);
    assert(out@ =~= escaped(v@));
    out
}

} // verus!
