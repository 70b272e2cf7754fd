//! The shell text that the hook writes: chunks with a banner, exports and
//! unsets, and watch directives.
use vstd::prelude::*;
use crate::bash::{escape, escaped};
use vstd::string::StringSliceAdditionalSpecFns;
use crate::env::{excluded, ChangeView, Change, Diff};

verus! {

pub const NEWLINE: u8 = 10;

pub const EQUALS: u8 = 61;

pub const DIRENV_PREFIX: &'static str = "DIRENV_";

pub const SSH_PREFIX: &'static str = "SSH_";

pub const EXPORT: &'static str = "export ";

pub const UNSET: &'static str = "unset ";

pub const BANNER: &'static str = "### ";

pub const WATCH_FILE: &'static str = "watch_file ";

/// Appends bytes at the end of `out`.
pub fn append_bytes(out: &mut Vec<u8>, b: &[u8])
    ensures
        final(out)@ == old(out)@ + b@,
{
    let mut i: usize = 0;
    while i < b.len()
        invariant
            i <= b.len(),
            out@ == old(out)@ + b@.subrange(0, i as int),
        decreases b.len() - i,
    {
        out.push(b[i]);
        assert(b@.subrange(0, i + 1) =~= b@.subrange(0, i as int).push(b[i as int]));
        assert(out@ =~= old(out)@ + b@.subrange(0, i + 1));
        i = i + 1;
    }
    assert(b@.subrange(0, i as int) =~= b@);
}

/// `export NAME='VALUE'` and a newline.
pub open spec fn export_line(k: Seq<u8>, v: Seq<u8>) -> Seq<u8> {
    EXPORT.spec_bytes() + escaped(k) + seq![EQUALS] + escaped(v) + seq![NEWLINE]
}

/// The line that applies one change: an export of the new value, or an unset.
pub open spec fn dump_line(c: ChangeView) -> Seq<u8> {
    match c {
        ChangeView::Added(k, v) => export_line(k, v),
        ChangeView::Changed(k, _, v) => export_line(k, v),
        ChangeView::Removed(k, _) => UNSET.spec_bytes() + escaped(k) + seq![NEWLINE],
    }
}

pub open spec fn dump_lines(d: Seq<ChangeView>) -> Seq<u8>
    decreases d.len(),
{
    if d.len() == 0 {
        Seq::empty()
    } else {
        dump_lines(d.drop_last()) + dump_line(d.last())
    }
}

/// The changes of `d` that the shell is shown: none for the loader's own
/// variables or for SSH session variables.
pub open spec fn shown(d: Seq<ChangeView>) -> Seq<ChangeView> {
    excluded(excluded(d, DIRENV_PREFIX.spec_bytes()), SSH_PREFIX.spec_bytes())
}

/// Appends the export line of a name and value.
pub fn push_export(out: &mut Vec<u8>, k: &[u8], v: &[u8])
    ensures
        final(out)@ == old(out)@ + export_line(k@, v@),
{
    append_bytes(out, EXPORT.as_bytes());
    append_bytes(out, escape(k).as_slice());
    out.push(EQUALS);
    append_bytes(out, escape(v).as_slice());
    out.push(NEWLINE);
    assert(final(out)@ =~= old(out)@ + export_line(k@, v@));
}

/// The shell lines that apply a diff, one per change in order, leaving out
/// the loader's own variables and SSH session variables.
pub fn env_diff_dump(diff: &Diff) -> (r: Vec<u8>)
    ensures
        r@ == dump_lines(shown(diff@)),
{
    let d = diff.exclude_by_prefix(DIRENV_PREFIX.as_bytes()).exclude_by_prefix(SSH_PREFIX.as_bytes());
    let mut out: Vec<u8> = Vec::new();
    let mut i: usize = 0;
    while i < d.changes.len()
        invariant
            i <= d.changes.len(),
            d@ == shown(diff@),
            out@ == dump_lines(d@.subrange(0, i as int)),
        decreases d.changes.len() - i,
    {
        let ghost start = out@;
        match &d.changes[i] {
            Change::Added(k, v) => push_export(&mut out, k.as_slice(), v.as_slice()),
            Change::Changed(k, _, v) => push_export(&mut out, k.as_slice(), v.as_slice()),
            Change::Removed(k, _) => {
                append_bytes(&mut out, UNSET.as_bytes());
                append_bytes(&mut out, escape(k.as_slice()).as_slice());
                out.push(NEWLINE);
                assert(out@ =~= start + dump_line(d.changes@[i as int]@));
            },
        }
        proof {
            let sub = d@.subrange(0, i + 1);
            assert(sub.drop_last() =~= d@.subrange(0, i as int));
            assert(sub.last() == d.changes@[i as int]@);
            assert(out@ =~= dump_lines(sub));
        }
        i = i + 1;
    }
    assert(d@.subrange(0, i as int) =~= d@);
    out
}

/// A chunk: a banner line with the title, the body, and a blank line.
pub open spec fn chunk_of(title: Seq<u8>, body: Seq<u8>) -> Seq<u8> {
    BANNER.spec_bytes() + title + seq![NEWLINE] + body + seq![NEWLINE]
}

/// Appends a chunk with a one-line title.
pub fn push_chunk(out: &mut Vec<u8>, title: &[u8], body: &[u8])
    ensures
        final(out)@ == old(out)@ + chunk_of(title@, body@),
{
    append_bytes(out, BANNER.as_bytes());
    append_bytes(out, title);
    out.push(NEWLINE);
    append_bytes(out, body);
    out.push(NEWLINE);
    assert(final(out)@ =~= old(out)@ + chunk_of(title@, body@));
}

/// `watch_file 'PATH'` and a newline.
pub open spec fn watch_line(path: Seq<u8>) -> Seq<u8> {
    WATCH_FILE.spec_bytes() + escaped(path) + seq![NEWLINE]
}

pub open spec fn watch_lines(paths: Seq<Seq<u8>>) -> Seq<u8>
    decreases paths.len(),
{
    if paths.len() == 0 {
        Seq::empty()
    } else {
        watch_lines(paths.drop_last()) + watch_line(paths.last())
    }
}

/// The watch directive for one file.
pub fn watch(path: &[u8]) -> (r: Vec<u8>)
    ensures
        r@ == watch_line(path@),
{
    let mut out: Vec<u8> = Vec::new();
    append_bytes(&mut out, WATCH_FILE.as_bytes());
    append_bytes(&mut out, escape(path).as_slice());
    out.push(NEWLINE);
    assert(out@ =~= watch_line(path@));
    out
}

/// The watch directives for the files, in order.
pub fn watches(paths: &Vec<Vec<u8>>) -> (r: Vec<u8>)
    ensures
        r@ == watch_lines(paths@.map_values(|p: Vec<u8>| p@)),
{
    let ghost ps = paths@.map_values(|p: Vec<u8>| p@);
    let mut out: Vec<u8> = Vec::new();
    let mut i: usize = 0;
    while i < paths.len()
        invariant
            i <= paths.len(),
            ps == paths@.map_values(|p: Vec<u8>| p@),
            out@ == watch_lines(ps.subrange(0, i as int)),
        decreases paths.len() - i,
    {
        let w = watch(paths[i].as_slice());
        append_bytes(&mut out, w.as_slice());
        proof {
            let sub = ps.subrange(0, i + 1);
            assert(sub.drop_last() =~= ps.subrange(0, i as int));
            assert(sub.last() == paths@[i as int]@);
        }
        i = i + 1;
    }
    assert(ps.subrange(0, i as int) =~= ps);
    out
}

} // verus!
