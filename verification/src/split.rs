//! Framing of the tab-delimited source files.
//!
//! A source file is a sequence of lines separated by `\n`; each line is a
//! sequence of fields separated by `\t`.  A trailing `\r` on a line is
//! discarded and fully empty lines are ignored, so files with either line
//! ending and with or without a final newline read the same.

use vstd::prelude::*;

verus! {

pub const NEWLINE: u8 = 10;

pub const CARRIAGE_RETURN: u8 = 13;

pub const TAB: u8 = 9;

/// The views of a sequence of byte vectors.
pub open spec fn views(v: Seq<Vec<u8>>) -> Seq<Seq<u8>> {
    v.map_values(|x: Vec<u8>| x@)
}

/// Split on a separator byte.  Always yields one more piece than there
/// are separators; pieces do not contain the separator.
pub open spec fn split_bytes(s: Seq<u8>, sep: u8) -> Seq<Seq<u8>>
    decreases s.len(),
{
    if s.len() == 0 {
        seq![Seq::<u8>::empty()]
    } else {
        let prev = split_bytes(s.drop_last(), sep);
        if s.last() == sep {
            prev.push(Seq::<u8>::empty())
        } else {
            prev.update(prev.len() - 1, prev.last().push(s.last()))
        }
    }
}

proof fn lemma_split_bytes_nonempty(s: Seq<u8>, sep: u8)
    ensures
        split_bytes(s, sep).len() >= 1,
    decreases s.len(),
{
    if s.len() > 0 {
        lemma_split_bytes_nonempty(s.drop_last(), sep);
    }
}

/// A line without its trailing carriage return, if it has one.
pub open spec fn strip_cr(l: Seq<u8>) -> Seq<u8> {
    if l.len() > 0 && l.last() == CARRIAGE_RETURN {
        l.drop_last()
    } else {
        l
    }
}

/// Lines stripped of a trailing carriage return, empty lines dropped.
pub open spec fn clean_of(ls: Seq<Seq<u8>>) -> Seq<Seq<u8>>
    decreases ls.len(),
{
    if ls.len() == 0 {
        Seq::empty()
    } else {
        let prev = clean_of(ls.drop_last());
        let l = strip_cr(ls.last());
        if l.len() > 0 {
            prev.push(l)
        } else {
            prev
        }
    }
}

/// The logical lines of a source file.
pub open spec fn clean_lines(data: Seq<u8>) -> Seq<Seq<u8>> {
    clean_of(split_bytes(data, NEWLINE))
}

/// Splits a byte vector on a separator byte.
pub fn split_bytes_exec(data: &Vec<u8>, sep: u8) -> (r: Vec<Vec<u8>>)
    ensures
        views(r@) == split_bytes(data@, sep),
{
    let mut pieces: Vec<Vec<u8>> = Vec::new();
    let mut cur: Vec<u8> = Vec::new();
    let mut i: usize = 0;
    while i < data.len()
        invariant
            0 <= i <= data@.len(),
            views(pieces@).push(cur@) =~= split_bytes(data@.subrange(0, i as int), sep),
        decreases data@.len() - i,
    {
        let b = data[i];
        proof {
            assert(data@.subrange(0, i + 1).drop_last() =~= data@.subrange(0, i as int));
            assert(data@.subrange(0, i + 1).last() == data@[i as int]);
        }
        let ghost old_pieces = pieces@;
        let ghost old_cur = cur@;
        if b == sep {
            pieces.push(cur);
            cur = Vec::new();
            proof {
                assert(views(pieces@) =~= views(old_pieces).push(old_cur));
                assert(views(pieces@).push(cur@) =~= split_bytes(
                    data@.subrange(0, i + 1),
                    sep,
                ));
            }
        } else {
            cur.push(b);
            proof {
                let prev = split_bytes(data@.subrange(0, i as int), sep);
                assert(prev.last() == old_cur);
                assert(views(pieces@).push(cur@) =~= prev.update(
                    prev.len() - 1,
                    prev.last().push(b),
                ));
            }
        }
        i = i + 1;
    }
    proof {
        assert(data@.subrange(0, data@.len() as int) =~= data@);
    }
    pieces.push(cur);
    proof {
        assert(views(pieces@) =~= split_bytes(data@, sep));
    }
    pieces
}

/// Splits a source file into its logical lines.
pub fn clean_lines_exec(data: &Vec<u8>) -> (r: Vec<Vec<u8>>)
    ensures
        views(r@) == clean_lines(data@),
{
    let raw = split_bytes_exec(data, NEWLINE);
    let mut out: Vec<Vec<u8>> = Vec::new();
    let mut idx: usize = 0;
    while idx < raw.len()
        invariant
            0 <= idx <= raw@.len(),
            views(raw@) == split_bytes(data@, NEWLINE),
            views(out@) =~= clean_of(views(raw@).subrange(0, idx as int)),
        decreases raw@.len() - idx,
    {
        let line = &raw[idx];
        let keep_len: usize = if line.len() > 0 && line[line.len() - 1] == CARRIAGE_RETURN {
            line.len() - 1
        } else {
            line.len()
        };
        proof {
            assert(strip_cr(line@) =~= line@.subrange(0, keep_len as int));
        }
        if keep_len > 0 {
            let mut stripped: Vec<u8> = Vec::new();
            let mut k: usize = 0;
            while k < keep_len
                invariant
                    0 <= k <= keep_len <= line@.len(),
                    stripped@ =~= line@.subrange(0, k as int),
                decreases keep_len - k,
            {
                stripped.push(line[k]);
                proof {
                    assert(stripped@ =~= line@.subrange(0, k + 1));
                }
                k = k + 1;
            }
            out.push(stripped);
        }
        proof {
            let ls = views(raw@).subrange(0, idx + 1);
            assert(ls.drop_last() =~= views(raw@).subrange(0, idx as int));
            assert(ls.last() == line@);
            assert(views(out@) =~= clean_of(ls));
        }
        idx = idx + 1;
    }
    proof {
        assert(views(raw@).subrange(0, raw@.len() as int) =~= views(raw@));
    }
    out
}

} // verus!
