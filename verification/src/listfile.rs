//! The old-proof list format: the paths of the proof files to aggregate or
//! check, one per line. Lines are split at line feeds, a trailing carriage
//! return is stripped from each, and blank lines are skipped.

use vstd::prelude::*;
use crate::codec::{views_of, copy_range};

verus! {

/// Index of the first line feed in a byte string, or its length if none.
pub open spec fn first_newline(s: Seq<u8>) -> nat
    decreases s.len(),
{
    if s.len() == 0 {
        0
    } else if s[0] == 10 {
        0
    } else {
        1 + first_newline(s.skip(1))
    }
}

/// `first_newline` is exactly the position of the first line feed.
pub proof fn lemma_first_newline_is(s: Seq<u8>, j: int)
    requires
        0 <= j <= s.len(),
        forall|k: int| 0 <= k < j ==> s[k] != 10,
        j < s.len() ==> s[j] == 10,
    ensures
        first_newline(s) == j,
    decreases s.len(),
{
    if s.len() == 0 {
    } else if s[0] == 10 {
        assert(j == 0);
    } else {
        assert(j > 0);
        let t = s.skip(1);
        assert forall|k: int| 0 <= k < j - 1 implies t[k] != 10 by {
            assert(t[k] == s[k + 1]);
        }
        if j - 1 < t.len() {
            assert(t[j - 1] == s[j]);
        }
        lemma_first_newline_is(t, j - 1);
    }
}

/// One line with a trailing carriage return removed.
pub open spec fn trimmed(l: Seq<u8>) -> Seq<u8> {
    if l.len() > 0 && l.last() == 13 {
        l.drop_last()
    } else {
        l
    }
}

/// The entries of a list file: its lines in order, carriage returns stripped,
/// blank lines skipped.
pub open spec fn list_entries(s: Seq<u8>) -> Seq<Seq<u8>>
    decreases s.len(),
{
    if s.len() == 0 {
        Seq::empty()
    } else {
        let i = first_newline(s) as int;
        if i >= s.len() {
            if trimmed(s).len() > 0 {
                seq![trimmed(s)]
            } else {
                Seq::empty()
            }
        } else {
            let line = trimmed(s.take(i));
            let rest = list_entries(s.skip(i + 1));
            if line.len() > 0 {
                seq![line] + rest
            } else {
                rest
            }
        }
    }
}

/// Splits a list file into its entries, in order.
pub fn parse_list_file(bytes: &Vec<u8>) -> (r: Vec<Vec<u8>>)
    ensures
        views_of(r@) == list_entries(bytes@),
{
    let mut out: Vec<Vec<u8>> = Vec::new();
    parse_list_from(bytes, 0, &mut out);
    proof {
        assert(bytes@.skip(0) =~= bytes@);
        assert(views_of(out@) =~= list_entries(bytes@));
    }
    out
}

fn parse_list_from(bytes: &Vec<u8>, pos: usize, out: &mut Vec<Vec<u8>>)
    requires
        pos <= bytes@.len(),
    ensures
        views_of(final(out)@) =~= views_of(old(out)@) + list_entries(bytes@.skip(pos as int)),
    decreases bytes@.len() - pos,
{
    let ghost base = out@;
    let total = bytes.len();
    if pos >= total {
        proof {
            assert(bytes@.skip(pos as int) =~= Seq::<u8>::empty());
            assert(views_of(out@) =~= views_of(base) + list_entries(bytes@.skip(pos as int)));
        }
        return;
    }
    let ghost tail = bytes@.skip(pos as int);
    let mut j: usize = pos;
    while j < total && bytes[j] != 10
        invariant
            pos <= j <= total,
            total == bytes@.len(),
            forall|k: int| pos <= k < j ==> bytes@[k] != 10,
        decreases total - j,
    {
        j = j + 1;
    }
    proof {
        assert forall|k: int| 0 <= k < j - pos implies tail[k] != 10 by {
            assert(tail[k] == bytes@[pos + k]);
        }
        if j < total {
            assert(tail[j - pos] == bytes@[j as int]);
        }
        lemma_first_newline_is(tail, j - pos);
        assert(tail.take(j - pos) =~= bytes@.subrange(pos as int, j as int));
    }
    let mut line = copy_range(bytes, pos, j - pos);
    if line.len() > 0 && line[line.len() - 1] == 13 {
        line.pop();
    }
    proof {
        assert(line@ =~= trimmed(tail.take(j - pos)));
    }
    let ghost linev = line@;
    if line.len() > 0 {
        out.push(line);
    }
    if j < total {
        proof {
            assert(tail.skip(j - pos + 1) =~= bytes@.skip(j + 1));
        }
        let ghost mid = out@;
        parse_list_from(bytes, j + 1, out);
        proof {
            let rest = list_entries(bytes@.skip(j + 1));
            assert(list_entries(tail.skip(j - pos + 1)) == rest);
            if linev.len() > 0 {
                assert(views_of(mid) =~= views_of(base).push(linev));
                assert(list_entries(tail) == seq![linev] + rest);
                assert(views_of(out@) =~= views_of(base) + list_entries(tail));
            } else {
                assert(views_of(mid) =~= views_of(base));
                assert(list_entries(tail) == rest);
                assert(views_of(out@) =~= views_of(base) + list_entries(tail));
            }
        }
    } else {
        proof {
            assert(tail.take(j - pos) =~= tail);
            if linev.len() > 0 {
                assert(views_of(out@) =~= views_of(base).push(linev));
                assert(list_entries(tail) =~= seq![linev]);
                assert(views_of(out@) =~= views_of(base) + list_entries(tail));
            } else {
                assert(list_entries(tail) =~= Seq::<Seq<u8>>::empty());
                assert(views_of(out@) =~= views_of(base) + list_entries(tail));
            }
        }
    }
}

} // verus!
