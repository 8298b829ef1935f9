//! Year-suffix assignment.
//!
//! References that share an author-and-year collision key and appear in
//! a cluster are partitioned by that key, and each partition with more
//! than one member has suffixes assigned in ascending order of the
//! references' natural sort keys: the first gets "a", the next "b", and
//! so on. Entries whose sort keys compare equal keep their list order.

use vstd::prelude::*;
use core::cmp::Ordering;
use crate::natural_sort::{chars_to_string, natural_cmp, spec_natural_cmp};

verus! {

/// One cited reference under consideration for a year suffix: its id,
/// the author-and-year key under which it may collide, and its sort
/// key.
#[derive(Debug)]
pub struct YearSuffixEntry {
    pub ref_id: String,
    pub collision_key: String,
    pub sort_key: String,
}

/// The text of an entry list: (reference id, collision key, sort key)
/// triples.
pub open spec fn entries_view(s: Seq<YearSuffixEntry>) -> Seq<(Seq<char>, Seq<char>, Seq<char>)> {
    s.map_values(|e: YearSuffixEntry| (e.ref_id@, e.collision_key@, e.sort_key@))
}

/// Whether some other entry shares this entry's collision key: only
/// colliding references get a suffix.
pub open spec fn spec_collides(entries: Seq<(Seq<char>, Seq<char>, Seq<char>)>, i: int) -> bool {
    exists|j: int| 0 <= j < entries.len() && j != i && (#[trigger] entries[j]).1 == entries[i].1
}

/// How many entries of the same partition sort strictly before entry
/// `i`: entries with a smaller sort key, and earlier entries whose sort
/// key compares equal. This is the suffix index ("a" is index zero).
pub open spec fn spec_rank(entries: Seq<(Seq<char>, Seq<char>, Seq<char>)>, i: int) -> int {
    spec_rank_upto(entries, i, entries.len() as int)
}

/// The rank contribution of entries `0 .. k`.
pub open spec fn spec_rank_upto(
    entries: Seq<(Seq<char>, Seq<char>, Seq<char>)>,
    i: int,
    k: int,
) -> int
    decreases k,
{
    if k <= 0 {
        0
    } else {
        let before = spec_rank_upto(entries, i, k - 1);
        if k - 1 != i && entries[k - 1].1 == entries[i].1 && spec_sorts_before(entries, k - 1, i) {
            before + 1
        } else {
            before
        }
    }
}

/// Whether entry `j` sorts before entry `i`: a smaller sort key, or an
/// equal sort key and an earlier position.
pub open spec fn spec_sorts_before(
    entries: Seq<(Seq<char>, Seq<char>, Seq<char>)>,
    j: int,
    i: int,
) -> bool {
    spec_natural_cmp(entries[j].2, entries[i].2) == Ordering::Less || (spec_natural_cmp(
        entries[j].2,
        entries[i].2,
    ) == Ordering::Equal && j < i)
}

/// The assignments over the first `k` entries.
pub open spec fn spec_assignments_upto(
    entries: Seq<(Seq<char>, Seq<char>, Seq<char>)>,
    k: int,
) -> Seq<(Seq<char>, int)>
    decreases k,
{
    if k <= 0 {
        Seq::empty()
    } else {
        let rest = spec_assignments_upto(entries, k - 1);
        if spec_collides(entries, k - 1) {
            rest.push((entries[k - 1].0, spec_rank(entries, k - 1)))
        } else {
            rest
        }
    }
}

/// The year-suffix assignments: every colliding entry paired with its
/// suffix index, in list order.
pub open spec fn spec_year_suffixes(entries: Seq<(Seq<char>, Seq<char>, Seq<char>)>) -> Seq<
    (Seq<char>, int),
> {
    spec_assignments_upto(entries, entries.len() as int)
}

/// Assign year suffixes: each reference that shares its author-and-year
/// key with another gets the index of its sort key within the
/// partition.
pub fn year_suffixes(entries: &Vec<YearSuffixEntry>) -> (r: Vec<(String, usize)>)
    ensures
        r@.map_values(|p: (String, usize)| (p.0@, p.1 as int)) == spec_year_suffixes(
            entries_view(entries@),
        ),
{
    let ghost ev = entries_view(entries@);
    let mut out: Vec<(String, usize)> = Vec::new();
    let mut i: usize = 0;
    proof {
        assert(out@.map_values(|p: (String, usize)| (p.0@, p.1 as int)) =~= spec_assignments_upto(
            ev,
            0,
        ));
    }
    while i < entries.len()
        invariant
            i <= entries@.len(),
            ev == entries_view(entries@),
            out@.map_values(|p: (String, usize)| (p.0@, p.1 as int)) == spec_assignments_upto(
                ev,
                i as int,
            ),
        decreases entries@.len() - i,
    {
        let collides = entry_collides(entries, i);
        if collides {
            let rank = entry_rank(entries, i);
            let ghost pre = out@;
            out.push((clone_string(&entries[i].ref_id), rank));
            proof {
                assert(out@.drop_last() =~= pre);
                assert(out@.map_values(|p: (String, usize)| (p.0@, p.1 as int)) =~= pre.map_values(
                    |p: (String, usize)| (p.0@, p.1 as int),
                ).push((out@.last().0@, out@.last().1 as int)));
            }
        }
        i = i + 1;
    }
    out
}

/// Whether some other entry shares entry `i`'s collision key.
fn entry_collides(entries: &Vec<YearSuffixEntry>, i: usize) -> (r: bool)
    requires
        i < entries@.len(),
    ensures
        r == spec_collides(entries_view(entries@), i as int),
{
    let ghost ev = entries_view(entries@);
    let mut j: usize = 0;
    while j < entries.len()
        invariant
            i < entries@.len(),
            j <= entries@.len(),
            ev == entries_view(entries@),
            forall|k: int| 0 <= k < j ==> !(k != i && (#[trigger] ev[k]).1 == ev[i as int].1),
        decreases entries@.len() - j,
    {
        if j != i && entries[j].collision_key.eq(&entries[i].collision_key) {
            proof {
                assert(ev[j as int].1 == ev[i as int].1);
            }
            return true;
        }
        j = j + 1;
    }
    false
}

/// The number of same-partition entries that sort before entry `i`.
fn entry_rank(entries: &Vec<YearSuffixEntry>, i: usize) -> (r: usize)
    requires
        i < entries@.len(),
    ensures
        r == spec_rank(entries_view(entries@), i as int),
{
    let ghost ev = entries_view(entries@);
    let mut count: usize = 0;
    let mut j: usize = 0;
    while j < entries.len()
        invariant
            i < entries@.len(),
            j <= entries@.len(),
            ev == entries_view(entries@),
            count == spec_rank_upto(ev, i as int, j as int),
            count <= j,
        decreases entries@.len() - j,
    {
        if j != i && entries[j].collision_key.eq(&entries[i].collision_key) {
            let cmp = natural_cmp(entries[j].sort_key.as_str(), entries[i].sort_key.as_str());
            let before = match cmp {
                Ordering::Less => true,
                Ordering::Equal => j < i,
                Ordering::Greater => false,
            };
            if before {
                count = count + 1;
            }
        }
        j = j + 1;
    }
    count
}

/// The letters of a suffix index: "a" for zero through "z", then "aa",
/// "ab", and so on.
pub open spec fn spec_suffix_letters(n: int) -> Seq<char>
    decreases n,
{
    if n < 26 {
        seq![(97 + n) as char]
    } else {
        spec_suffix_letters(n / 26 - 1) + seq![(97 + n % 26) as char]
    }
}

/// Render a suffix index as its letters.
pub fn year_suffix_letters(n: usize) -> (r: String)
    ensures
        r@ == spec_suffix_letters(n as int),
{
    let v = suffix_letter_chars(n);
    chars_to_string(&v)
}

fn suffix_letter_chars(n: usize) -> (r: Vec<char>)
    ensures
        r@ == spec_suffix_letters(n as int),
    decreases n,
{
    if n < 26 {
        let b: u8 = 97 + (n as u8);
        let c = b as char;
        let mut v: Vec<char> = Vec::new();
        v.push(c);
        proof {
            assert(v@ =~= spec_suffix_letters(n as int));
        }
        v
    } else {
        let mut v = suffix_letter_chars(n / 26 - 1);
        let b: u8 = 97 + ((n % 26) as u8);
        let c = b as char;
        v.push(c);
        proof {
            assert(v@ =~= spec_suffix_letters(n as int));
        }
        v
    }
}

fn clone_string(s: &String) -> (r: String)
    ensures
        r@ == s@,
{
    s.clone()
}

} // verus!
