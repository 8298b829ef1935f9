//! Position resolution.
//!
//! Walking the clusters in document order, every cite is assigned a
//! position: `First` when its reference has not been cited before;
//! `Ibid` when the immediately preceding cite in document order cites
//! the same reference with the same locator, `IbidWithLocator` when the
//! locator differs; otherwise `Subsequent`, refined in note styles to
//! `NearNote` or `FarNote` by the distance in note numbers to the first
//! citation of the reference against the style's near-note threshold.
//! Alongside the position, each cite resolves its
//! first-reference-note-number: the note of the first earlier cluster
//! citing the same reference, or nothing.

use vstd::prelude::*;
use crate::cite::{Cite, Cluster, Locator, spec_note_of, note_of};
use crate::style_types::Position;

verus! {

/// One entry of the first-citation record: a reference id and the note
/// number (if any) of its first citation.
pub struct SeenEntry {
    pub ref_id: String,
    pub first_note: Option<u32>,
}

/// The cite immediately preceding, for the ibid test: its reference id
/// and locator.
pub struct PrevCite {
    pub ref_id: String,
    pub locator: Option<Locator>,
}

/// Look up a reference in the first-citation record: the first entry
/// with the same id.
pub open spec fn spec_seen_lookup(seen: Seq<(Seq<char>, Option<u32>)>, rid: Seq<char>) -> Option<
    Option<u32>,
>
    decreases seen.len(),
{
    if seen.len() == 0 {
        Option::None
    } else if seen[0].0 == rid {
        Option::Some(seen[0].1)
    } else {
        spec_seen_lookup(seen.drop_first(), rid)
    }
}

/// The position one cite resolves to, given the record of first
/// citations, the immediately preceding cite, the cite's own reference
/// and locator, the current note number, and the near-note threshold.
pub open spec fn spec_cite_position(
    seen: Seq<(Seq<char>, Option<u32>)>,
    prev: Option<(Seq<char>, Option<Locator>)>,
    rid: Seq<char>,
    loc: Option<Locator>,
    note: Option<u32>,
    near_note_distance: u32,
) -> Position {
    match prev {
        Option::Some(p) => if p.0 == rid {
            if p.1 == loc {
                Position::Ibid
            } else {
                Position::IbidWithLocator
            }
        } else {
            spec_repeat_position(seen, rid, note, near_note_distance)
        },
        Option::None => spec_repeat_position(seen, rid, note, near_note_distance),
    }
}

/// The position of a repeat citation that is not an ibid: `Subsequent`,
/// refined to `NearNote` or `FarNote` by note distance when both notes
/// are known; `First` when the reference was never cited.
pub open spec fn spec_repeat_position(
    seen: Seq<(Seq<char>, Option<u32>)>,
    rid: Seq<char>,
    note: Option<u32>,
    near_note_distance: u32,
) -> Position {
    match spec_seen_lookup(seen, rid) {
        Option::Some(first) => match (first, note) {
            (Option::Some(fnote), Option::Some(n)) => if n >= fnote && n - fnote
                <= near_note_distance {
                Position::NearNote
            } else {
                Position::FarNote
            },
            _ => Position::Subsequent,
        },
        Option::None => Position::First,
    }
}

/// The first-reference-note-number one cite resolves to.
pub open spec fn spec_cite_first_note(
    seen: Seq<(Seq<char>, Option<u32>)>,
    rid: Seq<char>,
) -> Option<u32> {
    match spec_seen_lookup(seen, rid) {
        Option::Some(first) => first,
        Option::None => Option::None,
    }
}

/// The record after one cite: an unseen reference is recorded with the
/// current note.
pub open spec fn spec_seen_after(
    seen: Seq<(Seq<char>, Option<u32>)>,
    rid: Seq<char>,
    note: Option<u32>,
) -> Seq<(Seq<char>, Option<u32>)> {
    if spec_seen_lookup(seen, rid) is Some {
        seen
    } else {
        seen.push((rid, note))
    }
}

/// The positions of a whole cite list under accumulators, threading the
/// record and the previous cite through.
pub open spec fn spec_resolve_cites(
    cites: Seq<(Seq<char>, Option<Locator>)>,
    note: Option<u32>,
    seen: Seq<(Seq<char>, Option<u32>)>,
    prev: Option<(Seq<char>, Option<Locator>)>,
    near_note_distance: u32,
) -> (Seq<(Position, Option<u32>)>, Seq<(Seq<char>, Option<u32>)>, Option<
    (Seq<char>, Option<Locator>),
>)
    decreases cites.len(),
{
    if cites.len() == 0 {
        (Seq::empty(), seen, prev)
    } else {
        let rid = cites[0].0;
        let loc = cites[0].1;
        let pos = spec_cite_position(seen, prev, rid, loc, note, near_note_distance);
        let first = spec_cite_first_note(seen, rid);
        let seen2 = spec_seen_after(seen, rid, note);
        let rest = spec_resolve_cites(
            cites.drop_first(),
            note,
            seen2,
            Option::Some((rid, loc)),
            near_note_distance,
        );
        (seq![(pos, first)] + rest.0, rest.1, rest.2)
    }
}

/// The positions of every cite of every cluster, in document order.
pub open spec fn spec_resolve_clusters(
    clusters: Seq<(Option<u32>, Seq<(Seq<char>, Option<Locator>)>)>,
    seen: Seq<(Seq<char>, Option<u32>)>,
    prev: Option<(Seq<char>, Option<Locator>)>,
    near_note_distance: u32,
) -> Seq<Seq<(Position, Option<u32>)>>
    decreases clusters.len(),
{
    if clusters.len() == 0 {
        Seq::empty()
    } else {
        let r = spec_resolve_cites(clusters[0].1, clusters[0].0, seen, prev, near_note_distance);
        seq![r.0] + spec_resolve_clusters(
            clusters.drop_first(),
            r.1,
            r.2,
            near_note_distance,
        )
    }
}

/// The cite data the resolver reads from a cluster list.
pub open spec fn clusters_pos_view(clusters: Seq<Cluster>) -> Seq<
    (Option<u32>, Seq<(Seq<char>, Option<Locator>)>),
> {
    clusters.map_values(
        |c: Cluster|
            (
                spec_note_of(c.number),
                c.cites@.map_values(|ct: Cite| (ct.ref_id@, ct.locator)),
            ),
    )
}

/// The positions and first-reference-note-numbers of every cite of a
/// document's clusters.
pub open spec fn spec_positions(clusters: Seq<Cluster>, near_note_distance: u32) -> Seq<
    Seq<(Position, Option<u32>)>,
> {
    spec_resolve_clusters(
        clusters_pos_view(clusters),
        Seq::empty(),
        Option::None,
        near_note_distance,
    )
}

// ---------------------------------------------------------------------
// Executable resolver
// ---------------------------------------------------------------------

/// View of the first-citation record.
pub open spec fn seen_view(seen: Seq<SeenEntry>) -> Seq<(Seq<char>, Option<u32>)> {
    seen.map_values(|e: SeenEntry| (e.ref_id@, e.first_note))
}

/// View of the previous-cite record.
pub open spec fn prev_view(prev: Option<PrevCite>) -> Option<(Seq<char>, Option<Locator>)> {
    match prev {
        Option::Some(p) => Option::Some((p.ref_id@, p.locator)),
        Option::None => Option::None,
    }
}

fn seen_lookup(seen: &Vec<SeenEntry>, rid: &String) -> (r: Option<Option<u32>>)
    ensures
        r == spec_seen_lookup(seen_view(seen@), rid@),
{
    proof {
        assert(seen_view(seen@).skip(0) =~= seen_view(seen@));
    }
    let mut i: usize = 0;
    while i < seen.len()
        invariant
            i <= seen@.len(),
            spec_seen_lookup(seen_view(seen@), rid@) == spec_seen_lookup(
                seen_view(seen@).skip(i as int),
                rid@,
            ),
        decreases seen@.len() - i,
    {
        proof {
            assert(seen_view(seen@).skip(i as int)[0] == seen_view(seen@)[i as int]);
            assert(seen_view(seen@).skip(i as int).drop_first() =~= seen_view(seen@).skip(i + 1));
        }
        if seen[i].ref_id.eq(rid) {
            return Option::Some(seen[i].first_note);
        }
        i = i + 1;
    }
    proof {
        assert(seen_view(seen@).skip(i as int).len() == 0);
    }
    Option::None
}

/// Resolve the position of one cite and update the records; the
/// position is exactly what the rules of the resolver say for the
/// state so far.
fn cite_position_step(
    seen: &mut Vec<SeenEntry>,
    prev: &Option<PrevCite>,
    cite: &Cite,
    note: Option<u32>,
    near_note_distance: u32,
) -> (r: (Position, Option<u32>))
    ensures
        r.0 == spec_cite_position(
            seen_view(old(seen)@),
            prev_view(*prev),
            cite.ref_id@,
            cite.locator,
            note,
            near_note_distance,
        ),
        r.1 == spec_cite_first_note(seen_view(old(seen)@), cite.ref_id@),
        seen_view(final(seen)@) == spec_seen_after(seen_view(old(seen)@), cite.ref_id@, note),
{
    let looked = seen_lookup(seen, &cite.ref_id);
    let first: Option<u32> = match looked {
        Option::Some(f) => f,
        Option::None => Option::None,
    };
    let same_as_prev = match prev {
        Option::Some(p) => p.ref_id.eq(&cite.ref_id),
        Option::None => false,
    };
    let pos: Position = if same_as_prev {
        let prev_loc = match prev {
            Option::Some(p) => p.locator,
            Option::None => Option::None,
        };
        if prev_loc == cite.locator {
            Position::Ibid
        } else {
            Position::IbidWithLocator
        }
    } else {
        match looked {
            Option::Some(f) => {
                match (f, note) {
                    (Option::Some(fnote), Option::Some(n)) => {
                        if n >= fnote && n - fnote <= near_note_distance {
                            Position::NearNote
                        } else {
                            Position::FarNote
                        }
                    },
                    _ => Position::Subsequent,
                }
            },
            Option::None => Position::First,
        }
    };
    if looked.is_none() {
        let ghost prev_seen = seen@;
        seen.push(SeenEntry { ref_id: clone_string(&cite.ref_id), first_note: note });
        proof {
            assert(seen_view(seen@) =~= seen_view(prev_seen).push((cite.ref_id@, note)));
        }
    }
    (pos, first)
}

/// Resolve positions and first-reference-note-numbers for every cite of
/// every cluster, in document order.
pub fn resolve_positions(clusters: &Vec<Cluster>, near_note_distance: u32) -> (r: Vec<
    Vec<(Position, Option<u32>)>,
>)
    ensures
        r@.map_values(|v: Vec<(Position, Option<u32>)>| v@) == spec_positions(
            clusters@,
            near_note_distance,
        ),
{
    let mut seen: Vec<SeenEntry> = Vec::new();
    let mut prev: Option<PrevCite> = Option::None;
    let mut out: Vec<Vec<(Position, Option<u32>)>> = Vec::new();
    let mut ci: usize = 0;
    let ghost cv = clusters_pos_view(clusters@);
    proof {
        assert(out@.map_values(|v: Vec<(Position, Option<u32>)>| v@) =~= Seq::<
            Seq<(Position, Option<u32>)>,
        >::empty());
        assert(seen_view(seen@) =~= Seq::<(Seq<char>, Option<u32>)>::empty());
    }
    while ci < clusters.len()
        invariant
            ci <= clusters@.len(),
            cv == clusters_pos_view(clusters@),
            cv.len() == clusters@.len(),
            out@.len() == ci,
            ({
                let pre = spec_resolve_prefix(cv, ci as int, near_note_distance);
                &&& out@.map_values(|v: Vec<(Position, Option<u32>)>| v@) == pre.0
                &&& seen_view(seen@) == pre.1
                &&& prev_view(prev) == pre.2
            }),
        decreases clusters@.len() - ci,
    {
        let cluster = &clusters[ci];
        let note = note_of(cluster.number);
        let mut row: Vec<(Position, Option<u32>)> = Vec::new();
        let mut wi: usize = 0;
        let ghost cites_v = cv[ci as int].1;
        proof {
            assert(cites_v == cluster.cites@.map_values(|ct: Cite| (ct.ref_id@, ct.locator)));
            assert(cites_v.len() == cluster.cites@.len());
        }
        let ghost seen0 = seen_view(seen@);
        let ghost prev0 = prev_view(prev);
        proof {
            assert(cites_v.take(0) =~= Seq::<(Seq<char>, Option<Locator>)>::empty());
            assert(row@ =~= spec_resolve_cites(
                cites_v.take(0),
                note,
                seen0,
                prev0,
                near_note_distance,
            ).0);
        }
        while wi < cluster.cites.len()
            invariant
                wi <= cluster.cites@.len(),
                cites_v == cluster.cites@.map_values(|ct: Cite| (ct.ref_id@, ct.locator)),
                cites_v.len() == cluster.cites@.len(),
                note == spec_note_of(cluster.number),
                row@.len() == wi,
                ({
                    let pre = spec_resolve_cites(
                        cites_v.take(wi as int),
                        note,
                        seen0,
                        prev0,
                        near_note_distance,
                    );
                    &&& row@ == pre.0
                    &&& seen_view(seen@) == pre.1
                    &&& prev_view(prev) == pre.2
                }),
            decreases cluster.cites@.len() - wi,
        {
            let ghost pre_old = spec_resolve_cites(
                cites_v.take(wi as int),
                note,
                seen0,
                prev0,
                near_note_distance,
            );
            let cite = &cluster.cites[wi];
            proof {
                assert(cites_v[wi as int] == (cite.ref_id@, cite.locator));
            }
            let step = cite_position_step(&mut seen, &prev, cite, note, near_note_distance);
            row.push(step);
            prev = Option::Some(
                PrevCite { ref_id: clone_string(&cite.ref_id), locator: cite.locator },
            );
            wi = wi + 1;
            proof {
                lemma_resolve_cites_step(cites_v, wi as int, note, seen0, prev0, near_note_distance);
                assert(row@ =~= pre_old.0.push(
                    (
                        spec_cite_position(
                            pre_old.1,
                            pre_old.2,
                            cite.ref_id@,
                            cite.locator,
                            note,
                            near_note_distance,
                        ),
                        spec_cite_first_note(pre_old.1, cite.ref_id@),
                    ),
                ));
            }
        }
        proof {
            assert(cites_v.take(cites_v.len() as int) =~= cites_v);
        }
        let ghost out_pre = out@.map_values(|v: Vec<(Position, Option<u32>)>| v@);
        out.push(row);
        ci = ci + 1;
        proof {
            assert(out@.map_values(|v: Vec<(Position, Option<u32>)>| v@) =~= out_pre.push(
                out@.last()@,
            ));
            lemma_resolve_clusters_step(cv, ci as int, near_note_distance);
        }
    }
    proof {
        lemma_resolve_prefix_full(cv, near_note_distance);
    }
    out
}

/// The resolver's result and accumulators after the first `k` clusters.
pub open spec fn spec_resolve_prefix(
    clusters: Seq<(Option<u32>, Seq<(Seq<char>, Option<Locator>)>)>,
    k: int,
    near_note_distance: u32,
) -> (Seq<Seq<(Position, Option<u32>)>>, Seq<(Seq<char>, Option<u32>)>, Option<
    (Seq<char>, Option<Locator>),
>)
    decreases k,
{
    if k <= 0 {
        (Seq::empty(), Seq::empty(), Option::None)
    } else {
        let pre = spec_resolve_prefix(clusters, k - 1, near_note_distance);
        let r = spec_resolve_cites(
            clusters[k - 1].1,
            clusters[k - 1].0,
            pre.1,
            pre.2,
            near_note_distance,
        );
        (pre.0.push(r.0), r.1, r.2)
    }
}

/// One more cite extends the cite-level fold by one step.
proof fn lemma_resolve_cites_step(
    cites: Seq<(Seq<char>, Option<Locator>)>,
    k: int,
    note: Option<u32>,
    seen: Seq<(Seq<char>, Option<u32>)>,
    prev: Option<(Seq<char>, Option<Locator>)>,
    near_note_distance: u32,
)
    requires
        1 <= k <= cites.len(),
    ensures
        ({
            let pre = spec_resolve_cites(cites.take(k - 1), note, seen, prev, near_note_distance);
            let cur = spec_resolve_cites(cites.take(k), note, seen, prev, near_note_distance);
            let rid = cites[k - 1].0;
            let loc = cites[k - 1].1;
            &&& cur.0 == pre.0.push(
                (
                    spec_cite_position(pre.1, pre.2, rid, loc, note, near_note_distance),
                    spec_cite_first_note(pre.1, rid),
                ),
            )
            &&& cur.1 == spec_seen_after(pre.1, rid, note)
            &&& cur.2 == Option::Some((rid, loc))
        }),
    decreases k,
{
    let pre = spec_resolve_cites(cites.take(k - 1), note, seen, prev, near_note_distance);
    let cur = spec_resolve_cites(cites.take(k), note, seen, prev, near_note_distance);
    let rid = cites[k - 1].0;
    let loc = cites[k - 1].1;
    let pair = (
        spec_cite_position(pre.1, pre.2, rid, loc, note, near_note_distance),
        spec_cite_first_note(pre.1, rid),
    );
    if k == 1 {
        assert(cites.take(0) =~= Seq::<(Seq<char>, Option<Locator>)>::empty());
        assert(pre.0 =~= Seq::<(Position, Option<u32>)>::empty());
        assert(pre.1 == seen);
        assert(pre.2 == prev);
        assert(cites.take(1)[0] == cites[0]);
        assert(cites.take(1).drop_first() =~= Seq::<(Seq<char>, Option<Locator>)>::empty());
        let seen2 = spec_seen_after(seen, cites[0].0, note);
        let rest = spec_resolve_cites(
            cites.take(1).drop_first(),
            note,
            seen2,
            Option::Some((cites[0].0, cites[0].1)),
            near_note_distance,
        );
        assert(rest.0 =~= Seq::<(Position, Option<u32>)>::empty());
        assert(cur.0 == seq![pair] + rest.0);
        assert(cur.0 =~= pre.0.push(pair));
    } else {
        let tail = cites.drop_first();
        assert(cites.take(k)[0] == cites[0]);
        assert(cites.take(k).drop_first() =~= tail.take(k - 1));
        assert(cites.take(k - 1)[0] == cites[0]);
        assert(cites.take(k - 1).drop_first() =~= tail.take(k - 2));
        assert(tail[k - 2] == cites[k - 1]);
        let rid0 = cites[0].0;
        let loc0 = cites[0].1;
        let pair0 = (
            spec_cite_position(seen, prev, rid0, loc0, note, near_note_distance),
            spec_cite_first_note(seen, rid0),
        );
        let seen2 = spec_seen_after(seen, rid0, note);
        let prev2: Option<(Seq<char>, Option<Locator>)> = Option::Some((rid0, loc0));
        lemma_resolve_cites_step(tail, k - 1, note, seen2, prev2, near_note_distance);
        let tpre = spec_resolve_cites(tail.take(k - 2), note, seen2, prev2, near_note_distance);
        let tcur = spec_resolve_cites(tail.take(k - 1), note, seen2, prev2, near_note_distance);
        assert(pre.0 == seq![pair0] + tpre.0);
        assert(pre.1 == tpre.1);
        assert(pre.2 == tpre.2);
        assert(cur.0 == seq![pair0] + tcur.0);
        assert(cur.1 == tcur.1);
        assert(cur.2 == tcur.2);
        assert(tcur.0 == tpre.0.push(pair));
        assert(cur.0 =~= pre.0.push(pair));
    }
}

/// One more cluster extends the cluster-level fold by one step.
proof fn lemma_resolve_clusters_step(
    clusters: Seq<(Option<u32>, Seq<(Seq<char>, Option<Locator>)>)>,
    k: int,
    near_note_distance: u32,
)
    requires
        1 <= k <= clusters.len(),
    ensures
        ({
            let pre = spec_resolve_prefix(clusters, k - 1, near_note_distance);
            let r = spec_resolve_cites(
                clusters[k - 1].1,
                clusters[k - 1].0,
                pre.1,
                pre.2,
                near_note_distance,
            );
            spec_resolve_prefix(clusters, k, near_note_distance) == (pre.0.push(r.0), r.1, r.2)
        }),
{
}

/// The full fold equals the prefix fold over the whole list.
pub proof fn lemma_resolve_prefix_full(
    clusters: Seq<(Option<u32>, Seq<(Seq<char>, Option<Locator>)>)>,
    near_note_distance: u32,
)
    ensures
        spec_resolve_prefix(clusters, clusters.len() as int, near_note_distance).0
            == spec_resolve_clusters(clusters, Seq::empty(), Option::None, near_note_distance),
{
    lemma_resolve_prefix_from(clusters, clusters.len() as int, near_note_distance);
}

/// The prefix fold agrees with the recursive fold started from its
/// accumulators.
proof fn lemma_resolve_prefix_from(
    clusters: Seq<(Option<u32>, Seq<(Seq<char>, Option<Locator>)>)>,
    k: int,
    near_note_distance: u32,
)
    requires
        0 <= k <= clusters.len(),
    ensures
        ({
            let pre = spec_resolve_prefix(clusters, k, near_note_distance);
            pre.0 + spec_resolve_clusters(
                clusters.skip(k),
                pre.1,
                pre.2,
                near_note_distance,
            ) == spec_resolve_clusters(
                clusters,
                Seq::empty(),
                Option::None,
                near_note_distance,
            )
        }),
    decreases k,
{
    if k == 0 {
        let pre = spec_resolve_prefix(clusters, 0, near_note_distance);
        assert(clusters.skip(0) =~= clusters);
        assert(pre.0 + spec_resolve_clusters(clusters, pre.1, pre.2, near_note_distance)
            =~= spec_resolve_clusters(clusters, Seq::empty(), Option::None, near_note_distance));
    } else {
        lemma_resolve_prefix_from(clusters, k - 1, near_note_distance);
        let pre0 = spec_resolve_prefix(clusters, k - 1, near_note_distance);
        let pre = spec_resolve_prefix(clusters, k, near_note_distance);
        let mid = clusters.skip(k - 1);
        assert(mid[0] == clusters[k - 1]);
        assert(mid.drop_first() =~= clusters.skip(k));
        let r = spec_resolve_cites(
            clusters[k - 1].1,
            clusters[k - 1].0,
            pre0.1,
            pre0.2,
            near_note_distance,
        );
        assert(spec_resolve_clusters(mid, pre0.1, pre0.2, near_note_distance) == seq![r.0]
            + spec_resolve_clusters(clusters.skip(k), r.1, r.2, near_note_distance));
        assert(pre.0 + spec_resolve_clusters(clusters.skip(k), pre.1, pre.2, near_note_distance)
            =~= pre0.0 + spec_resolve_clusters(mid, pre0.1, pre0.2, near_note_distance));
    }
}

fn clone_string(s: &String) -> (r: String)
    ensures
        r@ == s@,
{
    s.clone()
}

/// The cite-level fold yields one position per cite.
proof fn lemma_resolve_cites_len(
    cites: Seq<(Seq<char>, Option<Locator>)>,
    note: Option<u32>,
    seen: Seq<(Seq<char>, Option<u32>)>,
    prev: Option<(Seq<char>, Option<Locator>)>,
    near_note_distance: u32,
)
    ensures
        spec_resolve_cites(cites, note, seen, prev, near_note_distance).0.len() == cites.len(),
    decreases cites.len(),
{
    if cites.len() > 0 {
        lemma_resolve_cites_len(
            cites.drop_first(),
            note,
            spec_seen_after(seen, cites[0].0, note),
            Option::Some((cites[0].0, cites[0].1)),
            near_note_distance,
        );
    }
}

/// The cluster-level fold yields one row per cluster, one entry per
/// cite.
proof fn lemma_resolve_clusters_shape(
    clusters: Seq<(Option<u32>, Seq<(Seq<char>, Option<Locator>)>)>,
    seen: Seq<(Seq<char>, Option<u32>)>,
    prev: Option<(Seq<char>, Option<Locator>)>,
    near_note_distance: u32,
)
    ensures
        spec_resolve_clusters(clusters, seen, prev, near_note_distance).len() == clusters.len(),
        forall|i: int|
            0 <= i < clusters.len() ==> (#[trigger] spec_resolve_clusters(
                clusters,
                seen,
                prev,
                near_note_distance,
            )[i]).len() == clusters[i].1.len(),
    decreases clusters.len(),
{
    if clusters.len() > 0 {
        let r = spec_resolve_cites(clusters[0].1, clusters[0].0, seen, prev, near_note_distance);
        lemma_resolve_cites_len(clusters[0].1, clusters[0].0, seen, prev, near_note_distance);
        lemma_resolve_clusters_shape(clusters.drop_first(), r.1, r.2, near_note_distance);
        assert forall|i: int|
            0 <= i < clusters.len() implies (#[trigger] spec_resolve_clusters(
            clusters,
            seen,
            prev,
            near_note_distance,
        )[i]).len() == clusters[i].1.len() by {
            if i > 0 {
                assert(clusters.drop_first()[i - 1] == clusters[i]);
                assert(spec_resolve_clusters(clusters, seen, prev, near_note_distance)[i]
                    == spec_resolve_clusters(
                    clusters.drop_first(),
                    r.1,
                    r.2,
                    near_note_distance,
                )[i - 1]);
            }
        }
    }
}

/// The resolved positions have one row per cluster and one entry per
/// cite.
pub proof fn lemma_positions_shape(clusters: Seq<Cluster>, near_note_distance: u32)
    ensures
        spec_positions(clusters, near_note_distance).len() == clusters.len(),
        forall|i: int|
            0 <= i < clusters.len() ==> (#[trigger] spec_positions(
                clusters,
                near_note_distance,
            )[i]).len() == clusters[i].cites@.len(),
{
    let cv = clusters_pos_view(clusters);
    lemma_resolve_clusters_shape(cv, Seq::empty(), Option::None, near_note_distance);
    assert forall|i: int|
        0 <= i < clusters.len() implies (#[trigger] spec_positions(
        clusters,
        near_note_distance,
    )[i]).len() == clusters[i].cites@.len() by {
        assert(cv[i].1.len() == clusters[i].cites@.len());
    }
}

// ---------------------------------------------------------------------
// The position rules, stated on their own
// ---------------------------------------------------------------------

/// Two identical cites in immediate succession: the second resolves to
/// `Ibid`.
pub proof fn lemma_ibid_on_identical_succession(
    seen: Seq<(Seq<char>, Option<u32>)>,
    rid: Seq<char>,
    loc: Option<Locator>,
    note: Option<u32>,
    near_note_distance: u32,
)
    ensures
        spec_cite_position(
            seen,
            Option::Some((rid, loc)),
            rid,
            loc,
            note,
            near_note_distance,
        ) == Position::Ibid,
{
}

/// The same reference as the immediately preceding cite but another
/// locator: `IbidWithLocator`.
pub proof fn lemma_ibid_with_locator_on_differing_locator(
    seen: Seq<(Seq<char>, Option<u32>)>,
    rid: Seq<char>,
    prev_loc: Option<Locator>,
    loc: Option<Locator>,
    note: Option<u32>,
    near_note_distance: u32,
)
    requires
        prev_loc != loc,
    ensures
        spec_cite_position(
            seen,
            Option::Some((rid, prev_loc)),
            rid,
            loc,
            note,
            near_note_distance,
        ) == Position::IbidWithLocator,
{
}

/// A repeat citation whose note lies further from the first citing note
/// than the near-note threshold: `FarNote`; within the threshold:
/// `NearNote`.
pub proof fn lemma_note_distance_refines_subsequent(
    seen: Seq<(Seq<char>, Option<u32>)>,
    prev: Option<(Seq<char>, Option<Locator>)>,
    rid: Seq<char>,
    loc: Option<Locator>,
    first_note: u32,
    note: u32,
    near_note_distance: u32,
)
    requires
        match prev {
            Option::Some(p) => p.0 != rid,
            Option::None => true,
        },
        spec_seen_lookup(seen, rid) == Option::Some(Option::Some(first_note)),
        note >= first_note,
    ensures
        spec_cite_position(seen, prev, rid, loc, Option::Some(note), near_note_distance) == if note
            - first_note <= near_note_distance {
            Position::NearNote
        } else {
            Position::FarNote
        },
{
}

} // verus!
