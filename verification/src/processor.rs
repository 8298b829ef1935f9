//! The processor: owns the style, the references, the locales and the
//! clusters, renders clusters on demand, tracks which cluster outputs
//! may have changed since the last drain, and delivers batched updates.
//!
//! Every rendered output is a pure function of the current inputs; the
//! staleness bookkeeping only decides which cluster ids the next update
//! batch reports. Re-querying after any sequence of mutations therefore
//! yields exactly what a fresh processor seeded with the same inputs
//! yields.

use vstd::prelude::*;
use vstd::string::*;
use crate::cite::{Cite, Cluster, ClusterNumber};
use crate::ir::spec_render_elements;
use crate::natural_sort::chars_to_string;
use crate::ref_context::RefContext;
use crate::reference::Reference;
use crate::style_types::{Position, Style, elements_view, elements_wf};

verus! {

/// The output formats a processor can be asked for.
#[derive(Debug, Copy, Clone, PartialEq, Eq, Hash, Structural)]
pub enum SupportedFormat {
    Html,
    Rtf,
    TestHtml,
}

impl SupportedFormat {
    /// Resolve a format name: exactly "html" and "rtf" are known; any
    /// other name is the unknown-format error.
    pub fn from_name(s: &str) -> (r: Result<Self, ()>)
        ensures
            r == if s@ == "html"@ {
                Result::<SupportedFormat, ()>::Ok(SupportedFormat::Html)
            } else if s@ == "rtf"@ {
                Result::<SupportedFormat, ()>::Ok(SupportedFormat::Rtf)
            } else {
                Result::<SupportedFormat, ()>::Err(())
            },
    {
        proof {
            reveal_strlit("html");
            reveal_strlit("rtf");
        }
        if s.unicode_len() == 4 {
            let h = s.get_char(0);
            let t = s.get_char(1);
            let m = s.get_char(2);
            let l = s.get_char(3);
            if h == 'h' && t == 't' && m == 'm' && l == 'l' {
                proof {
                    assert(s@ =~= "html"@);
                }
                Result::Ok(SupportedFormat::Html)
            } else {
                Result::Err(())
            }
        } else if s.unicode_len() == 3 {
            let r = s.get_char(0);
            let t = s.get_char(1);
            let f = s.get_char(2);
            if r == 'r' && t == 't' && f == 'f' {
                proof {
                    assert(s@ =~= "rtf"@);
                }
                Result::Ok(SupportedFormat::Rtf)
            } else {
                Result::Err(())
            }
        } else {
            Result::Err(())
        }
    }
}

impl core::str::FromStr for SupportedFormat {
    type Err = ();

    fn from_str(s: &str) -> Result<Self, Self::Err> {
        SupportedFormat::from_name(s)
    }
}

/// A batch of updates: the clusters whose output may have changed since
/// the last drain, with their rendered output.
#[derive(Debug)]
pub struct UpdateSummary {
    pub clusters: Vec<(u32, String)>,
}

/// The processor.
#[derive(Debug)]
pub struct Processor {
    pub style: Style,
    pub format: SupportedFormat,
    pub save_updates: bool,
    pub references: Vec<Reference>,
    pub locales: Vec<(String, String)>,
    pub clusters: Vec<Cluster>,
    pub stale: Vec<u32>,
    pub queue: Vec<u32>,
}

// ---------------------------------------------------------------------
// Specification of lookups and rendering
// ---------------------------------------------------------------------

/// The first stored reference with the given id.
pub open spec fn spec_lookup_ref(refs: Seq<Reference>, rid: Seq<char>) -> Option<Reference>
    decreases refs.len(),
{
    if refs.len() == 0 {
        Option::None
    } else if refs[0].id@ == rid {
        Option::Some(refs[0])
    } else {
        spec_lookup_ref(refs.drop_first(), rid)
    }
}

/// The index of the first cluster with the given id.
pub open spec fn spec_cluster_idx(clusters: Seq<Cluster>, id: u32) -> Option<int>
    decreases clusters.len(),
{
    if clusters.len() == 0 {
        Option::None
    } else if clusters[0].id == id {
        Option::Some(0int)
    } else {
        match spec_cluster_idx(clusters.drop_first(), id) {
            Option::Some(i) => Option::Some(i + 1),
            Option::None => Option::None,
        }
    }
}

/// The locator type a cite fixes on its context.
pub open spec fn spec_cite_loc_type(cite: Cite) -> Option<crate::style_types::LocatorType> {
    match cite.locator {
        Option::Some(l) => Option::Some(l.loc_type),
        Option::None => Option::None,
    }
}

/// What one cite renders to under the current style and references: the
/// citation layout evaluated against the cited reference's variables,
/// the cite's locator, its resolved position, and the year suffix
/// assigned to its reference; a cite whose reference is missing renders
/// as empty.
pub open spec fn spec_render_cite(
    style: Style,
    refs: Seq<Reference>,
    cite: Cite,
    position: Position,
    year_suffix: Option<int>,
) -> Seq<char> {
    match spec_lookup_ref(refs, cite.ref_id@) {
        Option::Some(r) => spec_render_elements(
            elements_view(style.citation@),
            style,
            r,
            spec_cite_loc_type(cite),
            position,
            year_suffix,
        ),
        Option::None => Seq::empty(),
    }
}

/// The reference ids of every cite, cluster by cluster in document
/// order.
pub open spec fn spec_all_cite_rids(clusters: Seq<Cluster>) -> Seq<Seq<char>>
    decreases clusters.len(),
{
    if clusters.len() == 0 {
        Seq::empty()
    } else {
        clusters[0].cites@.map_values(|ct: Cite| ct.ref_id@) + spec_all_cite_rids(
            clusters.drop_first(),
        )
    }
}

/// A list of ids with later repeats dropped: the first occurrence of
/// each survives, in order.
pub open spec fn spec_dedup_rids(rids: Seq<Seq<char>>) -> Seq<Seq<char>>
    decreases rids.len(),
{
    if rids.len() == 0 {
        Seq::empty()
    } else {
        let rest = spec_dedup_rids(rids.drop_last());
        if rest.contains(rids.last()) {
            rest
        } else {
            rest.push(rids.last())
        }
    }
}

/// The base rendering of a reference: the citation layout evaluated
/// with no locator, at the `First` position and with no year suffix.
/// Two cited references collide exactly when their base renderings are
/// equal, and the base rendering stands in for the sort key: with the
/// bibliography sort outside the modeled style subset, ties fall back
/// to the order of first citation, the default citation-number order.
pub open spec fn spec_base_render(style: Style, r: Reference) -> Seq<char> {
    spec_render_elements(
        elements_view(style.citation@),
        style,
        r,
        Option::None,
        Position::First,
        Option::None,
    )
}

/// The year-suffix entries of the cited references that are stored, in
/// order of first citation.
pub open spec fn spec_entries_from(style: Style, refs: Seq<Reference>, rids: Seq<Seq<char>>) -> Seq<
    (Seq<char>, Seq<char>, Seq<char>),
>
    decreases rids.len(),
{
    if rids.len() == 0 {
        Seq::empty()
    } else {
        let rest = spec_entries_from(style, refs, rids.drop_last());
        match spec_lookup_ref(refs, rids.last()) {
            Option::Some(r) => rest.push(
                (rids.last(), spec_base_render(style, r), spec_base_render(style, r)),
            ),
            Option::None => rest,
        }
    }
}

/// The year-suffix assignments the current inputs imply: the cited,
/// stored references partitioned by base rendering, each colliding one
/// paired with its suffix index. Assignment is composed before cluster
/// rendering, which reads it through the cite context.
pub open spec fn spec_assignments(style: Style, refs: Seq<Reference>, clusters: Seq<Cluster>) -> Seq<
    (Seq<char>, int),
> {
    crate::year_suffix::spec_year_suffixes(
        spec_entries_from(style, refs, spec_dedup_rids(spec_all_cite_rids(clusters))),
    )
}

/// The suffix index assigned to a reference, if any: the first
/// assignment entry carrying its id.
pub open spec fn spec_lookup_assignment(assignments: Seq<(Seq<char>, int)>, rid: Seq<char>) -> Option<
    int,
>
    decreases assignments.len(),
{
    if assignments.len() == 0 {
        Option::None
    } else if assignments[0].0 == rid {
        Option::Some(assignments[0].1)
    } else {
        spec_lookup_assignment(assignments.drop_first(), rid)
    }
}

/// The suffix index the current inputs assign to a reference.
pub open spec fn spec_assigned_suffix(
    style: Style,
    refs: Seq<Reference>,
    clusters: Seq<Cluster>,
    rid: Seq<char>,
) -> Option<int> {
    spec_lookup_assignment(spec_assignments(style, refs, clusters), rid)
}

/// The renderings of the cites of cluster `idx`, each under its
/// resolved position and its reference's assigned year suffix.
pub open spec fn spec_cluster_renders(
    style: Style,
    refs: Seq<Reference>,
    clusters: Seq<Cluster>,
    idx: int,
) -> Seq<Seq<char>> {
    let cites = clusters[idx].cites@;
    let positions = crate::position::spec_positions(clusters, style.near_note_distance);
    Seq::new(
        cites.len(),
        |w: int|
            spec_render_cite(
                style,
                refs,
                cites[w],
                positions[idx][w].0,
                spec_assigned_suffix(style, refs, clusters, cites[w].ref_id@),
            ),
    )
}

/// A list of renderings joined with the layout delimiter.
pub open spec fn spec_join_renders(renders: Seq<Seq<char>>, delim: Seq<char>) -> Seq<char>
    decreases renders.len(),
{
    if renders.len() == 0 {
        Seq::empty()
    } else if renders.len() == 1 {
        renders[0]
    } else {
        renders[0] + delim + spec_join_renders(renders.drop_first(), delim)
    }
}

/// What cluster `idx` renders to: its cites rendered under resolved
/// positions and assigned year suffixes, joined with the layout
/// delimiter and wrapped in the layout affixes. A pure function of the
/// style, the references and the cluster layout alone.
pub open spec fn spec_built_cluster(
    style: Style,
    refs: Seq<Reference>,
    clusters: Seq<Cluster>,
    idx: int,
) -> Seq<char> {
    style.layout_prefix@ + spec_join_renders(
        spec_cluster_renders(style, refs, clusters, idx),
        style.layout_delimiter@,
    ) + style.layout_suffix@
}

/// Stored references are valid and keyed uniquely by id.
pub open spec fn refs_wf(refs: Seq<Reference>) -> bool {
    (forall|i: int| 0 <= i < refs.len() ==> (#[trigger] refs[i]).wf()) && (forall|i: int, j: int|
        0 <= i < j < refs.len() ==> (#[trigger] refs[i]).id@ != (#[trigger] refs[j]).id@)
}

/// Cluster ids are unique.
pub open spec fn clusters_wf(clusters: Seq<Cluster>) -> bool {
    forall|i: int, j: int|
        0 <= i < j < clusters.len() ==> (#[trigger] clusters[i]).id != (
        #[trigger] clusters[j]).id
}

impl Processor {
    /// Well-formedness: valid references with unique ids, unique
    /// cluster ids, and a style whose conditions the renderer can
    /// evaluate.
    pub open spec fn wf(&self) -> bool {
        refs_wf(self.references@) && clusters_wf(self.clusters@) && elements_wf(
            elements_view(self.style.citation@),
        )
    }

    /// The ids of the stale clusters, in document order.
    pub open spec fn stale_in_order(&self) -> Seq<u32> {
        self.clusters@.map_values(|c: Cluster| c.id).filter(|id: u32| self.stale@.contains(id))
    }
}

// ---------------------------------------------------------------------
// Construction
// ---------------------------------------------------------------------

/// A style that renders nothing: the placeholder before a real style is
/// set.
fn empty_style() -> (r: Style)
    ensures
        r.citation@.len() == 0,
        r.layout_delimiter@.len() == 0,
        r.layout_prefix@.len() == 0,
        r.layout_suffix@.len() == 0,
{
    Style {
        citation: Vec::new(),
        layout_delimiter: String::new(),
        layout_prefix: String::new(),
        layout_suffix: String::new(),
        layout_formatting: crate::flip_flop::Formatting {
            font_style: Option::None,
            font_weight: Option::None,
            font_variant: Option::None,
        },
        near_note_distance: 5,
        has_bibliography: false,
        default_locale: String::new(),
    }
}

impl Processor {
    /// A processor with no style, no references and no clusters.
    pub fn safe_default() -> (r: Processor)
        ensures
            r.wf(),
            r.references@.len() == 0,
            r.clusters@.len() == 0,
            r.locales@.len() == 0,
            r.stale@.len() == 0,
            r.queue@.len() == 0,
            !r.save_updates,
    {
        proof {
            assert(elements_view(Seq::<crate::style_types::Element>::empty()) =~= Seq::<
                crate::style_types::SpecElement,
            >::empty());
        }
        Processor {
            style: empty_style(),
            format: SupportedFormat::Html,
            save_updates: false,
            references: Vec::new(),
            locales: Vec::new(),
            clusters: Vec::new(),
            stale: Vec::new(),
            queue: Vec::new(),
        }
    }

    /// A processor over a compiled style. (Parsing the style text is a
    /// collaborator's job; a text that does not parse never reaches
    /// this constructor.)
    pub fn new(style: Style, save_updates: bool, format: SupportedFormat) -> (r: Processor)
        requires
            elements_wf(elements_view(style.citation@)),
        ensures
            r.wf(),
            r.style == style,
            r.save_updates == save_updates,
            r.format == format,
            r.references@.len() == 0,
            r.clusters@.len() == 0,
            r.locales@.len() == 0,
            r.stale@.len() == 0,
            r.queue@.len() == 0,
    {
        let mut p = Processor::safe_default();
        p.style = style;
        p.save_updates = save_updates;
        p.format = format;
        p
    }

    /// The processor used by tests: defaults throughout.
    pub fn test_db() -> (r: Processor)
        ensures
            r.wf(),
            r.references@.len() == 0,
            r.clusters@.len() == 0,
    {
        Processor::safe_default()
    }

    /// Replace the style; every cluster may now render differently.
    /// The style's conditions must be ones the renderer can evaluate.
    pub fn set_style(&mut self, style: Style)
        requires
            old(self).wf(),
            elements_wf(elements_view(style.citation@)),
        ensures
            final(self).wf(),
            final(self).style == style,
            final(self).stale@ == final(self).clusters@.map_values(|c: Cluster| c.id),
            *final(self) == (Processor {
                style,
                stale: final(self).stale,
                ..*old(self)
            }),
    {
        self.style = style;
        self.mark_all_stale();
    }

    /// Mark every cluster stale.
    fn mark_all_stale(&mut self)
        ensures
            final(self).stale@ == final(self).clusters@.map_values(|c: Cluster| c.id),
            *final(self) == (Processor {
                stale: final(self).stale,
                ..*old(self)
            }),
    {
        let mut stale: Vec<u32> = Vec::new();
        let mut i: usize = 0;
        while i < self.clusters.len()
            invariant
                i <= self.clusters@.len(),
                stale@ == self.clusters@.map_values(|c: Cluster| c.id).take(i as int),
            decreases self.clusters@.len() - i,
        {
            stale.push(self.clusters[i].id);
            i = i + 1;
            proof {
                assert(stale@ =~= self.clusters@.map_values(|c: Cluster| c.id).take(i as int));
            }
        }
        proof {
            assert(self.clusters@.map_values(|c: Cluster| c.id).take(i as int)
                =~= self.clusters@.map_values(|c: Cluster| c.id));
        }
        self.stale = stale;
    }

    // -----------------------------------------------------------------
    // References and locales
    // -----------------------------------------------------------------

    /// Replace the set of references. Every cluster may now render
    /// differently.
    pub fn set_references(&mut self, refs: Vec<Reference>)
        requires
            old(self).wf(),
            refs_wf(refs@),
        ensures
            final(self).wf(),
            final(self).references@ == refs@,
            final(self).stale@ == final(self).clusters@.map_values(|c: Cluster| c.id),
            final(self).clusters@ == old(self).clusters@,
            final(self).style == old(self).style,
            final(self).queue@ == old(self).queue@,
            final(self).locales@ == old(self).locales@,
            final(self).save_updates == old(self).save_updates,
    {
        self.references = refs;
        self.mark_all_stale();
    }

    /// Insert or replace a single reference.
    pub fn insert_reference(&mut self, refr: Reference)
        requires
            old(self).wf(),
            refr.wf(),
        ensures
            final(self).wf(),
            final(self).references@ == spec_upsert_ref(old(self).references@, refr),
            final(self).stale@ == final(self).clusters@.map_values(|c: Cluster| c.id),
            final(self).clusters@ == old(self).clusters@,
            final(self).style == old(self).style,
            final(self).queue@ == old(self).queue@,
    {
        let mut i: usize = 0;
        let mut found: Option<usize> = Option::None;
        loop
            invariant_except_break
                found is None,
            invariant
                i <= self.references@.len(),
                forall|j: int| 0 <= j < i ==> (#[trigger] self.references@[j]).id@ != refr.id@,
            ensures
                match found {
                    Option::Some(idx) => idx < self.references@.len()
                        && self.references@[idx as int].id@ == refr.id@ && forall|j: int|
                        0 <= j < idx ==> (#[trigger] self.references@[j]).id@ != refr.id@,
                    Option::None => forall|j: int|
                        0 <= j < self.references@.len() ==> (#[trigger] self.references@[j]).id@
                            != refr.id@,
                },
            decreases self.references@.len() - i,
        {
            if i >= self.references.len() {
                break ;
            }
            if self.references[i].id.eq(&refr.id) {
                found = Option::Some(i);
                break ;
            }
            i = i + 1;
        }
        proof {
            lemma_first_ref_idx(self.references@, refr.id@);
        }
        match found {
            Option::Some(idx) => {
                proof {
                    assert(spec_first_ref_idx(self.references@, refr.id@) == Option::Some(
                        idx as int,
                    ));
                }
                let ghost pre = self.references@;
                self.references.remove(idx);
                self.references.push(refr);
                proof {
                    pre.remove_ensures(idx as int);
                    let mid = pre.remove(idx as int);
                    assert forall|a: int, b: int|
                        0 <= a < b < self.references@.len() implies (
                    #[trigger] self.references@[a]).id@ != (
                    #[trigger] self.references@[b]).id@ by {
                        let n = self.references@.len();
                        let a0 = if a < idx { a } else { a + 1 };
                        assert(self.references@[a] == mid[a]);
                        assert(mid[a] == pre[a0]);
                        if b < n - 1 {
                            let b0 = if b < idx { b } else { b + 1 };
                            assert(self.references@[b] == mid[b]);
                            assert(mid[b] == pre[b0]);
                        } else {
                            assert(self.references@[b] == refr);
                            if a0 != idx {
                                assert(pre[a0].id@ != refr.id@);
                            }
                        }
                    }
                    assert forall|k: int|
                        0 <= k < self.references@.len() implies (
                    #[trigger] self.references@[k]).wf() by {
                        if k < self.references@.len() - 1 {
                            let k0 = if k < idx { k } else { k + 1 };
                            assert(self.references@[k] == mid[k]);
                            assert(mid[k] == pre[k0]);
                            assert(pre[k0].wf());
                        } else {
                            assert(self.references@[k] == refr);
                        }
                    }
                }
            },
            Option::None => {
                proof {
                    assert(spec_first_ref_idx(self.references@, refr.id@) is None);
                }
                let ghost pre = self.references@;
                self.references.push(refr);
                proof {
                    assert forall|a: int, b: int|
                        0 <= a < b < self.references@.len() implies (
                    #[trigger] self.references@[a]).id@ != (
                    #[trigger] self.references@[b]).id@ by {
                        if b < self.references@.len() - 1 {
                            assert(self.references@[a] == pre[a]);
                            assert(self.references@[b] == pre[b]);
                        } else {
                            assert(self.references@[a] == pre[a]);
                        }
                    }
                }
            },
        }
        self.mark_all_stale();
    }

    /// Fetch a stored reference by id.
    pub fn get_reference(&self, ref_id: &String) -> (r: Option<&Reference>)
        ensures
            match r {
                Option::Some(refr) => spec_lookup_ref(self.references@, ref_id@) == Option::Some(
                    *refr,
                ),
                Option::None => spec_lookup_ref(self.references@, ref_id@) is None,
            },
    {
        proof {
            assert(self.references@.skip(0) =~= self.references@);
        }
        let mut i: usize = 0;
        while i < self.references.len()
            invariant
                i <= self.references@.len(),
                spec_lookup_ref(self.references@, ref_id@) == spec_lookup_ref(
                    self.references@.skip(i as int),
                    ref_id@,
                ),
            decreases self.references@.len() - i,
        {
            proof {
                assert(self.references@.skip(i as int)[0] == self.references@[i as int]);
                assert(self.references@.skip(i as int).drop_first() =~= self.references@.skip(
                    i + 1,
                ));
            }
            if self.references[i].id.eq(ref_id) {
                return Option::Some(&self.references[i]);
            }
            i = i + 1;
        }
        proof {
            assert(self.references@.skip(i as int).len() == 0);
        }
        Option::None
    }

    /// The style in force.
    pub fn get_style(&self) -> (r: &Style)
        ensures
            r == self.style,
    {
        &self.style
    }

    /// Store locale definitions, replacing any stored earlier for the
    /// same language. Every cluster may render differently afterwards.
    pub fn store_locales(&mut self, locales: Vec<(String, String)>)
        requires
            old(self).wf(),
        ensures
            final(self).wf(),
            final(self).locales@ == old(self).locales@ + locales@,
            final(self).stale@ == final(self).clusters@.map_values(|c: Cluster| c.id),
            final(self).clusters@ == old(self).clusters@,
            final(self).references@ == old(self).references@,
    {
        let mut locales = locales;
        let ghost incoming = locales@;
        let n = locales.len();
        let mut k: usize = 0;
        while locales.len() > 0
            invariant
                old(self).wf(),
                self.wf(),
                n == incoming.len(),
                k + locales@.len() == incoming.len(),
                locales@ == incoming.skip(k as int),
                self.locales@ == old(self).locales@ + incoming.take(k as int),
                self.clusters@ == old(self).clusters@,
                self.references@ == old(self).references@,
                self.style == old(self).style,
                self.queue@ == old(self).queue@,
                self.stale@ == old(self).stale@,
                self.save_updates == old(self).save_updates,
                self.format == old(self).format,
            decreases locales@.len(),
    {
            let pair = locales.remove(0);
            proof {
                assert(incoming.skip(k as int)[0] == incoming[k as int]);
            }
            self.locales.push(pair);
            k = k + 1;
            proof {
                assert(locales@ =~= incoming.skip(k as int));
                assert(self.locales@ =~= old(self).locales@ + incoming.take(k as int));
            }
        }
        proof {
            assert(incoming.take(k as int) =~= incoming);
        }
        self.mark_all_stale();
    }

    /// Whether a locale for this language has been stored.
    pub fn has_cached_locale(&self, lang: &String) -> (r: bool)
        ensures
            r == exists|i: int|
                0 <= i < self.locales@.len() && (#[trigger] self.locales@[i]).0@ == lang@,
    {
        let mut i: usize = 0;
        while i < self.locales.len()
            invariant
                i <= self.locales@.len(),
                forall|j: int| 0 <= j < i ==> (#[trigger] self.locales@[j]).0@ != lang@,
            decreases self.locales@.len() - i,
        {
            if self.locales[i].0.eq(lang) {
                return true;
            }
            i = i + 1;
        }
        false
    }

    /// The languages the current inputs use: each reference's language
    /// and the style's default locale, without duplicates.
    pub fn get_langs_in_use(&self) -> (r: Vec<String>)
        ensures
            forall|i: int, j: int| 0 <= i < j < r@.len() ==> (#[trigger] r@[i])@ != (#[trigger] r@[j])@,
            langs_contains(r@, self.style.default_locale@),
            forall|j: int|
                0 <= j < self.references@.len() ==> match (
                #[trigger] self.references@[j]).language {
                    Option::Some(x) => langs_contains(r@, x@),
                    Option::None => true,
                },
            forall|i: int|
                0 <= i < r@.len() ==> ((#[trigger] r@[i])@ == self.style.default_locale@ || exists|
                    j: int,
                |
                    0 <= j < self.references@.len() && ref_has_lang(
                        #[trigger] self.references@[j],
                        r@[i]@,
                    )),
    {
        let mut out: Vec<String> = Vec::new();
        let mut i: usize = 0;
        while i < self.references.len()
            invariant
                i <= self.references@.len(),
                forall|a: int, b: int|
                    0 <= a < b < out@.len() ==> (#[trigger] out@[a])@ != (#[trigger] out@[b])@,
                forall|j: int|
                    0 <= j < i ==> match (#[trigger] self.references@[j]).language {
                        Option::Some(x) => langs_contains(out@, x@),
                        Option::None => true,
                    },
                forall|k: int| #![trigger out@[k]]
                    0 <= k < out@.len() ==> exists|j: int|
                        0 <= j < self.references@.len() && ref_has_lang(
                            #[trigger] self.references@[j],
                            out@[k]@,
                        ),
            decreases self.references@.len() - i,
        {
            let lang = match &self.references[i].language {
                Option::Some(l) => Option::Some(clone_string(l)),
                Option::None => Option::None,
            };
            let ghost pre = out@;
            match lang {
                Option::Some(l) => {
                    if !contains_string(&out, &l) {
                        let ghost before = out@;
                        out.push(l);
                        proof {
                            assert forall|a: int, b: int|
                                0 <= a < b < out@.len() implies (#[trigger] out@[a])@ != (
                            #[trigger] out@[b])@ by {
                                if b < out@.len() - 1 {
                                    assert(out@[a] == before[a]);
                                    assert(out@[b] == before[b]);
                                } else {
                                    assert(out@[a] == before[a]);
                                }
                            }
                            assert(ref_has_lang(self.references@[i as int], out@.last()@));
                            assert forall|k: int| #![trigger out@[k]] 0 <= k < out@.len() implies
                                exists|j: int|
                                    0 <= j < self.references@.len() && ref_has_lang(
                                        #[trigger] self.references@[j],
                                        out@[k]@,
                                    ) by {
                                if k < out@.len() - 1 {
                                    assert(out@[k] == pre[k]);
                                }
                            }
                            assert forall|j: int| 0 <= j <= i implies match (
                            #[trigger] self.references@[j]).language {
                                Option::Some(x) => langs_contains(out@, x@),
                                Option::None => true,
                            } by {
                                if j < i {
                                    match self.references@[j].language {
                                        Option::Some(x) => {
                                            let k = choose|k: int|
                                                0 <= k < pre.len() && (#[trigger] pre[k])@ == x@;
                                            assert(out@[k] == pre[k]);
                                            assert(langs_contains(out@, x@));
                                        },
                                        Option::None => {},
                                    }
                                } else {
                                    let last = out@[out@.len() - 1];
                                    assert(ref_has_lang(self.references@[j], last@));
                                    assert(langs_contains(out@, last@));
                                }
                            }
                        }
                    } else {
                        proof {
                            assert(langs_contains(out@, self.references@[i as int].language.unwrap()@));
                        }
                    }
                },
                Option::None => {},
            }
            i = i + 1;
        }
        let ghost pre = out@;
        if !contains_string(&out, &self.style.default_locale) {
            out.push(clone_string(&self.style.default_locale));
            proof {
                assert forall|a: int, b: int|
                    0 <= a < b < out@.len() implies (#[trigger] out@[a])@ != (
                #[trigger] out@[b])@ by {
                    if b < out@.len() - 1 {
                        assert(out@[a] == pre[a]);
                        assert(out@[b] == pre[b]);
                    } else {
                        assert(out@[a] == pre[a]);
                    }
                }
                assert(out@.last()@ == self.style.default_locale@);
                assert(langs_contains(out@, self.style.default_locale@));
                assert forall|j: int| 0 <= j < self.references@.len() implies match (
                #[trigger] self.references@[j]).language {
                    Option::Some(x) => langs_contains(out@, x@),
                    Option::None => true,
                } by {
                    match self.references@[j].language {
                        Option::Some(x) => {
                            let k = choose|k: int|
                                0 <= k < pre.len() && (#[trigger] pre[k])@ == x@;
                            assert(out@[k] == pre[k]);
                        },
                        Option::None => {},
                    }
                }
                assert forall|i2: int| 0 <= i2 < out@.len() implies ((#[trigger] out@[i2])@
                    == self.style.default_locale@ || exists|j: int|
                    0 <= j < self.references@.len() && ref_has_lang(
                        #[trigger] self.references@[j],
                        out@[i2]@,
                    )) by {
                    if i2 < out@.len() - 1 {
                        assert(out@[i2] == pre[i2]);
                    }
                }
            }
        }
        out
    }
}

/// Whether a language with this text is in the list.
pub open spec fn langs_contains(v: Seq<String>, l: Seq<char>) -> bool {
    exists|i: int| 0 <= i < v.len() && (#[trigger] v[i])@ == l
}

/// Whether a reference carries this language tag.
pub open spec fn ref_has_lang(r: Reference, l: Seq<char>) -> bool {
    match r.language {
        Option::Some(x) => x@ == l,
        Option::None => false,
    }
}

/// The references after inserting one: the first entry with the same id
/// is removed and the new reference appended.
pub open spec fn spec_upsert_ref(refs: Seq<Reference>, r: Reference) -> Seq<Reference> {
    match spec_first_ref_idx(refs, r.id@) {
        Option::Some(i) => refs.remove(i).push(r),
        Option::None => refs.push(r),
    }
}

/// The index of the first reference with the given id.
pub open spec fn spec_first_ref_idx(refs: Seq<Reference>, rid: Seq<char>) -> Option<int>
    decreases refs.len(),
{
    if refs.len() == 0 {
        Option::None
    } else if refs[0].id@ == rid {
        Option::Some(0int)
    } else {
        match spec_first_ref_idx(refs.drop_first(), rid) {
            Option::Some(i) => Option::Some(i + 1),
            Option::None => Option::None,
        }
    }
}

/// A scan that found no match up to the first match agrees with the
/// first-index function.
proof fn lemma_first_ref_idx(refs: Seq<Reference>, rid: Seq<char>)
    ensures
        match spec_first_ref_idx(refs, rid) {
            Option::Some(i) => 0 <= i < refs.len() && refs[i].id@ == rid && forall|j: int|
                0 <= j < i ==> (#[trigger] refs[j]).id@ != rid,
            Option::None => forall|j: int| 0 <= j < refs.len() ==> (#[trigger] refs[j]).id@ != rid,
        },
    decreases refs.len(),
{
    if refs.len() > 0 && refs[0].id@ != rid {
        lemma_first_ref_idx(refs.drop_first(), rid);
        match spec_first_ref_idx(refs.drop_first(), rid) {
            Option::Some(i) => {
                assert(refs.drop_first()[i] == refs[i + 1]);
                assert forall|j: int| 0 <= j < i + 1 implies (#[trigger] refs[j]).id@ != rid by {
                    if j > 0 {
                        assert(refs.drop_first()[j - 1] == refs[j]);
                    }
                }
            },
            Option::None => {
                assert forall|j: int| 0 <= j < refs.len() implies (#[trigger] refs[j]).id@
                    != rid by {
                    if j > 0 {
                        assert(refs.drop_first()[j - 1] == refs[j]);
                    }
                }
            },
        }
    }
}

/// Whether a string with this text is in the list.
fn contains_string(v: &Vec<String>, s: &String) -> (r: bool)
    ensures
        r == exists|i: int| 0 <= i < v@.len() && (#[trigger] v@[i])@ == s@,
{
    let mut i: usize = 0;
    while i < v.len()
        invariant
            i <= v@.len(),
            forall|j: int| 0 <= j < i ==> (#[trigger] v@[j])@ != s@,
        decreases v@.len() - i,
    {
        if v[i].eq(s) {
            return true;
        }
        i = i + 1;
    }
    false
}

fn clone_string(s: &String) -> (r: String)
    ensures
        r@ == s@,
{
    s.clone()
}

// ---------------------------------------------------------------------
// Clusters
// ---------------------------------------------------------------------

/// Identifies one cite: the cluster it sits in and its index there.
#[derive(Debug, Clone, Copy, PartialEq, Eq, Structural)]
pub struct CiteId {
    pub cluster_id: u32,
    pub index: usize,
}

impl Processor {
    /// Set the whole cluster list, in document order.
    pub fn init_clusters(&mut self, clusters: Vec<Cluster>)
        requires
            old(self).wf(),
            clusters_wf(clusters@),
        ensures
            final(self).wf(),
            final(self).clusters@ == clusters@,
            final(self).references@ == old(self).references@,
            final(self).style == old(self).style,
            final(self).queue@ == old(self).queue@,
            final(self).stale@ == final(self).clusters@.map_values(|c: Cluster| c.id),
            final(self).save_updates == old(self).save_updates,
    {
        self.clusters = clusters;
        self.mark_all_stale();
    }

    /// Insert a cluster, replacing the one with the same id if present,
    /// else appending it at the end of the document order.
    pub fn insert_cluster(&mut self, cluster: Cluster)
        requires
            old(self).wf(),
        ensures
            final(self).wf(),
            final(self).clusters@ == (match spec_cluster_idx(old(self).clusters@, cluster.id) {
                Option::Some(i) => old(self).clusters@.update(i, cluster),
                Option::None => old(self).clusters@.push(cluster),
            }),
            final(self).references@ == old(self).references@,
            final(self).style == old(self).style,
            final(self).queue@ == old(self).queue@,
            final(self).stale@ == final(self).clusters@.map_values(|c: Cluster| c.id),
    {
        proof {
            lemma_cluster_idx(self.clusters@, cluster.id);
        }
        let found = self.find_cluster(cluster.id);
        match found {
            Option::Some(idx) => {
                let ghost pre = self.clusters@;
                self.clusters.remove(idx);
                self.clusters.insert(idx, cluster);
                proof {
                    assert(self.clusters@ =~= pre.update(idx as int, cluster));
                    assert forall|a: int, b: int|
                        0 <= a < b < self.clusters@.len() implies (
                    #[trigger] self.clusters@[a]).id != (#[trigger] self.clusters@[b]).id by {
                        if a != idx && b != idx {
                            assert(self.clusters@[a] == pre[a]);
                            assert(self.clusters@[b] == pre[b]);
                        } else if a == idx {
                            assert(self.clusters@[b] == pre[b]);
                            assert(pre[b].id != pre[idx as int].id);
                        } else {
                            assert(self.clusters@[a] == pre[a]);
                            assert(pre[a].id != pre[idx as int].id);
                        }
                    }
                }
            },
            Option::None => {
                let ghost pre = self.clusters@;
                self.clusters.push(cluster);
                proof {
                    assert forall|a: int, b: int|
                        0 <= a < b < self.clusters@.len() implies (
                    #[trigger] self.clusters@[a]).id != (#[trigger] self.clusters@[b]).id by {
                        if b < self.clusters@.len() - 1 {
                            assert(self.clusters@[a] == pre[a]);
                            assert(self.clusters@[b] == pre[b]);
                        } else {
                            assert(self.clusters@[a] == pre[a]);
                        }
                    }
                }
            },
        }
        self.mark_all_stale();
    }

    /// Remove the cluster with this id; without one, nothing changes
    /// but every cluster is still marked for re-rendering.
    pub fn remove_cluster(&mut self, cluster_id: u32)
        requires
            old(self).wf(),
        ensures
            final(self).wf(),
            final(self).clusters@ == (match spec_cluster_idx(old(self).clusters@, cluster_id) {
                Option::Some(i) => old(self).clusters@.remove(i),
                Option::None => old(self).clusters@,
            }),
            final(self).references@ == old(self).references@,
            final(self).style == old(self).style,
            final(self).queue@ == old(self).queue@,
            final(self).stale@ == final(self).clusters@.map_values(|c: Cluster| c.id),
    {
        proof {
            lemma_cluster_idx(self.clusters@, cluster_id);
        }
        let found = self.find_cluster(cluster_id);
        match found {
            Option::Some(idx) => {
                let ghost pre = self.clusters@;
                self.clusters.remove(idx);
                proof {
                    pre.remove_ensures(idx as int);
                    assert forall|a: int, b: int|
                        0 <= a < b < self.clusters@.len() implies (
                    #[trigger] self.clusters@[a]).id != (#[trigger] self.clusters@[b]).id by {
                        let a0 = if a < idx { a } else { a + 1 };
                        let b0 = if b < idx { b } else { b + 1 };
                        assert(self.clusters@[a] == pre[a0]);
                        assert(self.clusters@[b] == pre[b0]);
                    }
                }
            },
            Option::None => {},
        }
        self.mark_all_stale();
    }

    /// Renumber clusters: each mapping sets the number of the cluster
    /// with that id, in order.
    pub fn renumber_clusters(&mut self, mappings: &Vec<(u32, ClusterNumber)>)
        requires
            old(self).wf(),
        ensures
            final(self).wf(),
            final(self).clusters@ == spec_renumber(old(self).clusters@, mappings@),
            final(self).references@ == old(self).references@,
            final(self).style == old(self).style,
            final(self).queue@ == old(self).queue@,
            final(self).stale@ == final(self).clusters@.map_values(|c: Cluster| c.id),
    {
        let mut k: usize = 0;
        while k < mappings.len()
            invariant
                k <= mappings@.len(),
                old(self).wf(),
                self.wf(),
                self.clusters@ == spec_renumber(old(self).clusters@, mappings@.take(k as int)),
                self.references@ == old(self).references@,
                self.style == old(self).style,
                self.queue@ == old(self).queue@,
                self.stale@ == old(self).stale@,
                self.locales@ == old(self).locales@,
                self.save_updates == old(self).save_updates,
                self.format == old(self).format,
            decreases mappings@.len() - k,
        {
            let id = mappings[k].0;
            let number = mappings[k].1;
            proof {
                lemma_cluster_idx(self.clusters@, id);
            }
            let found = self.find_cluster(id);
            match found {
                Option::Some(idx) => {
                    let ghost pre = self.clusters@;
                    let mut taken = self.clusters.remove(idx);
                    taken.number = number;
                    self.clusters.insert(idx, taken);
                    proof {
                        let renum = Cluster { number, ..pre[idx as int] };
                        assert(self.clusters@ =~= pre.update(idx as int, renum));
                        assert forall|a: int, b: int|
                            0 <= a < b < self.clusters@.len() implies (
                        #[trigger] self.clusters@[a]).id != (
                        #[trigger] self.clusters@[b]).id by {
                            if a != idx && b != idx {
                                assert(self.clusters@[a] == pre[a]);
                                assert(self.clusters@[b] == pre[b]);
                            } else if a == idx {
                                assert(self.clusters@[b] == pre[b]);
                                assert(pre[b].id != pre[idx as int].id);
                            } else {
                                assert(self.clusters@[a] == pre[a]);
                                assert(pre[a].id != pre[idx as int].id);
                            }
                        }
                    }
                },
                Option::None => {},
            }
            k = k + 1;
            proof {
                lemma_renumber_step(old(self).clusters@, mappings@, k as int);
            }
        }
        proof {
            assert(mappings@.take(mappings@.len() as int) =~= mappings@);
        }
        self.mark_all_stale();
    }

    /// The index of the cluster with this id, if present.
    fn find_cluster(&self, id: u32) -> (r: Option<usize>)
        ensures
            match r {
                Option::Some(i) => spec_cluster_idx(self.clusters@, id) == Option::Some(i as int),
                Option::None => spec_cluster_idx(self.clusters@, id) is None,
            },
    {
        proof {
            lemma_cluster_idx(self.clusters@, id);
        }
        let mut i: usize = 0;
        while i < self.clusters.len()
            invariant
                i <= self.clusters@.len(),
                forall|j: int| 0 <= j < i ==> (#[trigger] self.clusters@[j]).id != id,
            decreases self.clusters@.len() - i,
        {
            if self.clusters[i].id == id {
                proof {
                    lemma_cluster_idx(self.clusters@, id);
                }
                return Option::Some(i);
            }
            i = i + 1;
        }
        proof {
            lemma_cluster_idx(self.clusters@, id);
        }
        Option::None
    }

    /// Fetch a cite by its cluster and index.
    pub fn get_cite(&self, id: CiteId) -> (r: &Cite)
        requires
            ({
                &&& spec_cluster_idx(self.clusters@, id.cluster_id) matches Option::Some(i)
                &&& id.index < self.clusters@[i].cites@.len()
            }),
        ensures
            ({
                let i = spec_cluster_idx(self.clusters@, id.cluster_id).unwrap();
                *r == self.clusters@[i].cites@[id.index as int]
            }),
    {
        let found = self.find_cluster(id.cluster_id);
        proof {
            lemma_cluster_idx(self.clusters@, id.cluster_id);
        }
        let idx = match found {
            Option::Some(i) => i,
            Option::None => {
                proof {
                    assert(false);
                }
                0
            },
        };
        &self.clusters[idx].cites[id.index]
    }
}

/// The clusters after applying a renumbering list in order.
pub open spec fn spec_renumber(clusters: Seq<Cluster>, mappings: Seq<(u32, ClusterNumber)>) -> Seq<
    Cluster,
>
    decreases mappings.len(),
{
    if mappings.len() == 0 {
        clusters
    } else {
        let pre = spec_renumber(clusters, mappings.drop_last());
        let m = mappings.last();
        match spec_cluster_idx(pre, m.0) {
            Option::Some(i) => pre.update(i, Cluster { number: m.1, ..pre[i] }),
            Option::None => pre,
        }
    }
}

/// Applying one more mapping is one step on the renumbered list.
proof fn lemma_renumber_step(clusters: Seq<Cluster>, mappings: Seq<(u32, ClusterNumber)>, k: int)
    requires
        1 <= k <= mappings.len(),
    ensures
        spec_renumber(clusters, mappings.take(k)) == (
        {
            let pre = spec_renumber(clusters, mappings.take(k - 1));
            let m = mappings[k - 1];
            match spec_cluster_idx(pre, m.0) {
                Option::Some(i) => pre.update(i, Cluster { number: m.1, ..pre[i] }),
                Option::None => pre,
            }
        }),
{
    assert(mappings.take(k).drop_last() =~= mappings.take(k - 1));
    assert(mappings.take(k).last() == mappings[k - 1]);
}

/// The first-index function agrees with a front-to-back scan.
proof fn lemma_cluster_idx(clusters: Seq<Cluster>, id: u32)
    ensures
        match spec_cluster_idx(clusters, id) {
            Option::Some(i) => 0 <= i < clusters.len() && clusters[i].id == id && forall|j: int|
                0 <= j < i ==> (#[trigger] clusters[j]).id != id,
            Option::None => forall|j: int|
                0 <= j < clusters.len() ==> (#[trigger] clusters[j]).id != id,
        },
    decreases clusters.len(),
{
    if clusters.len() > 0 && clusters[0].id != id {
        lemma_cluster_idx(clusters.drop_first(), id);
        match spec_cluster_idx(clusters.drop_first(), id) {
            Option::Some(i) => {
                assert(clusters.drop_first()[i] == clusters[i + 1]);
                assert forall|j: int| 0 <= j < i + 1 implies (#[trigger] clusters[j]).id != id by {
                    if j > 0 {
                        assert(clusters.drop_first()[j - 1] == clusters[j]);
                    }
                }
            },
            Option::None => {
                assert forall|j: int| 0 <= j < clusters.len() implies (#[trigger] clusters[j]).id
                    != id by {
                    if j > 0 {
                        assert(clusters.drop_first()[j - 1] == clusters[j]);
                    }
                }
            },
        }
    }
}

} // verus!

verus! {

// ---------------------------------------------------------------------
// Rendering, computation and update extraction
// ---------------------------------------------------------------------

impl Processor {
    /// The distinct reference ids cited anywhere, in order of first
    /// citation.
    fn cited_rids(&self) -> (r: Vec<String>)
        ensures
            r@.map_values(|s: String| s@) == spec_dedup_rids(spec_all_cite_rids(self.clusters@)),
    {
        let mut flat: Vec<String> = Vec::new();
        let mut ci: usize = 0;
        proof {
            assert(flat@.map_values(|s: String| s@) =~= spec_all_cite_rids(self.clusters@.take(0)));
        }
        while ci < self.clusters.len()
            invariant
                ci <= self.clusters@.len(),
                flat@.map_values(|s: String| s@) == spec_all_cite_rids(
                    self.clusters@.take(ci as int),
                ),
            decreases self.clusters@.len() - ci,
        {
            let cluster = &self.clusters[ci];
            let ghost crids = cluster.cites@.map_values(|ct: Cite| ct.ref_id@);
            let mut wi: usize = 0;
            proof {
                assert(flat@.map_values(|s: String| s@) =~= spec_all_cite_rids(
                    self.clusters@.take(ci as int),
                ) + crids.take(0));
            }
            while wi < cluster.cites.len()
                invariant
                    wi <= cluster.cites@.len(),
                    ci < self.clusters@.len(),
                    cluster == &self.clusters@[ci as int],
                    crids == cluster.cites@.map_values(|ct: Cite| ct.ref_id@),
                    flat@.map_values(|s: String| s@) == spec_all_cite_rids(
                        self.clusters@.take(ci as int),
                    ) + crids.take(wi as int),
                decreases cluster.cites@.len() - wi,
            {
                let ghost pre = flat@;
                flat.push(clone_string(&cluster.cites[wi].ref_id));
                wi = wi + 1;
                proof {
                    assert(flat@.drop_last() =~= pre);
                    assert(flat@.map_values(|s: String| s@) =~= pre.map_values(|s: String| s@).push(
                        flat@.last()@,
                    ));
                    assert(crids.take(wi as int) =~= crids.take(wi - 1).push(crids[wi - 1]));
                    assert(spec_all_cite_rids(self.clusters@.take(ci as int)) + crids.take(wi as int)
                        =~= (spec_all_cite_rids(self.clusters@.take(ci as int)) + crids.take(
                        wi - 1,
                    )).push(crids[wi - 1]));
                }
            }
            ci = ci + 1;
            proof {
                assert(crids.take(crids.len() as int) =~= crids);
                lemma_all_rids_step(self.clusters@, ci as int);
            }
        }
        proof {
            assert(self.clusters@.take(self.clusters@.len() as int) =~= self.clusters@);
        }
        let ghost all = spec_all_cite_rids(self.clusters@);
        let mut out: Vec<String> = Vec::new();
        let mut i: usize = 0;
        proof {
            assert(flat@.map_values(|s: String| s@).take(0) =~= Seq::<Seq<char>>::empty());
            assert(out@.map_values(|s: String| s@) =~= spec_dedup_rids(all.take(0)));
        }
        while i < flat.len()
            invariant
                i <= flat@.len(),
                flat@.map_values(|s: String| s@) == all,
                out@.map_values(|s: String| s@) == spec_dedup_rids(all.take(i as int)),
            decreases flat@.len() - i,
        {
            proof {
                assert(all.take(i + 1).drop_last() =~= all.take(i as int));
                assert(all.take(i + 1).last() == all[i as int]);
            }
            if !contains_string(&out, &flat[i]) {
                let ghost pre = out@;
                out.push(clone_string(&flat[i]));
                proof {
                    assert(out@.drop_last() =~= pre);
                    assert(out@.map_values(|s: String| s@) =~= pre.map_values(|s: String| s@).push(
                        out@.last()@,
                    ));
                    assert(!spec_dedup_rids(all.take(i as int)).contains(all[i as int])) by {
                        let dd = pre.map_values(|s: String| s@);
                        if spec_dedup_rids(all.take(i as int)).contains(all[i as int]) {
                            let k = choose|k: int|
                                0 <= k < dd.len() && dd[k] == all[i as int];
                            assert(pre[k]@ == flat@[i as int]@);
                        }
                    }
                }
            } else {
                proof {
                    let k = choose|k: int|
                        0 <= k < out@.len() && (#[trigger] out@[k])@ == flat@[i as int]@;
                    assert(out@.map_values(|s: String| s@)[k] == all[i as int]);
                    assert(spec_dedup_rids(all.take(i as int)).contains(all[i as int]));
                }
            }
            i = i + 1;
        }
        proof {
            assert(all.take(all.len() as int) =~= all);
        }
        out
    }

    /// The base rendering of a stored reference; see
    /// `spec_base_render`.
    fn base_render(&self, refr: &Reference) -> (r: Vec<char>)
        requires
            self.wf(),
            refr.wf(),
        ensures
            r@ == spec_base_render(self.style, *refr),
    {
        let ctx = RefContext {
            style: &self.style,
            reference: refr,
            locator_type: Option::None,
            position: Position::First,
            year_suffix: false,
            year_suffix_index: Option::None,
        };
        crate::ir::render_elements(&self.style.citation, &ctx)
    }

    /// The year-suffix entries of the cited, stored references, in
    /// first-citation order.
    fn suffix_entries(&self) -> (r: Vec<crate::year_suffix::YearSuffixEntry>)
        requires
            self.wf(),
        ensures
            crate::year_suffix::entries_view(r@) == spec_entries_from(
                self.style,
                self.references@,
                spec_dedup_rids(spec_all_cite_rids(self.clusters@)),
            ),
    {
        let rids = self.cited_rids();
        let ghost rv = rids@.map_values(|s: String| s@);
        let mut out: Vec<crate::year_suffix::YearSuffixEntry> = Vec::new();
        let mut i: usize = 0;
        proof {
            assert(crate::year_suffix::entries_view(out@) =~= spec_entries_from(
                self.style,
                self.references@,
                rv.take(0),
            ));
        }
        while i < rids.len()
            invariant
                i <= rids@.len(),
                self.wf(),
                rv == rids@.map_values(|s: String| s@),
                crate::year_suffix::entries_view(out@) == spec_entries_from(
                    self.style,
                    self.references@,
                    rv.take(i as int),
                ),
            decreases rids@.len() - i,
        {
            proof {
                assert(rv.take(i + 1).drop_last() =~= rv.take(i as int));
                assert(rv.take(i + 1).last() == rv[i as int]);
            }
            match self.get_reference(&rids[i]) {
                Option::Some(refr) => {
                    proof {
                        lemma_lookup_ref_wf(self.references@, rids@[i as int]@);
                    }
                    let base = self.base_render(refr);
                    let base_s = chars_to_string(&base);
                    let ghost pre = out@;
                    out.push(
                        crate::year_suffix::YearSuffixEntry {
                            ref_id: clone_string(&rids[i]),
                            collision_key: clone_string(&base_s),
                            sort_key: base_s,
                        },
                    );
                    proof {
                        assert(out@.drop_last() =~= pre);
                        assert(crate::year_suffix::entries_view(out@)
                            =~= crate::year_suffix::entries_view(pre).push(
                            (out@.last().ref_id@, out@.last().collision_key@, out@.last().sort_key@),
                        ));
                    }
                },
                Option::None => {},
            }
            i = i + 1;
        }
        proof {
            assert(rv.take(rv.len() as int) =~= rv);
        }
        out
    }

    /// The year-suffix assignments the current inputs imply.
    fn assignments(&self) -> (r: Vec<(String, usize)>)
        requires
            self.wf(),
        ensures
            r@.map_values(|p: (String, usize)| (p.0@, p.1 as int)) == spec_assignments(
                self.style,
                self.references@,
                self.clusters@,
            ),
    {
        let entries = self.suffix_entries();
        crate::year_suffix::year_suffixes(&entries)
    }

    /// Render one cite under its resolved position and its reference's
    /// assigned year suffix.
    fn render_cite(&self, cite: &Cite, position: Position, suffix: Option<usize>) -> (r: Vec<char>)
        requires
            self.wf(),
        ensures
            r@ == spec_render_cite(
                self.style,
                self.references@,
                *cite,
                position,
                crate::ir::opt_index_view(suffix),
            ),
    {
        match self.get_reference(&cite.ref_id) {
            Option::Some(refr) => {
                proof {
                    lemma_lookup_ref_wf(self.references@, cite.ref_id@);
                }
                let ctx = RefContext {
                    style: &self.style,
                    reference: refr,
                    locator_type: match &cite.locator {
                        Option::Some(l) => Option::Some(l.loc_type),
                        Option::None => Option::None,
                    },
                    position,
                    year_suffix: suffix.is_some(),
                    year_suffix_index: suffix,
                };
                crate::ir::render_elements(&self.style.citation, &ctx)
            },
            Option::None => Vec::new(),
        }
    }

    /// Render a whole cluster: its cites under resolved positions and
    /// assigned year suffixes, joined with the layout delimiter and
    /// wrapped in the layout affixes.
    fn render_cluster(&self, idx: usize) -> (r: Vec<char>)
        requires
            self.wf(),
            idx < self.clusters@.len(),
        ensures
            r@ == spec_built_cluster(self.style, self.references@, self.clusters@, idx as int),
    {
        let positions = crate::position::resolve_positions(
            &self.clusters,
            self.style.near_note_distance,
        );
        proof {
            crate::position::lemma_positions_shape(
                self.clusters@,
                self.style.near_note_distance,
            );
        }
        let assignments = self.assignments();
        let ghost renders = spec_cluster_renders(
            self.style,
            self.references@,
            self.clusters@,
            idx as int,
        );
        let mut out: Vec<char> = Vec::new();
        append_str(&mut out, &self.style.layout_prefix);
        let cluster = &self.clusters[idx];
        let ghost cites = cluster.cites@;
        let mut i: usize = 0;
        proof {
            assert(renders.len() == cites.len());
            assert(out@ =~= self.style.layout_prefix@ + spec_join_renders(
                renders.take(0),
                self.style.layout_delimiter@,
            ));
        }
        while i < cluster.cites.len()
            invariant
                i <= cites.len(),
                self.wf(),
                idx < self.clusters@.len(),
                cluster == &self.clusters@[idx as int],
                cites == cluster.cites@,
                positions@.map_values(|v: Vec<(Position, Option<u32>)>| v@)
                    == crate::position::spec_positions(
                    self.clusters@,
                    self.style.near_note_distance,
                ),
                positions@.len() == self.clusters@.len(),
                positions@[idx as int]@.len() == cites.len(),
                assignments@.map_values(|p: (String, usize)| (p.0@, p.1 as int))
                    == spec_assignments(self.style, self.references@, self.clusters@),
                renders == spec_cluster_renders(
                    self.style,
                    self.references@,
                    self.clusters@,
                    idx as int,
                ),
                renders.len() == cites.len(),
                out@ == self.style.layout_prefix@ + spec_join_renders(
                    renders.take(i as int),
                    self.style.layout_delimiter@,
                ),
            decreases cites.len() - i,
        {
            if i > 0 {
                append_str(&mut out, &self.style.layout_delimiter);
            }
            let position = positions[idx][i].0;
            let suffix = lookup_assignment(&assignments, &cluster.cites[i].ref_id);
            proof {
                assert(positions@.map_values(|v: Vec<(Position, Option<u32>)>| v@)[idx as int]
                    == positions@[idx as int]@);
                assert(position == crate::position::spec_positions(
                    self.clusters@,
                    self.style.near_note_distance,
                )[idx as int][i as int].0);
                assert(crate::ir::opt_index_view(suffix) == spec_assigned_suffix(
                    self.style,
                    self.references@,
                    self.clusters@,
                    cites[i as int].ref_id@,
                ));
            }
            let piece = self.render_cite(&cluster.cites[i], position, suffix);
            proof {
                assert(piece@ == renders[i as int]);
            }
            append_chars(&mut out, &piece);
            i = i + 1;
            proof {
                lemma_join_renders_step(renders, self.style.layout_delimiter@, i as int);
                assert(out@ =~= self.style.layout_prefix@ + spec_join_renders(
                    renders.take(i as int),
                    self.style.layout_delimiter@,
                ));
            }
        }
        proof {
            assert(renders.take(renders.len() as int) =~= renders);
        }
        append_str(&mut out, &self.style.layout_suffix);
        out
    }

    /// The rendered output of a cluster: a pure function of the current
    /// style, references and cluster layout.
    pub fn get_cluster(&self, cluster_id: u32) -> (r: String)
        requires
            self.wf(),
            spec_cluster_idx(self.clusters@, cluster_id) is Some,
        ensures
            ({
                let i = spec_cluster_idx(self.clusters@, cluster_id).unwrap();
                r@ == spec_built_cluster(self.style, self.references@, self.clusters@, i)
            }),
    {
        let found = self.find_cluster(cluster_id);
        proof {
            lemma_cluster_idx(self.clusters@, cluster_id);
        }
        let idx = match found {
            Option::Some(i) => i,
            Option::None => {
                proof {
                    assert(false);
                }
                0
            },
        };
        let chars = self.render_cluster(idx);
        chars_to_string(&chars)
    }

    /// Bring every cluster up to date: the ids of the clusters that were
    /// stale join the update queue (in document order) when updates are
    /// being saved, and nothing is stale afterwards.
    pub fn compute(&mut self)
        requires
            old(self).wf(),
        ensures
            final(self).wf(),
            final(self).stale@.len() == 0,
            final(self).queue@ == if old(self).save_updates {
                old(self).queue@ + spec_stale_ids(old(self).clusters@, old(self).stale@)
            } else {
                old(self).queue@
            },
            final(self).clusters@ == old(self).clusters@,
            final(self).references@ == old(self).references@,
            final(self).style == old(self).style,
            final(self).locales@ == old(self).locales@,
            final(self).save_updates == old(self).save_updates,
            final(self).format == old(self).format,
    {
        if self.save_updates {
            let mut i: usize = 0;
            while i < self.clusters.len()
                invariant
                    i <= self.clusters@.len(),
                    old(self).wf(),
                    self.wf(),
                    self.queue@ == old(self).queue@ + spec_stale_ids(
                        old(self).clusters@.take(i as int),
                        old(self).stale@,
                    ),
                    self.clusters@ == old(self).clusters@,
                    self.references@ == old(self).references@,
                    self.style == old(self).style,
                    self.locales@ == old(self).locales@,
                    self.stale@ == old(self).stale@,
                    self.save_updates == old(self).save_updates,
                    self.format == old(self).format,
                decreases self.clusters@.len() - i,
            {
                let id = self.clusters[i].id;
                if contains_u32(&self.stale, id) {
                    self.queue.push(id);
                }
                i = i + 1;
                proof {
                    lemma_stale_ids_step(old(self).clusters@, old(self).stale@, i as int);
                    assert(self.queue@ =~= old(self).queue@ + spec_stale_ids(
                        old(self).clusters@.take(i as int),
                        old(self).stale@,
                    ));
                }
            }
            proof {
                assert(old(self).clusters@.take(old(self).clusters@.len() as int) =~= old(
                    self,
                ).clusters@);
            }
        }
        self.stale = Vec::new();
    }

    /// Deliver the batched updates: every cluster whose output may have
    /// changed since the last drain, with its rendered output, each
    /// exactly the pure rendering of the current inputs. Without
    /// update-saving the summary is empty and nothing happens.
    pub fn batched_updates(&mut self) -> (r: UpdateSummary)
        requires
            old(self).wf(),
        ensures
            final(self).wf(),
            final(self).clusters@ == old(self).clusters@,
            final(self).references@ == old(self).references@,
            final(self).style == old(self).style,
            final(self).locales@ == old(self).locales@,
            final(self).save_updates == old(self).save_updates,
            final(self).format == old(self).format,
            !old(self).save_updates ==> r.clusters@.len() == 0 && *final(self) == *old(self),
            old(self).save_updates ==> ({
                let pending = spec_dedup(
                    old(self).queue@ + spec_stale_ids(old(self).clusters@, old(self).stale@),
                );
                &&& final(self).queue@.len() == 0
                &&& final(self).stale@.len() == 0
                &&& r.clusters@.map_values(|p: (u32, String)| (p.0, p.1@)) == spec_summary_list(
                    final(self).style,
                    final(self).references@,
                    final(self).clusters@,
                    pending,
                )
            }),
    {
        if !self.save_updates {
            return UpdateSummary { clusters: Vec::new() };
        }
        self.compute();
        let ghost pending_all = self.queue@;
        let mut ids: Vec<u32> = Vec::new();
        let mut i: usize = 0;
        while i < self.queue.len()
            invariant
                i <= self.queue@.len(),
                ids@ == spec_dedup(self.queue@.take(i as int)),
            decreases self.queue@.len() - i,
        {
            let id = self.queue[i];
            proof {
                assert(self.queue@.take(i + 1).drop_last() =~= self.queue@.take(i as int));
                assert(self.queue@.take(i + 1).last() == self.queue@[i as int]);
            }
            if !contains_u32(&ids, id) {
                ids.push(id);
            }
            i = i + 1;
        }
        proof {
            assert(self.queue@.take(self.queue@.len() as int) =~= self.queue@);
        }
        let mut out: Vec<(u32, String)> = Vec::new();
        let mut k: usize = 0;
        proof {
            assert(out@.map_values(|p: (u32, String)| (p.0, p.1@)) =~= spec_summary_list(
                self.style,
                self.references@,
                self.clusters@,
                ids@.take(0),
            ));
        }
        while k < ids.len()
            invariant
                k <= ids@.len(),
                self.wf(),
                out@.map_values(|p: (u32, String)| (p.0, p.1@)) == spec_summary_list(
                    self.style,
                    self.references@,
                    self.clusters@,
                    ids@.take(k as int),
                ),
            decreases ids@.len() - k,
        {
            let id = ids[k];
            let ghost pre = out@;
            proof {
                assert(ids@.take(k + 1).drop_last() =~= ids@.take(k as int));
                assert(ids@.take(k + 1).last() == ids@[k as int]);
            }
            match self.find_cluster(id) {
                Option::Some(idx) => {
                    proof {
                        lemma_cluster_idx(self.clusters@, id);
                    }
                    let chars = self.render_cluster(idx);
                    out.push((id, chars_to_string(&chars)));
                    proof {
                        assert(out@.drop_last() =~= pre);
                        assert(out@.map_values(|p: (u32, String)| (p.0, p.1@)) =~= pre.map_values(
                            |p: (u32, String)| (p.0, p.1@),
                        ).push((out@.last().0, out@.last().1@)));
                    }
                },
                Option::None => {},
            }
            k = k + 1;
        }
        proof {
            assert(ids@.take(ids@.len() as int) =~= ids@);
        }
        self.queue = Vec::new();
        UpdateSummary { clusters: out }
    }

    /// Bring everything up to date and discard the pending updates.
    pub fn drain(&mut self)
        requires
            old(self).wf(),
        ensures
            final(self).wf(),
            final(self).queue@.len() == 0,
            final(self).stale@.len() == 0,
            final(self).clusters@ == old(self).clusters@,
            final(self).references@ == old(self).references@,
            final(self).style == old(self).style,
            final(self).locales@ == old(self).locales@,
            final(self).save_updates == old(self).save_updates,
            final(self).format == old(self).format,
    {
        self.compute();
        self.queue = Vec::new();
    }

    /// The position and first-reference-note-number of every cite, in
    /// document order, under the style's near-note threshold.
    pub fn cite_positions(&self) -> (r: Vec<Vec<(Position, Option<u32>)>>)
        ensures
            r@.map_values(|v: Vec<(Position, Option<u32>)>| v@) == crate::position::spec_positions(
                self.clusters@,
                self.style.near_note_distance,
            ),
    {
        crate::position::resolve_positions(&self.clusters, self.style.near_note_distance)
    }
}

/// A looked-up reference out of a valid store is valid.
proof fn lemma_lookup_ref_wf(refs: Seq<Reference>, rid: Seq<char>)
    requires
        refs_wf(refs),
    ensures
        spec_lookup_ref(refs, rid) matches Option::Some(r) ==> r.wf(),
    decreases refs.len(),
{
    if refs.len() > 0 && refs[0].id@ != rid {
        assert(forall|i: int|
            0 <= i < refs.drop_first().len() ==> (#[trigger] refs.drop_first()[i]).wf() && refs
                .drop_first()[i] == refs[i + 1]);
        assert(refs_wf(refs.drop_first())) by {
            assert forall|a: int, b: int|
                0 <= a < b < refs.drop_first().len() implies (
            #[trigger] refs.drop_first()[a]).id@ != (#[trigger] refs.drop_first()[b]).id@ by {
                assert(refs.drop_first()[a] == refs[a + 1]);
                assert(refs.drop_first()[b] == refs[b + 1]);
            }
        }
        lemma_lookup_ref_wf(refs.drop_first(), rid);
    }
}

/// The ids of the stale clusters among the given clusters, in order.
pub open spec fn spec_stale_ids(clusters: Seq<Cluster>, stale: Seq<u32>) -> Seq<u32>
    decreases clusters.len(),
{
    if clusters.len() == 0 {
        Seq::empty()
    } else {
        let rest = spec_stale_ids(clusters.drop_last(), stale);
        if stale.contains(clusters.last().id) {
            rest.push(clusters.last().id)
        } else {
            rest
        }
    }
}

/// One more cluster is one step of the stale-id fold.
proof fn lemma_stale_ids_step(clusters: Seq<Cluster>, stale: Seq<u32>, k: int)
    requires
        1 <= k <= clusters.len(),
    ensures
        spec_stale_ids(clusters.take(k), stale) == if stale.contains(clusters[k - 1].id) {
            spec_stale_ids(clusters.take(k - 1), stale).push(clusters[k - 1].id)
        } else {
            spec_stale_ids(clusters.take(k - 1), stale)
        },
{
    assert(clusters.take(k).drop_last() =~= clusters.take(k - 1));
    assert(clusters.take(k).last() == clusters[k - 1]);
}

/// A list of ids with later repeats dropped: the first occurrence of
/// each id survives, in order.
pub open spec fn spec_dedup(ids: Seq<u32>) -> Seq<u32>
    decreases ids.len(),
{
    if ids.len() == 0 {
        Seq::empty()
    } else {
        let rest = spec_dedup(ids.drop_last());
        if rest.contains(ids.last()) {
            rest
        } else {
            rest.push(ids.last())
        }
    }
}

/// The update summary over a list of cluster ids: each id that still
/// names a cluster is paired with that cluster's rendering.
pub open spec fn spec_summary_list(
    style: Style,
    refs: Seq<Reference>,
    clusters: Seq<Cluster>,
    ids: Seq<u32>,
) -> Seq<(u32, Seq<char>)>
    decreases ids.len(),
{
    if ids.len() == 0 {
        Seq::empty()
    } else {
        let rest = spec_summary_list(style, refs, clusters, ids.drop_last());
        match spec_cluster_idx(clusters, ids.last()) {
            Option::Some(i) => rest.push(
                (ids.last(), spec_built_cluster(style, refs, clusters, i)),
            ),
            Option::None => rest,
        }
    }
}

/// Joining one more rendering appends a delimiter (except before the
/// first) and that rendering.
proof fn lemma_join_renders_step(renders: Seq<Seq<char>>, delim: Seq<char>, k: int)
    requires
        1 <= k <= renders.len(),
    ensures
        spec_join_renders(renders.take(k), delim) == if k == 1 {
            renders[0]
        } else {
            spec_join_renders(renders.take(k - 1), delim) + delim + renders[k - 1]
        },
    decreases k,
{
    if k == 1 {
        assert(renders.take(1)[0] == renders[0]);
    } else {
        let tail = renders.drop_first();
        assert(renders.take(k)[0] == renders[0]);
        assert(renders.take(k).drop_first() =~= tail.take(k - 1));
        assert(renders.take(k - 1)[0] == renders[0]);
        assert(renders.take(k - 1).drop_first() =~= tail.take(k - 2));
        assert(tail[k - 2] == renders[k - 1]);
        lemma_join_renders_step(tail, delim, k - 1);
        if k == 2 {
            assert(tail.take(1)[0] == renders[1]);
            assert(tail.take(1).len() == 1);
        } else {
            assert((renders[0] + delim + (spec_join_renders(tail.take(k - 2), delim) + delim
                + tail[k - 2])) =~= ((renders[0] + delim + spec_join_renders(
                tail.take(k - 2),
                delim,
            )) + delim + renders[k - 1]));
        }
    }
}

/// Collecting one more cluster's cite ids appends them.
proof fn lemma_all_rids_step(clusters: Seq<Cluster>, k: int)
    requires
        1 <= k <= clusters.len(),
    ensures
        spec_all_cite_rids(clusters.take(k)) == spec_all_cite_rids(clusters.take(k - 1))
            + clusters[k - 1].cites@.map_values(|ct: Cite| ct.ref_id@),
    decreases k,
{
    if k == 1 {
        assert(clusters.take(0) =~= Seq::<Cluster>::empty());
        assert(clusters.take(1)[0] == clusters[0]);
        assert(clusters.take(1).drop_first() =~= Seq::<Cluster>::empty());
        assert(spec_all_cite_rids(clusters.take(1)) =~= spec_all_cite_rids(clusters.take(0))
            + clusters[0].cites@.map_values(|ct: Cite| ct.ref_id@));
    } else {
        let tail = clusters.drop_first();
        assert(clusters.take(k)[0] == clusters[0]);
        assert(clusters.take(k).drop_first() =~= tail.take(k - 1));
        assert(clusters.take(k - 1)[0] == clusters[0]);
        assert(clusters.take(k - 1).drop_first() =~= tail.take(k - 2));
        assert(tail[k - 2] == clusters[k - 1]);
        lemma_all_rids_step(tail, k - 1);
        let head = clusters[0].cites@.map_values(|ct: Cite| ct.ref_id@);
        assert((head + (spec_all_cite_rids(tail.take(k - 2)) + clusters[k - 1].cites@.map_values(
            |ct: Cite| ct.ref_id@,
        ))) =~= ((head + spec_all_cite_rids(tail.take(k - 2))) + clusters[k - 1].cites@.map_values(
            |ct: Cite| ct.ref_id@,
        )));
    }
}

/// The suffix index assigned to a reference, if any.
fn lookup_assignment(assignments: &Vec<(String, usize)>, rid: &String) -> (r: Option<usize>)
    ensures
        crate::ir::opt_index_view(r) == spec_lookup_assignment(
            assignments@.map_values(|p: (String, usize)| (p.0@, p.1 as int)),
            rid@,
        ),
{
    let ghost av = assignments@.map_values(|p: (String, usize)| (p.0@, p.1 as int));
    proof {
        assert(av.skip(0) =~= av);
    }
    let mut i: usize = 0;
    while i < assignments.len()
        invariant
            i <= assignments@.len(),
            av == assignments@.map_values(|p: (String, usize)| (p.0@, p.1 as int)),
            spec_lookup_assignment(av, rid@) == spec_lookup_assignment(av.skip(i as int), rid@),
        decreases assignments@.len() - i,
    {
        proof {
            assert(av.skip(i as int)[0] == av[i as int]);
            assert(av.skip(i as int).drop_first() =~= av.skip(i + 1));
        }
        if assignments[i].0.eq(rid) {
            return Option::Some(assignments[i].1);
        }
        i = i + 1;
    }
    proof {
        assert(av.skip(i as int).len() == 0);
    }
    Option::None
}

/// Whether an id is in the list.
fn contains_u32(v: &Vec<u32>, x: u32) -> (r: bool)
    ensures
        r == v@.contains(x),
{
    let mut i: usize = 0;
    while i < v.len()
        invariant
            i <= v@.len(),
            forall|j: int| 0 <= j < i ==> v@[j] != x,
        decreases v@.len() - i,
    {
        if v[i] == x {
            return true;
        }
        i = i + 1;
    }
    false
}

/// Append the characters of a string slice.
fn append_str(out: &mut Vec<char>, s: &String)
    ensures
        final(out)@ == old(out)@ + s@,
{
    let chars = crate::natural_sort::str_chars(s.as_str());
    append_chars(out, &chars);
}

/// Append the characters of another vector.
fn append_chars(out: &mut Vec<char>, piece: &Vec<char>)
    ensures
        final(out)@ == old(out)@ + piece@,
{
    let mut j: usize = 0;
    while j < piece.len()
        invariant
            j <= piece@.len(),
            out@ == old(out)@ + piece@.take(j as int),
        decreases piece@.len() - j,
    {
        out.push(piece[j]);
        j = j + 1;
        proof {
            assert(out@ =~= old(out)@ + piece@.take(j as int));
        }
    }
    proof {
        assert(piece@.take(piece@.len() as int) =~= piece@);
        assert(out@ =~= old(out)@ + piece@);
    }
}

/// Incremental correctness: a cluster's rendering is a pure function of
/// the style, the references and the cluster's cites, so the outputs a
/// long-lived processor delivers after any sequence of mutations are
/// exactly those of a fresh processor seeded with the final inputs.
pub proof fn lemma_incremental_equals_fresh(a: Processor, b: Processor, idx: int)
    requires
        a.style == b.style,
        a.references@ == b.references@,
        a.clusters@ == b.clusters@,
        0 <= idx < a.clusters@.len(),
    ensures
        spec_built_cluster(a.style, a.references@, a.clusters@, idx) == spec_built_cluster(
            b.style,
            b.references@,
            b.clusters@,
            idx,
        ),
{
}

} // verus!
