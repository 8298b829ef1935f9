//! Tri-state summary that drives conditional group suppression.
//!
//! A `group` style node acts as a conditional: the group and its children
//! are suppressed when at least one rendering element inside it referenced
//! a variable and every referenced variable was empty. The summary below is
//! carried up through a subtree while the tree is evaluated; the group
//! renders iff the final summary is not `OnlyEmpty`.

use vstd::prelude::*;

verus! {

/// Summary of the variables a subtree has referenced so far.
#[derive(Debug, Copy, Clone, PartialEq, Eq, Structural)]
pub enum GroupVars {
    /// No variable has been referenced in the subtree yet.
    NoneSeen,
    /// At least one variable was referenced, and none produced output.
    OnlyEmpty,
    /// At least one referenced variable produced output.
    DidRender,
}

impl GroupVars {
    /// Starting summary for a fresh group subtree.
    pub fn new() -> (r: Self)
        ensures
            r == GroupVars::NoneSeen,
    {
        GroupVars::NoneSeen
    }

    /// Summary contributed by a leaf that referenced at least one variable:
    /// `DidRender` when some referenced variable produced output, else
    /// `OnlyEmpty`.
    pub fn rendered_if(b: bool) -> (r: Self)
        ensures
            r == if b {
                GroupVars::DidRender
            } else {
                GroupVars::OnlyEmpty
            },
    {
        if b {
            GroupVars::DidRender
        } else {
            GroupVars::OnlyEmpty
        }
    }

    /// Demote everything short of `DidRender` to `OnlyEmpty`.
    pub fn did_not_render(self) -> (r: Self)
        ensures
            r == self.spec_did_not_render(),
    {
        match self {
            GroupVars::DidRender => GroupVars::DidRender,
            _ => GroupVars::OnlyEmpty,
        }
    }

    /// What `did_not_render` returns.
    pub open spec fn spec_did_not_render(self) -> Self {
        match self {
            GroupVars::DidRender => GroupVars::DidRender,
            _ => GroupVars::OnlyEmpty,
        }
    }

    /// Promote to `DidRender`.
    pub fn did_render(self) -> (r: Self)
        ensures
            r == GroupVars::DidRender,
    {
        GroupVars::DidRender
    }

    /// Fold a finished child subtree's summary into this one: a `NoneSeen`
    /// child changes nothing, an `OnlyEmpty` child demotes anything short
    /// of `DidRender`, and a `DidRender` child promotes the parent.
    pub fn with_subtree(self, subtree: Self) -> (r: Self)
        ensures
            r == self.spec_with_subtree(subtree),
    {
        match subtree {
            GroupVars::NoneSeen => self,
            GroupVars::OnlyEmpty => self.did_not_render(),
            GroupVars::DidRender => GroupVars::DidRender,
        }
    }

    /// What `with_subtree` returns.
    pub open spec fn spec_with_subtree(self, subtree: Self) -> Self {
        match subtree {
            GroupVars::NoneSeen => self,
            GroupVars::OnlyEmpty => self.spec_did_not_render(),
            GroupVars::DidRender => GroupVars::DidRender,
        }
    }

    /// Combine the summaries of two neighbouring elements of one group:
    /// `DidRender` dominates, then `OnlyEmpty`, then `NoneSeen`.
    pub fn neighbour(self, other: Self) -> (r: Self)
        ensures
            r == self.spec_neighbour(other),
    {
        match (self, other) {
            (GroupVars::DidRender, _) => GroupVars::DidRender,
            (_, GroupVars::DidRender) => GroupVars::DidRender,
            (GroupVars::OnlyEmpty, _) => GroupVars::OnlyEmpty,
            (_, GroupVars::OnlyEmpty) => GroupVars::OnlyEmpty,
            _ => GroupVars::NoneSeen,
        }
    }

    /// What `neighbour` returns.
    pub open spec fn spec_neighbour(self, other: Self) -> Self {
        if self == GroupVars::DidRender || other == GroupVars::DidRender {
            GroupVars::DidRender
        } else if self == GroupVars::OnlyEmpty || other == GroupVars::OnlyEmpty {
            GroupVars::OnlyEmpty
        } else {
            GroupVars::NoneSeen
        }
    }

    /// The suppression rule itself: a subtree renders iff its summary is
    /// not `OnlyEmpty`.
    pub fn should_render_tree(self) -> (r: bool)
        ensures
            r == (self != GroupVars::OnlyEmpty),
    {
        self != GroupVars::OnlyEmpty
    }
}

/// Summary of a list of neighbouring element summaries, folded left to
/// right from `NoneSeen`.
pub open spec fn summary_of(elems: Seq<GroupVars>) -> GroupVars
    decreases elems.len(),
{
    if elems.len() == 0 {
        GroupVars::NoneSeen
    } else {
        summary_of(elems.drop_last()).spec_neighbour(elems.last())
    }
}

/// A group whose elements referenced no variable at all (every element
/// contributed `NoneSeen`) summarises to `NoneSeen` and therefore renders.
pub proof fn lemma_group_of_plain_text_renders(elems: Seq<GroupVars>)
    requires
        forall|i: int| 0 <= i < elems.len() ==> elems[i] == GroupVars::NoneSeen,
    ensures
        summary_of(elems) == GroupVars::NoneSeen,
        summary_of(elems) != GroupVars::OnlyEmpty,
    decreases elems.len(),
{
    if elems.len() > 0 {
        lemma_group_of_plain_text_renders(elems.drop_last());
    }
}

/// A group that referenced at least one variable and rendered none of them
/// (some element contributed `OnlyEmpty`, none contributed `DidRender`)
/// summarises to `OnlyEmpty` and is therefore suppressed.
pub proof fn lemma_group_of_only_empty_is_suppressed(elems: Seq<GroupVars>)
    requires
        exists|i: int| 0 <= i < elems.len() && elems[i] == GroupVars::OnlyEmpty,
        forall|i: int| 0 <= i < elems.len() ==> elems[i] != GroupVars::DidRender,
    ensures
        summary_of(elems) == GroupVars::OnlyEmpty,
    decreases elems.len(),
{
    let last = elems.last();
    if last == GroupVars::OnlyEmpty {
        lemma_summary_never_did_render(elems.drop_last());
    } else {
        let i = choose|i: int| 0 <= i < elems.len() && elems[i] == GroupVars::OnlyEmpty;
        assert(elems.drop_last()[i] == GroupVars::OnlyEmpty);
        lemma_group_of_only_empty_is_suppressed(elems.drop_last());
    }
}

/// A list in which no element contributed `DidRender` never summarises to
/// `DidRender`.
pub proof fn lemma_summary_never_did_render(elems: Seq<GroupVars>)
    requires
        forall|i: int| 0 <= i < elems.len() ==> elems[i] != GroupVars::DidRender,
    ensures
        summary_of(elems) != GroupVars::DidRender,
    decreases elems.len(),
{
    if elems.len() > 0 {
        lemma_summary_never_did_render(elems.drop_last());
    }
}

/// One element that contributed `DidRender` makes the whole group render.
pub proof fn lemma_one_rendered_element_renders_group(elems: Seq<GroupVars>)
    requires
        exists|i: int| 0 <= i < elems.len() && elems[i] == GroupVars::DidRender,
    ensures
        summary_of(elems) == GroupVars::DidRender,
    decreases elems.len(),
{
    if elems.last() != GroupVars::DidRender {
        let i = choose|i: int| 0 <= i < elems.len() && elems[i] == GroupVars::DidRender;
        assert(elems.drop_last()[i] == GroupVars::DidRender);
        lemma_one_rendered_element_renders_group(elems.drop_last());
    }
}

} // verus!
