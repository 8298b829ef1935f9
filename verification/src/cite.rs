//! Cites and clusters: a cite is one occurrence of a reference with an
//! optional locator and affixes; a cluster is the ordered list of cites
//! that appear together at one site in the document, numbered either as
//! an in-text ordinal or as a note.

use vstd::prelude::*;
use crate::style_types::LocatorType;

verus! {

/// Which parts of a cite's rendering are suppressed.
#[derive(Debug, Clone, Copy, PartialEq, Eq, Structural)]
pub enum Suppression {
    /// Suppress the in-text part and render only the rest.
    InText,
    /// Render only the in-text part.
    Rest,
}

/// A pinpointer within the cited item.
#[derive(Debug, Clone, Copy, PartialEq, Eq, Structural)]
pub struct Locator {
    pub loc_type: LocatorType,
    pub value: u32,
}

/// A single citation of a reference.
#[derive(Debug)]
pub struct Cite {
    pub ref_id: String,
    pub locator: Option<Locator>,
    pub prefix: String,
    pub suffix: String,
    pub suppression: Option<Suppression>,
}

/// Position of a note-numbered cluster within its note.
#[derive(Debug, Clone, Copy, PartialEq, Eq, Structural)]
pub enum IntraNote {
    /// The only cluster in its note.
    Single(u32),
    /// One of several clusters in a note: note number and sub-index.
    Multi(u32, u32),
}

/// A cluster's number: an in-text ordinal or a note number.
#[derive(Debug, Clone, Copy, PartialEq, Eq, Structural)]
pub enum ClusterNumber {
    InText(u32),
    Note(IntraNote),
}

/// The note number a cluster number carries, if it is a note.
pub open spec fn spec_note_of(n: ClusterNumber) -> Option<u32> {
    match n {
        ClusterNumber::Note(IntraNote::Single(k)) => Option::Some(k),
        ClusterNumber::Note(IntraNote::Multi(k, _)) => Option::Some(k),
        ClusterNumber::InText(_) => Option::None,
    }
}

/// The note number a cluster number carries, if it is a note.
pub fn note_of(n: ClusterNumber) -> (r: Option<u32>)
    ensures
        r == spec_note_of(n),
{
    match n {
        ClusterNumber::Note(IntraNote::Single(k)) => Option::Some(k),
        ClusterNumber::Note(IntraNote::Multi(k, _)) => Option::Some(k),
        ClusterNumber::InText(_) => Option::None,
    }
}

/// A cluster of cites at one document site.
#[derive(Debug)]
pub struct Cluster {
    pub id: u32,
    pub number: ClusterNumber,
    pub cites: Vec<Cite>,
}

} // verus!
