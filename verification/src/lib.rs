//! Core of a citation processor: the group-suppression rule and its
//! tri-state summary, person-name particle parsing, natural comparison
//! of sort keys (with its order laws), reference contexts for the
//! style's conditionals, an IR builder with conditional groups and
//! resolved branches, flip-flop inline formatting, cite-position
//! resolution, year-suffix assignment, and an incremental processor
//! that renders citation clusters and reports which ones changed.

pub mod cite;
pub mod flip_flop;
pub mod group_vars;
pub mod harness;
pub mod ir;
pub mod names;
pub mod natural_sort;
pub mod position;
pub mod processor;
pub mod ref_context;
pub mod reference;
pub mod sort_order;
pub mod style_types;
pub mod variables;
pub mod year_suffix;

pub use group_vars::GroupVars;
