//! A genomic alignment layout and projection engine.
//!
//! Given pairwise contig-to-reference alignment records and the two
//! sequence-length tables, the library assigns each query contig to a
//! primary reference target by aligned coverage, lays targets and their
//! assigned contigs out on a shared one-dimensional axis, projects every
//! record into ribbon geometry with orientation-aware coordinate flips,
//! and assembles a two-level scene (genome-wide overview plus per-target
//! detail) in integer base coordinates. Scaling to drawing units and
//! serialization to a vector document are left to the caller.
//!
//! A companion module merges labeled intervals across input sets with a
//! sweep over the sorted intervals of each reference sequence.
//!
//! Every choice the library makes is a pure function of its input:
//! identical inputs always produce identical layouts, colors and
//! scenes.

pub mod coloring;
pub mod layout;
pub mod merge;
pub mod parse;
pub mod project;
pub mod records;
pub mod resolve;
pub mod scene;

use vstd::prelude::*;

verus! {

} // verus!
