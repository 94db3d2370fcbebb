//! Incremental SVG tessellation and splice pipeline.
//!
//! Turns a declarative vector-graphics document (a tree of shapes with
//! stroke/fill paint and nested grouping) into a flat, render-ready triangle
//! buffer, and supports partial, in-place updates of small content regions
//! without re-tessellating the whole scene.
//!
//! The central guarantees are stated and proved where they live:
//! registered ranges are pairwise disjoint
//! (`geometry_set::lemma_range_disjointness`); every exported index value
//! stays inside the combined vertex array
//! (`geometry_set::lemma_index_validity`, and the `export` contract);
//! a replace shifts trailing ranges without touching their content
//! (`geometry_set::lemma_shift_correctness`); replacing content with
//! itself changes nothing (`geometry_set::lemma_replace_identity`);
//! repeating a text update changes nothing
//! (`svg_set::lemma_update_idempotence`); traversal is a pure function of
//! the document, so re-walks reproduce transform slots
//! (`walker::lemma_slot_determinism`); and the update class only
//! escalates going down the tree
//! (`walker::lemma_walk_class_escalation`).

use vstd::prelude::*;

pub mod document;
pub mod geometry;
pub mod gpu;
pub mod life;
pub mod mutcount;
pub mod geometry_set;
pub mod tags;
pub mod svg_set;
pub mod walker;
pub mod tessellate;
pub mod xml;

verus! {

/// Errors surfaced by a single update call. Every failure is local: the
/// geometry keeps its last-known-good state.
#[derive(Clone, Copy, Debug, PartialEq, Eq, Structural)]
pub enum UpdateError {
    /// The update targets a stable id never registered in the Dynamic segment.
    IdNotFound,
    /// The re-parse of a rebuilt sub-document failed; the update is rejected.
    MalformedFragment,
}

} // verus!
