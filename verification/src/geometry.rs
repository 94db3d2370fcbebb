//! Render-ready triangle geometry.
//!
//! A `Triangles` value is an ordered vertex sequence plus an ordered index
//! sequence; each index references a position in this list's own vertex
//! sequence, and triples of consecutive indices form one triangle. A
//! `Geometry` tags one shape's triangles with its stable id, its update
//! class and the transform slot its subtree inherited.

use vstd::prelude::*;

use crate::tags::UpdateClass;

verus! {

/// A flat color with one byte per channel. Conversion to the normalized
/// 0-to-1 channel values a GPU expects is a rendering concern and happens
/// outside this library.
#[derive(Clone, Copy, Debug, PartialEq, Eq, Structural)]
pub struct Rgba {
    pub r: u8,
    pub g: u8,
    pub b: u8,
    pub a: u8,
}

/// One vertex: a 2D position in document units, a flat color, and the id of
/// the transform slot applied at draw time. Vertices never carry shape
/// identity; identity lives at the fragment level.
#[derive(Clone, Copy, Debug, PartialEq, Eq, Structural)]
pub struct Vertex {
    pub x: i64,
    pub y: i64,
    pub color: Rgba,
    pub transform_id: u64,
}

/// An ordered vertex sequence plus an ordered index sequence, each index
/// locally zero-based into this list's own vertices.
#[derive(Clone, Debug)]
pub struct Triangles {
    pub vertices: Vec<Vertex>,
    pub indices: Vec<usize>,
}

/// Every index references a position in the list's own vertex sequence, and
/// the index count is a multiple of three.
pub open spec fn triangles_wf(t: &Triangles) -> bool {
    &&& forall|j: int| 0 <= j < t.indices@.len() ==> #[trigger] t.indices@[j] < t.vertices@.len()
    &&& t.indices@.len() % 3 == 0
}

/// The index sequence with every value shifted by `off`; meaningful when no
/// shifted value leaves the `usize` range.
pub open spec fn shift_indices(s: Seq<usize>, off: int) -> Seq<usize> {
    s.map(|_j: int, x: usize| (x + off) as usize)
}

impl Triangles {
    /// An empty triangle list.
    pub fn new() -> (r: Triangles)
        ensures
            r.vertices@.len() == 0,
            r.indices@.len() == 0,
            triangles_wf(&r),
    {
        Triangles { vertices: Vec::new(), indices: Vec::new() }
    }

    /// Appends another triangle list to this one, rebasing the other list's
    /// locally zero-based indices past this list's existing vertices, so the
    /// combined list stays self-contained.
    pub fn append_rebased(&mut self, other: &Triangles)
        requires
            triangles_wf(old(self)),
            triangles_wf(other),
        ensures
            final(self).vertices@ == old(self).vertices@ + other.vertices@,
            final(self).indices@ == old(self).indices@ + shift_indices(
                other.indices@,
                old(self).vertices@.len() as int,
            ),
            triangles_wf(final(self)),
    {
        let v_len = self.vertices.len();
        let mut k: usize = 0;
        while k < other.vertices.len()
            invariant
                k <= other.vertices@.len(),
                self.vertices@ == old(self).vertices@ + other.vertices@.subrange(0, k as int),
                self.indices@ == old(self).indices@,
            decreases other.vertices@.len() - k,
        {
            let v = other.vertices[k];
            self.vertices.push(v);
            assert(self.vertices@ =~= old(self).vertices@ + other.vertices@.subrange(0, k + 1));
            k = k + 1;
        }
        assert(other.vertices@.subrange(0, other.vertices@.len() as int) =~= other.vertices@);
        let total_v = self.vertices.len();
        let mut k: usize = 0;
        while k < other.indices.len()
            invariant
                triangles_wf(other),
                k <= other.indices@.len(),
                v_len == old(self).vertices@.len(),
                old(self).vertices@.len() + other.vertices@.len() <= usize::MAX,
                self.vertices@ == old(self).vertices@ + other.vertices@,
                self.indices@ == old(self).indices@ + shift_indices(
                    other.indices@.subrange(0, k as int),
                    v_len as int,
                ),
            decreases other.indices@.len() - k,
        {
            let j = other.indices[k];
            assert(j < other.vertices@.len());
            self.indices.push(j + v_len);
            assert(self.indices@ =~= old(self).indices@ + shift_indices(
                other.indices@.subrange(0, k + 1),
                v_len as int,
            )) by {
                assert(shift_indices(other.indices@.subrange(0, k + 1), v_len as int)
                    =~= shift_indices(other.indices@.subrange(0, k as int), v_len as int).push(
                    (j + v_len) as usize,
                ));
            }
            k = k + 1;
        }
        assert(other.indices@.subrange(0, other.indices@.len() as int) =~= other.indices@);
        proof {
            let oi = old(self).indices@;
            let sh = shift_indices(other.indices@, v_len as int);
            assert forall|j: int| 0 <= j < self.indices@.len() implies #[trigger] self.indices@[j]
                < self.vertices@.len() by {
                if j < oi.len() {
                    assert(self.indices@[j] == oi[j]);
                } else {
                    assert(self.indices@[j] == sh[j - oi.len()]);
                }
            }
        }
    }
}

/// The tessellation output for one shape: its triangles, the deepest stable
/// id of the chain from the document root down to the shape's nearest
/// id-bearing ancestor (empty if none), its update class, and the transform
/// slot recorded at that ancestor.
#[derive(Clone, Debug)]
pub struct Geometry {
    pub triangles: Triangles,
    pub id: String,
    pub class: UpdateClass,
    pub slot: u64,
}

/// The ghost image of a fragment.
#[verifier::ext_equal]
pub ghost struct GeomV {
    pub vertices: Seq<Vertex>,
    pub indices: Seq<usize>,
    pub id: Seq<char>,
    pub class: UpdateClass,
    pub slot: u64,
}

impl View for Geometry {
    type V = GeomV;

    open spec fn view(&self) -> GeomV {
        GeomV {
            vertices: self.triangles.vertices@,
            indices: self.triangles.indices@,
            id: self.id@,
            class: self.class,
            slot: self.slot,
        }
    }
}

/// The ghost images of a fragment list.
pub open spec fn geoms_view(s: Seq<Geometry>) -> Seq<GeomV> {
    s.map(|_k: int, g: Geometry| g@)
}

impl Geometry {
    /// An empty fragment with the given tags.
    pub fn empty(id: String, class: UpdateClass, slot: u64) -> (r: Geometry)
        ensures
            r.triangles.vertices@.len() == 0,
            r.triangles.indices@.len() == 0,
            r.id@ == id@,
            r.class == class,
            r.slot == slot,
            triangles_wf(&r.triangles),
    {
        Geometry { triangles: Triangles::new(), id, class, slot }
    }

    /// Appends another fragment's triangles to this one. The other
    /// fragment's locally zero-based indices are rebased past this
    /// fragment's existing vertices, so the combined list stays
    /// self-contained.
    pub fn extend(&mut self, other: &Geometry)
        requires
            triangles_wf(&old(self).triangles),
            triangles_wf(&other.triangles),
        ensures
            final(self).triangles.vertices@ == old(self).triangles.vertices@
                + other.triangles.vertices@,
            final(self).triangles.indices@ == old(self).triangles.indices@ + shift_indices(
                other.triangles.indices@,
                old(self).triangles.vertices@.len() as int,
            ),
            triangles_wf(&final(self).triangles),
            final(self).id == old(self).id,
            final(self).class == old(self).class,
            final(self).slot == old(self).slot,
    {
        self.triangles.append_rebased(&other.triangles);
    }
}

/// Concatenates a run of fragments into one self-contained triangle list,
/// rebasing each fragment's local indices past the vertices before it.
pub fn combine_fragments(frags: &Vec<Geometry>) -> (r: Triangles)
    requires
        forall|k: int| 0 <= k < frags@.len() ==> triangles_wf(&#[trigger] frags@[k].triangles),
    ensures
        r.vertices@ == concat_vertices(frags@),
        r.indices@ == concat_indices(frags@),
        triangles_wf(&r),
{
    let mut acc = Geometry::empty(String::new(), UpdateClass::Dynamic, 0);
    let mut k: usize = 0;
    while k < frags.len()
        invariant
            forall|kk: int| 0 <= kk < frags@.len() ==> triangles_wf(&#[trigger] frags@[kk].triangles),
            k <= frags@.len(),
            acc.triangles.vertices@ == concat_vertices(frags@.subrange(0, k as int)),
            acc.triangles.indices@ == concat_indices(frags@.subrange(0, k as int)),
            triangles_wf(&acc.triangles),
        decreases frags@.len() - k,
    {
        proof {
            lemma_concat_snoc(frags@.subrange(0, k + 1));
            assert(frags@.subrange(0, k + 1).drop_last() =~= frags@.subrange(0, k as int));
        }
        acc.extend(&frags[k]);
        k = k + 1;
    }
    assert(frags@.subrange(0, frags@.len() as int) =~= frags@);
    acc.triangles
}

/// The concatenation of the fragments' vertex sequences, in order.
pub open spec fn concat_vertices(frags: Seq<Geometry>) -> Seq<Vertex>
    decreases frags.len(),
{
    if frags.len() == 0 {
        Seq::empty()
    } else {
        concat_vertices(frags.drop_last()) + frags.last().triangles.vertices@
    }
}

/// The concatenation of the fragments' index sequences, each rebased past
/// the vertices of the fragments before it.
pub open spec fn concat_indices(frags: Seq<Geometry>) -> Seq<usize>
    decreases frags.len(),
{
    if frags.len() == 0 {
        Seq::empty()
    } else {
        concat_indices(frags.drop_last()) + shift_indices(
            frags.last().triangles.indices@,
            concat_vertices(frags.drop_last()).len() as int,
        )
    }
}

/// Unfolds one step of the fragment concatenation.
proof fn lemma_concat_snoc(frags: Seq<Geometry>)
    requires
        frags.len() > 0,
    ensures
        concat_vertices(frags) == concat_vertices(frags.drop_last())
            + frags.last().triangles.vertices@,
        concat_indices(frags) == concat_indices(frags.drop_last()) + shift_indices(
            frags.last().triangles.indices@,
            concat_vertices(frags.drop_last()).len() as int,
        ),
{
}

} // verus!
