//! The combined, render-ready geometry store.
//!
//! A `GeometrySet` owns the combined vertex and index arrays, partitioned
//! into exactly two update-class segments, Static then Dynamic, concatenated
//! in that fixed order by `export`. The Dynamic segment is an ordered tiling
//! of spans, one per appended fragment run; every span with a non-empty id
//! is registered and can later be replaced in place, with all trailing
//! offsets fixed up.

use vstd::prelude::*;

use crate::UpdateError;
use crate::geometry::{Geometry, Triangles, Vertex, shift_indices, triangles_wf};
use crate::tags::{UpdateClass, str_eq};

verus! {

/// An axis-aligned bounding box in document units.
#[derive(Clone, Copy, Debug, PartialEq, Eq, Structural)]
pub struct Rect {
    pub min_x: i64,
    pub min_y: i64,
    pub max_x: i64,
    pub max_y: i64,
}

/// The extent one fragment run occupies inside the Dynamic segment: its
/// vertex range, its index range, its stable id (empty when unregistered)
/// and the transform slot its content inherited at build time.
#[derive(Debug)]
pub struct Span {
    pub id: String,
    pub slot: u64,
    pub v_start: usize,
    pub v_end: usize,
    pub i_start: usize,
    pub i_end: usize,
}

/// The ghost image of a span.
#[verifier::ext_equal]
pub ghost struct SpanV {
    pub id: Seq<char>,
    pub slot: u64,
    pub v_start: int,
    pub v_end: int,
    pub i_start: int,
    pub i_end: int,
}

impl View for Span {
    type V = SpanV;

    open spec fn view(&self) -> SpanV {
        SpanV {
            id: self.id@,
            slot: self.slot,
            v_start: self.v_start as int,
            v_end: self.v_end as int,
            i_start: self.i_start as int,
            i_end: self.i_end as int,
        }
    }
}

/// The ghost images of a span list.
pub open spec fn spans_view(spans: Seq<Span>) -> Seq<SpanV> {
    spans.map(|_k: int, s: Span| s@)
}

/// Every index value references a vertex position below `vlen`.
pub open spec fn indices_bounded(idx: Seq<usize>, vlen: int) -> bool {
    forall|j: int| 0 <= j < idx.len() ==> #[trigger] idx[j] < vlen
}

/// The spans tile the Dynamic arrays: each starts where its predecessor
/// ends, the first starts at zero, the last ends at the array lengths, and
/// each span's index count is a multiple of three.
pub open spec fn spans_chained(sv: Seq<SpanV>, vlen: int, ilen: int) -> bool {
    &&& forall|k: int|
        0 <= k < sv.len() ==> (#[trigger] sv[k]).v_start <= sv[k].v_end && sv[k].i_start
            <= sv[k].i_end && (sv[k].i_end - sv[k].i_start) % 3 == 0
    &&& (sv.len() > 0 ==> sv[0].v_start == 0 && sv[0].i_start == 0)
    &&& forall|k: int, km: int|
        #![trigger sv[k], sv[km]]
        0 < k < sv.len() && km == k - 1 ==> sv[k].v_start == sv[km].v_end && sv[k].i_start
            == sv[km].i_end
    &&& (sv.len() == 0 ==> vlen == 0 && ilen == 0)
    &&& (sv.len() > 0 ==> sv.last().v_end == vlen && sv.last().i_end == ilen)
}

/// Every index stored at a position inside a span's index range references
/// a vertex inside that same span's vertex range.
pub open spec fn span_indices_local(sv: Seq<SpanV>, di: Seq<usize>) -> bool {
    forall|k: int, j: int|
        #![trigger sv[k], di[j]]
        0 <= k < sv.len() && sv[k].i_start <= j < sv[k].i_end && 0 <= j < di.len() ==> sv[k].v_start
            <= di[j] < sv[k].v_end
}

/// Non-empty span ids are pairwise distinct.
pub open spec fn span_ids_unique(sv: Seq<SpanV>) -> bool {
    forall|k: int, m: int|
        #![trigger sv[k], sv[m]]
        0 <= k < m < sv.len() && sv[k].id.len() > 0 ==> sv[k].id != sv[m].id
}

/// The combined geometry store. Created once per loaded document; the
/// Static segment is append-only after the initial build.
#[derive(Debug)]
pub struct GeometrySet {
    pub static_vertices: Vec<Vertex>,
    pub static_indices: Vec<usize>,
    pub dyn_vertices: Vec<Vertex>,
    pub dyn_indices: Vec<usize>,
    pub spans: Vec<Span>,
    pub transform_count: u64,
    pub bbox: Rect,
}

impl GeometrySet {
    /// The invariant every operation preserves: both segments are
    /// self-contained triangle lists, the spans tile the Dynamic segment,
    /// each span's indices stay inside its own vertex range, registered ids
    /// are unique, and the combined lengths stay addressable.
    pub open spec fn wf(&self) -> bool {
        &&& indices_bounded(self.static_indices@, self.static_vertices@.len() as int)
        &&& self.static_indices@.len() % 3 == 0
        &&& spans_chained(
            spans_view(self.spans@),
            self.dyn_vertices@.len() as int,
            self.dyn_indices@.len() as int,
        )
        &&& span_indices_local(spans_view(self.spans@), self.dyn_indices@)
        &&& span_ids_unique(spans_view(self.spans@))
        &&& self.static_vertices@.len() + self.dyn_vertices@.len() <= usize::MAX
        &&& self.static_indices@.len() + self.dyn_indices@.len() <= usize::MAX
    }

    /// An empty store.
    pub fn new() -> (r: GeometrySet)
        ensures
            r.wf(),
            r.static_vertices@.len() == 0,
            r.static_indices@.len() == 0,
            r.dyn_vertices@.len() == 0,
            r.dyn_indices@.len() == 0,
            r.spans@.len() == 0,
            r.transform_count == 0,
    {
        let r = GeometrySet {
            static_vertices: Vec::new(),
            static_indices: Vec::new(),
            dyn_vertices: Vec::new(),
            dyn_indices: Vec::new(),
            spans: Vec::new(),
            transform_count: 0,
            bbox: Rect { min_x: 0, min_y: 0, max_x: 0, max_y: 0 },
        };
        assert(spans_view(r.spans@) =~= Seq::<SpanV>::empty());
        r
    }

    /// The number of transform slots minted so far; the caller sizes its
    /// external transform-matrix table from this.
    pub fn transform_slot_count(&self) -> (r: u64)
        ensures
            r == self.transform_count,
    {
        self.transform_count
    }

    /// The bounding box of the whole document, as recorded at build time.
    pub fn bounding_box(&self) -> (r: Rect)
        ensures
            r == self.bbox,
    {
        self.bbox
    }
}

/// Every span's ranges lie inside the Dynamic arrays, and ends never
/// decrease from one span to a later one.
pub proof fn lemma_span_bounds(sv: Seq<SpanV>, vlen: int, ilen: int, k: int)
    requires
        spans_chained(sv, vlen, ilen),
        0 <= k < sv.len(),
    ensures
        0 <= sv[k].v_start,
        0 <= sv[k].i_start,
        sv[k].v_end <= vlen,
        sv[k].i_end <= ilen,
    decreases sv.len(),
{
    lemma_chain_nonneg(sv, k);
    assert(sv.len() > 0);
    lemma_chain_mono(sv, k, sv.len() - 1);
}

/// Span starts are non-negative.
proof fn lemma_chain_nonneg(sv: Seq<SpanV>, k: int)
    requires
        forall|kk: int|
            0 <= kk < sv.len() ==> (#[trigger] sv[kk]).v_start <= sv[kk].v_end && sv[kk].i_start
                <= sv[kk].i_end,
        sv.len() > 0 ==> sv[0].v_start == 0 && sv[0].i_start == 0,
        forall|kk: int, km: int|
            #![trigger sv[kk], sv[km]]
            0 < kk < sv.len() && km == kk - 1 ==> sv[kk].v_start == sv[km].v_end && sv[kk].i_start
                == sv[km].i_end,
        0 <= k < sv.len(),
    ensures
        0 <= sv[k].v_start,
        0 <= sv[k].i_start,
    decreases k,
{
    if k > 0 {
        lemma_chain_nonneg(sv, k - 1);
    }
}

/// Span ends never decrease from an earlier span to a later one.
proof fn lemma_chain_mono(sv: Seq<SpanV>, k: int, m: int)
    requires
        forall|kk: int|
            0 <= kk < sv.len() ==> (#[trigger] sv[kk]).v_start <= sv[kk].v_end && sv[kk].i_start
                <= sv[kk].i_end,
        forall|kk: int, km: int|
            #![trigger sv[kk], sv[km]]
            0 < kk < sv.len() && km == kk - 1 ==> sv[kk].v_start == sv[km].v_end && sv[kk].i_start
                == sv[km].i_end,
        0 <= k <= m < sv.len(),
    ensures
        sv[k].v_end <= sv[m].v_end,
        sv[k].i_end <= sv[m].i_end,
        sv[k].v_end <= sv[m].v_start || k == m,
        sv[k].i_end <= sv[m].i_start || k == m,
    decreases m - k,
{
    if k < m {
        lemma_chain_mono(sv, k, m - 1);
        assert(sv[m].v_start == sv[m - 1].v_end && sv[m].i_start == sv[m - 1].i_end);
    }
}

/// Every index position inside the Dynamic index array is covered by some
/// span.
pub proof fn lemma_span_cover_i(sv: Seq<SpanV>, vlen: int, ilen: int, j: int) -> (k: int)
    requires
        spans_chained(sv, vlen, ilen),
        0 <= j < ilen,
    ensures
        0 <= k < sv.len(),
        sv[k].i_start <= j < sv[k].i_end,
    decreases sv.len(),
{
    assert(sv.len() > 0);
    let last = sv.len() - 1;
    if sv[last].i_start <= j {
        last
    } else {
        let prefix = sv.drop_last();
        assert(spans_chained(prefix, sv[last].v_start, sv[last].i_start)) by {
            assert(forall|kk: int|
                0 <= kk < prefix.len() ==> #[trigger] prefix[kk] == sv[kk]);
            if prefix.len() > 0 {
                assert(prefix.last() == sv[last - 1]);
                assert(sv[last].v_start == sv[last - 1].v_end);
                assert(sv[last].i_start == sv[last - 1].i_end);
            } else {
                assert(sv[last].v_start == 0 && sv[last].i_start == 0);
            }
        }
        let k = lemma_span_cover_i(prefix, sv[last].v_start, sv[last].i_start, j);
        assert(sv[k] == prefix[k]);
        k
    }
}

/// Index validity of the Dynamic segment: with spans tiling the arrays and
/// each span's indices local to its own vertex range, every Dynamic index
/// value references a vertex inside the Dynamic vertex array.
pub proof fn lemma_dyn_indices_bounded(sv: Seq<SpanV>, di: Seq<usize>, vlen: int)
    requires
        spans_chained(sv, vlen, di.len() as int),
        span_indices_local(sv, di),
    ensures
        indices_bounded(di, vlen),
{
    assert forall|j: int| 0 <= j < di.len() implies #[trigger] di[j] < vlen by {
        let k = lemma_span_cover_i(sv, vlen, di.len() as int, j);
        lemma_span_bounds(sv, vlen, di.len() as int, k);
    }
}

/// Range disjointness: the Dynamic-segment vertex ranges of two distinct
/// registered ids never overlap, and likewise for their index ranges.
pub proof fn lemma_range_disjointness(g: &GeometrySet, k: int, m: int)
    requires
        g.wf(),
        0 <= k < spans_view(g.spans@).len(),
        0 <= m < spans_view(g.spans@).len(),
        k != m,
    ensures
        spans_view(g.spans@)[k].v_end <= spans_view(g.spans@)[m].v_start || spans_view(
            g.spans@,
        )[m].v_end <= spans_view(g.spans@)[k].v_start,
        spans_view(g.spans@)[k].i_end <= spans_view(g.spans@)[m].i_start || spans_view(
            g.spans@,
        )[m].i_end <= spans_view(g.spans@)[k].i_start,
{
    let sv = spans_view(g.spans@);
    let vlen = g.dyn_vertices@.len() as int;
    let ilen = g.dyn_indices@.len() as int;
    if k < m {
        lemma_chain_mono(sv, k, m);
    } else {
        lemma_chain_mono(sv, m, k);
    }
}

impl GeometrySet {
    /// Appends one fragment to its segment. Static fragments extend the
    /// Static arrays and register nothing. Dynamic fragments extend the
    /// Dynamic arrays and their span tiling: a fragment whose non-empty id
    /// matches the last span merges into it; otherwise a new span is
    /// opened, and any earlier span holding the same id is unregistered,
    /// so the latest registration wins. Returns false, changing nothing,
    /// when the combined arrays would outgrow addressable memory.
    pub fn append_fragment(&mut self, frag: &Geometry) -> (ok: bool)
        requires
            old(self).wf(),
            triangles_wf(&frag.triangles),
        ensures
            final(self).wf(),
            final(self).transform_count == old(self).transform_count,
            final(self).bbox == old(self).bbox,
            !ok ==> *final(self) == *old(self),
            ok && frag.class is Static ==> {
                &&& final(self).static_vertices@ == old(self).static_vertices@
                    + frag.triangles.vertices@
                &&& final(self).static_indices@ == old(self).static_indices@ + shift_indices(
                    frag.triangles.indices@,
                    old(self).static_vertices@.len() as int,
                )
                &&& final(self).dyn_vertices@ == old(self).dyn_vertices@
                &&& final(self).dyn_indices@ == old(self).dyn_indices@
                &&& spans_view(final(self).spans@) == spans_view(old(self).spans@)
            },
            ok && frag.class is Dynamic ==> {
                &&& final(self).static_vertices@ == old(self).static_vertices@
                &&& final(self).static_indices@ == old(self).static_indices@
                &&& final(self).dyn_vertices@ == old(self).dyn_vertices@
                    + frag.triangles.vertices@
                &&& final(self).dyn_indices@ == old(self).dyn_indices@ + shift_indices(
                    frag.triangles.indices@,
                    old(self).dyn_vertices@.len() as int,
                )
                &&& spans_view(final(self).spans@) == append_span_spec(
                    spans_view(old(self).spans@),
                    frag.id@,
                    frag.slot,
                    frag.triangles.vertices@.len() as int,
                    frag.triangles.indices@.len() as int,
                    old(self).dyn_vertices@.len() as int,
                    old(self).dyn_indices@.len() as int,
                )
            },
            ok <== old(self).static_vertices@.len() + old(self).dyn_vertices@.len()
                + frag.triangles.vertices@.len() <= usize::MAX && old(self).static_indices@.len()
                + old(self).dyn_indices@.len() + frag.triangles.indices@.len() <= usize::MAX,
            ok ==> old(self).static_vertices@.len() + old(self).dyn_vertices@.len()
                + frag.triangles.vertices@.len() <= usize::MAX && old(self).static_indices@.len()
                + old(self).dyn_indices@.len() + frag.triangles.indices@.len() <= usize::MAX,
    {
        let nv = frag.triangles.vertices.len();
        let ni = frag.triangles.indices.len();
        let sv_len = self.static_vertices.len();
        let si_len = self.static_indices.len();
        let dv_len = self.dyn_vertices.len();
        let di_len = self.dyn_indices.len();
        if usize::MAX - sv_len < dv_len || usize::MAX - (sv_len + dv_len) < nv {
            return false;
        }
        if usize::MAX - si_len < di_len || usize::MAX - (si_len + di_len) < ni {
            return false;
        }
        match frag.class {
            UpdateClass::Static => {
                let mut seg = Triangles { vertices: Vec::new(), indices: Vec::new() };
                core::mem::swap(&mut seg.vertices, &mut self.static_vertices);
                core::mem::swap(&mut seg.indices, &mut self.static_indices);
                seg.append_rebased(&frag.triangles);
                core::mem::swap(&mut seg.vertices, &mut self.static_vertices);
                core::mem::swap(&mut seg.indices, &mut self.static_indices);
                true
            },
            UpdateClass::Dynamic => {
                let mut seg = Triangles { vertices: Vec::new(), indices: Vec::new() };
                core::mem::swap(&mut seg.vertices, &mut self.dyn_vertices);
                core::mem::swap(&mut seg.indices, &mut self.dyn_indices);
                assert(triangles_wf(&seg)) by {
                    lemma_dyn_indices_bounded(
                        spans_view(old(self).spans@),
                        old(self).dyn_indices@,
                        old(self).dyn_vertices@.len() as int,
                    );
                    assert(spans_chained(
                        spans_view(old(self).spans@),
                        old(self).dyn_vertices@.len() as int,
                        old(self).dyn_indices@.len() as int,
                    ));
                    lemma_dyn_ilen_mod3(
                        spans_view(old(self).spans@),
                        old(self).dyn_vertices@.len() as int,
                        old(self).dyn_indices@.len() as int,
                    );
                }
                seg.append_rebased(&frag.triangles);
                core::mem::swap(&mut seg.vertices, &mut self.dyn_vertices);
                core::mem::swap(&mut seg.indices, &mut self.dyn_indices);
                self.append_span(frag, dv_len, di_len, nv, ni);
                proof {
                    lemma_append_span_wf(
                        spans_view(old(self).spans@),
                        frag.id@,
                        frag.slot,
                        frag.triangles.indices@,
                        nv as int,
                        dv_len as int,
                        di_len as int,
                        old(self).dyn_indices@,
                        self.dyn_indices@,
                    );
                }
                true
            },
        }
    }
}

/// The total Dynamic index count is a multiple of three, because each
/// span's count is.
#[verifier::rlimit(30)]
proof fn lemma_dyn_ilen_mod3(sv: Seq<SpanV>, vlen: int, ilen: int)
    requires
        spans_chained(sv, vlen, ilen),
    ensures
        ilen % 3 == 0,
{
    if sv.len() > 0 {
        let last = sv.len() - 1;
        lemma_istart_mod3(sv, last);
        assert(ilen == sv[last].i_start + (sv[last].i_end - sv[last].i_start));
    }
}

/// Each span's index start is a multiple of three.
proof fn lemma_istart_mod3(sv: Seq<SpanV>, k: int)
    requires
        forall|kk: int|
            0 <= kk < sv.len() ==> ((#[trigger] sv[kk]).i_end - sv[kk].i_start) % 3 == 0,
        sv.len() > 0 ==> sv[0].i_start == 0,
        forall|kk: int, km: int|
            #![trigger sv[kk], sv[km]]
            0 < kk < sv.len() && km == kk - 1 ==> sv[kk].i_start == sv[km].i_end,
        0 <= k < sv.len(),
    ensures
        sv[k].i_start % 3 == 0,
    decreases k,
{
    if k > 0 {
        lemma_istart_mod3(sv, k - 1);
        let a = sv[k - 1].i_start;
        let d = sv[k - 1].i_end - sv[k - 1].i_start;
        assert(sv[k].i_start == a + d);
        assert(a % 3 == 0 && d % 3 == 0);
        vstd::arithmetic::div_mod::lemma_add_mod_noop(a, d, 3);
    }
}

impl GeometrySet {
    /// Exports the render-ready combined arrays: the Static segment's
    /// arrays concatenated with the Dynamic segment's, the Dynamic index
    /// values emitted with the Static vertex count added as a global
    /// offset. Every exported index value references a position inside the
    /// combined vertex array.
    pub fn export(&self) -> (r: Triangles)
        requires
            self.wf(),
        ensures
            r.vertices@ == self.static_vertices@ + self.dyn_vertices@,
            r.indices@ == self.static_indices@ + shift_indices(
                self.dyn_indices@,
                self.static_vertices@.len() as int,
            ),
            triangles_wf(&r),
    {
        proof {
            lemma_dyn_indices_bounded(
                spans_view(self.spans@),
                self.dyn_indices@,
                self.dyn_vertices@.len() as int,
            );
            lemma_dyn_ilen_mod3(
                spans_view(self.spans@),
                self.dyn_vertices@.len() as int,
                self.dyn_indices@.len() as int,
            );
        }
        let mut r = Triangles::new();
        let sv_len = self.static_vertices.len();
        let mut k: usize = 0;
        while k < self.static_vertices.len()
            invariant
                k <= self.static_vertices@.len(),
                r.vertices@ == self.static_vertices@.subrange(0, k as int),
                r.indices@.len() == 0,
            decreases self.static_vertices@.len() - k,
        {
            r.vertices.push(self.static_vertices[k]);
            assert(r.vertices@ =~= self.static_vertices@.subrange(0, k + 1));
            k = k + 1;
        }
        assert(r.vertices@ =~= self.static_vertices@);
        let mut k: usize = 0;
        while k < self.dyn_vertices.len()
            invariant
                k <= self.dyn_vertices@.len(),
                r.vertices@ == self.static_vertices@ + self.dyn_vertices@.subrange(0, k as int),
                r.indices@.len() == 0,
            decreases self.dyn_vertices@.len() - k,
        {
            r.vertices.push(self.dyn_vertices[k]);
            assert(r.vertices@ =~= self.static_vertices@ + self.dyn_vertices@.subrange(0, k + 1));
            k = k + 1;
        }
        assert(r.vertices@ =~= self.static_vertices@ + self.dyn_vertices@);
        let mut k: usize = 0;
        while k < self.static_indices.len()
            invariant
                k <= self.static_indices@.len(),
                r.vertices@ == self.static_vertices@ + self.dyn_vertices@,
                r.indices@ == self.static_indices@.subrange(0, k as int),
            decreases self.static_indices@.len() - k,
        {
            r.indices.push(self.static_indices[k]);
            assert(r.indices@ =~= self.static_indices@.subrange(0, k + 1));
            k = k + 1;
        }
        assert(r.indices@ =~= self.static_indices@);
        let mut k: usize = 0;
        while k < self.dyn_indices.len()
            invariant
                self.wf(),
                indices_bounded(self.dyn_indices@, self.dyn_vertices@.len() as int),
                sv_len == self.static_vertices@.len(),
                k <= self.dyn_indices@.len(),
                r.vertices@ == self.static_vertices@ + self.dyn_vertices@,
                r.indices@ == self.static_indices@ + shift_indices(
                    self.dyn_indices@.subrange(0, k as int),
                    sv_len as int,
                ),
            decreases self.dyn_indices@.len() - k,
        {
            let j = self.dyn_indices[k];
            r.indices.push(j + sv_len);
            assert(r.indices@ =~= self.static_indices@ + shift_indices(
                self.dyn_indices@.subrange(0, k + 1),
                sv_len as int,
            )) by {
                assert(shift_indices(self.dyn_indices@.subrange(0, k + 1), sv_len as int)
                    =~= shift_indices(self.dyn_indices@.subrange(0, k as int), sv_len as int).push(
                    (j + sv_len) as usize,
                ));
            }
            k = k + 1;
        }
        assert(r.indices@ =~= self.static_indices@ + shift_indices(
            self.dyn_indices@,
            sv_len as int,
        ));
        proof {
            let si = self.static_indices@;
            let sh = shift_indices(self.dyn_indices@, sv_len as int);
            assert forall|j: int| 0 <= j < r.indices@.len() implies #[trigger] r.indices@[j]
                < r.vertices@.len() by {
                if j < si.len() {
                    assert(r.indices@[j] == si[j]);
                } else {
                    assert(r.indices@[j] == sh[j - si.len()]);
                    assert(self.dyn_indices@[j - si.len()] < self.dyn_vertices@.len());
                }
            }
            let dl = self.dyn_indices@.len() as int;
            assert(r.indices@.len() == si.len() + dl);
            vstd::arithmetic::div_mod::lemma_add_mod_noop(si.len() as int, dl, 3);
        }
        r
    }
}

/// Index validity: every exported combined index value is below the
/// combined vertex array length.
pub proof fn lemma_index_validity(g: &GeometrySet)
    requires
        g.wf(),
    ensures
        indices_bounded(
            g.static_indices@ + shift_indices(g.dyn_indices@, g.static_vertices@.len() as int),
            g.static_vertices@.len() + g.dyn_vertices@.len() as int,
        ),
{
    lemma_dyn_indices_bounded(
        spans_view(g.spans@),
        g.dyn_indices@,
        g.dyn_vertices@.len() as int,
    );
    let si = g.static_indices@;
    let svl = g.static_vertices@.len() as int;
    let sh = shift_indices(g.dyn_indices@, svl);
    assert forall|j: int| 0 <= j < (si + sh).len() implies #[trigger] (si + sh)[j] < svl
        + g.dyn_vertices@.len() as int by {
        if j < si.len() {
            assert((si + sh)[j] == si[j]);
        } else {
            assert((si + sh)[j] == sh[j - si.len()]);
            assert(g.dyn_indices@[j - si.len()] < g.dyn_vertices@.len());
        }
    }
}

/// The position of the first span registered under `id`, or `-1` when no
/// span holds that id.
pub open spec fn find_span_spec(sv: Seq<SpanV>, id: Seq<char>) -> int
    decreases sv.len(),
{
    if sv.len() == 0 {
        -1
    } else if sv[0].id == id && id.len() > 0 {
        0
    } else {
        let r = find_span_spec(sv.drop_first(), id);
        if r < 0 {
            -1
        } else {
            r + 1
        }
    }
}

/// What the first-match position means: a negative result is the absence
/// of any span under `id`; a non-negative result is the first such span.
pub proof fn lemma_find_span_spec(sv: Seq<SpanV>, id: Seq<char>)
    ensures
        find_span_spec(sv, id) < 0 ==> forall|k: int|
            0 <= k < sv.len() ==> !((#[trigger] sv[k]).id == id && id.len() > 0),
        find_span_spec(sv, id) >= 0 ==> {
            let k = find_span_spec(sv, id);
            &&& k < sv.len()
            &&& sv[k].id == id
            &&& id.len() > 0
            &&& forall|m: int| 0 <= m < k ==> (#[trigger] sv[m]).id != id
        },
    decreases sv.len(),
{
    if sv.len() > 0 && !(sv[0].id == id && id.len() > 0) {
        lemma_find_span_spec(sv.drop_first(), id);
        assert(forall|k: int|
            1 <= k < sv.len() ==> #[trigger] sv[k] == sv.drop_first()[k - 1]);
    }
}

impl GeometrySet {
    /// Finds the span registered under `id`.
    fn find_span(&self, id: &str) -> (r: Option<usize>)
        ensures
            match r {
                Some(k) => k == find_span_spec(spans_view(self.spans@), id@),
                None => find_span_spec(spans_view(self.spans@), id@) < 0,
            },
    {
        proof {
            lemma_find_span_spec(spans_view(self.spans@), id@);
        }
        if id.is_empty() {
            proof {
                let sv = spans_view(self.spans@);
                if find_span_spec(sv, id@) >= 0 {
                    assert(id@.len() > 0);
                }
            }
            return None;
        }
        let mut k: usize = 0;
        while k < self.spans.len()
            invariant
                k <= self.spans@.len(),
                id@.len() > 0,
                forall|m: int| 0 <= m < k ==> (#[trigger] spans_view(self.spans@)[m]).id != id@,
            decreases self.spans@.len() - k,
        {
            if str_eq(self.spans[k].id.as_str(), id) {
                proof {
                    let sv = spans_view(self.spans@);
                    lemma_find_span_spec(sv, id@);
                    let f = find_span_spec(sv, id@);
                    assert(sv[k as int].id == id@);
                    assert(f >= 0);
                    assert(!(f < k)) by {
                        assert(forall|m: int| 0 <= m < k ==> (#[trigger] sv[m]).id != id@);
                    }
                    assert(!(f > k)) by {
                        if f > k {
                            assert(sv[k as int].id != id@);
                        }
                    }
                }
                return Some(k);
            }
            k = k + 1;
        }
        proof {
            let sv = spans_view(self.spans@);
            lemma_find_span_spec(sv, id@);
            if find_span_spec(sv, id@) >= 0 {
                let f = find_span_spec(sv, id@);
                assert(sv[f].id == id@);
            }
        }
        None
    }
}

/// The span tiling after one Dynamic fragment run of `nv` vertices and
/// `ni` indices is appended at `(vlen, ilen)`: a merge into a matching
/// last span, or a fresh span after unregistering any earlier holder of
/// the same id.
pub open spec fn append_span_spec(
    sv: Seq<SpanV>,
    id: Seq<char>,
    slot: u64,
    nv: int,
    ni: int,
    vlen: int,
    ilen: int,
) -> Seq<SpanV> {
    if sv.len() > 0 && id.len() > 0 && sv.last().id == id {
        sv.update(
            sv.len() - 1,
            SpanV {
                id: sv.last().id,
                slot: sv.last().slot,
                v_start: sv.last().v_start,
                v_end: vlen + nv,
                i_start: sv.last().i_start,
                i_end: ilen + ni,
            },
        )
    } else {
        blank_id(sv, id).push(
            SpanV { id, slot, v_start: vlen, v_end: vlen + nv, i_start: ilen, i_end: ilen + ni },
        )
    }
}

/// The span list with every span holding `id` unregistered; blank ids
/// never match.
pub open spec fn blank_id(sv: Seq<SpanV>, id: Seq<char>) -> Seq<SpanV> {
    sv.map(
        |_k: int, s: SpanV|
            if s.id == id && id.len() > 0 {
                SpanV {
                    id: Seq::empty(),
                    slot: s.slot,
                    v_start: s.v_start,
                    v_end: s.v_end,
                    i_start: s.i_start,
                    i_end: s.i_end,
                }
            } else {
                s
            },
    )
}

/// Appending one Dynamic fragment run preserves the Dynamic segment's
/// invariants: the extended tiling stays chained over the extended arrays,
/// every span's indices stay local, and registered ids stay unique.
pub proof fn lemma_append_span_wf(
    sv0: Seq<SpanV>,
    id: Seq<char>,
    slot: u64,
    fi: Seq<usize>,
    nv: int,
    vlen: int,
    ilen: int,
    di0: Seq<usize>,
    di1: Seq<usize>,
)
    requires
        spans_chained(sv0, vlen, ilen),
        span_indices_local(sv0, di0),
        span_ids_unique(sv0),
        di0.len() == ilen,
        forall|j: int| 0 <= j < fi.len() ==> #[trigger] fi[j] < nv,
        fi.len() % 3 == 0,
        0 <= nv,
        0 <= vlen,
        vlen + nv <= usize::MAX,
        di1 == di0 + shift_indices(fi, vlen),
    ensures
        spans_chained(
            append_span_spec(sv0, id, slot, nv, fi.len() as int, vlen, ilen),
            vlen + nv,
            ilen + fi.len(),
        ),
        span_indices_local(append_span_spec(sv0, id, slot, nv, fi.len() as int, vlen, ilen), di1),
        span_ids_unique(append_span_spec(sv0, id, slot, nv, fi.len() as int, vlen, ilen)),
{
    let ni = fi.len() as int;
    let sv1 = append_span_spec(sv0, id, slot, nv, ni, vlen, ilen);
    assert(shift_indices(fi, vlen).len() == ni);
    assert forall|j: int| ilen <= j < ilen + ni implies #[trigger] di1[j] == fi[j - ilen] + vlen by {
        assert(di1[j] == shift_indices(fi, vlen)[j - ilen]);
        assert(shift_indices(fi, vlen)[j - ilen] == (fi[j - ilen] + vlen) as usize);
        assert(fi[j - ilen] + vlen <= usize::MAX);
    }
    assert(forall|j: int| 0 <= j < ilen ==> #[trigger] di1[j] == di0[j]);
    if sv0.len() > 0 && id.len() > 0 && sv0.last().id == id {
        let last = sv0.len() - 1;
        assert(sv1.len() == sv0.len());
        assert(forall|k: int| 0 <= k < last ==> #[trigger] sv1[k] == sv0[k]);
        assert(sv0[last].v_start <= vlen && sv0[last].i_start <= ilen);
        assert((sv1[last].i_end - sv1[last].i_start) % 3 == 0) by {
            assert(sv1[last].i_end - sv1[last].i_start == (ilen - sv0[last].i_start) + ni);
        }
        assert(spans_chained(sv1, vlen + nv, ilen + ni));
        assert forall|k: int, j: int|
            #![trigger sv1[k], di1[j]]
            0 <= k < sv1.len() && sv1[k].i_start <= j < sv1[k].i_end && 0 <= j < di1.len()
            implies sv1[k].v_start <= di1[j] < sv1[k].v_end by {
            if k < last {
                lemma_chain_mono(sv0, k, last);
                assert(j < ilen);
                assert(sv0[k].v_start <= di0[j] < sv0[k].v_end);
            } else {
                if j < ilen {
                    assert(sv0[last].i_start <= j < ilen);
                    assert(sv0[last].v_start <= di0[j] < sv0[last].v_end);
                    assert(sv0[last].v_end <= vlen);
                } else {
                    assert(di1[j] == fi[j - ilen] + vlen);
                    assert(fi[j - ilen] < nv);
                }
            }
        }
        assert(span_ids_unique(sv1)) by {
            assert(forall|k: int| 0 <= k < sv1.len() ==> (#[trigger] sv1[k]).id == sv0[k].id);
        }
    } else {
        let b = blank_id(sv0, id);
        let newly = SpanV {
            id,
            slot,
            v_start: vlen,
            v_end: vlen + nv,
            i_start: ilen,
            i_end: ilen + ni,
        };
        assert(sv1 == b.push(newly));
        assert(b.len() == sv0.len());
        assert(forall|k: int|
            0 <= k < sv0.len() ==> ((#[trigger] b[k]).v_start == sv0[k].v_start && b[k].v_end
                == sv0[k].v_end && b[k].i_start == sv0[k].i_start && b[k].i_end == sv0[k].i_end
                && b[k].slot == sv0[k].slot));
        assert(forall|k: int| 0 <= k < sv1.len() - 1 ==> #[trigger] sv1[k] == b[k]);
        assert(sv1.last() == newly);
        assert(spans_chained(sv1, vlen + nv, ilen + ni)) by {
            assert forall|k: int| 0 <= k < sv1.len() implies (#[trigger] sv1[k]).v_start == (
            if k == 0 {
                0int
            } else {
                sv1[k - 1].v_end
            }) && sv1[k].i_start == (
            if k == 0 {
                0int
            } else {
                sv1[k - 1].i_end
            }) && sv1[k].v_start <= sv1[k].v_end && sv1[k].i_start <= sv1[k].i_end && (sv1[k].i_end
                - sv1[k].i_start) % 3 == 0 by {
                if k < sv1.len() - 1 {
                    assert(sv1[k] == b[k]);
                } else {
                    if sv0.len() == 0 {
                        assert(vlen == 0 && ilen == 0);
                    } else {
                        assert(sv1[k - 1] == b[k - 1]);
                        assert(sv0.last().v_end == vlen && sv0.last().i_end == ilen);
                    }
                }
            }
        }
        assert forall|k: int, j: int|
            #![trigger sv1[k], di1[j]]
            0 <= k < sv1.len() && sv1[k].i_start <= j < sv1[k].i_end && 0 <= j < di1.len()
            implies sv1[k].v_start <= di1[j] < sv1[k].v_end by {
            if k < sv1.len() - 1 {
                lemma_span_bounds(sv0, vlen, ilen, k);
                assert(j < ilen);
                assert(sv0[k].v_start <= di0[j] < sv0[k].v_end);
            } else {
                assert(di1[j] == fi[j - ilen] + vlen);
                assert(fi[j - ilen] < nv);
            }
        }
        assert(span_ids_unique(sv1)) by {
            assert forall|k: int, m: int|
                #![trigger sv1[k], sv1[m]]
                0 <= k < m < sv1.len() && sv1[k].id.len() > 0 implies sv1[k].id != sv1[m].id by {
                if m < sv1.len() - 1 {
                    assert(sv1[k] == b[k] && sv1[m] == b[m]);
                    assert(b[k].id.len() > 0 ==> b[k].id == sv0[k].id && b[k].id != id);
                    assert(b[m].id == sv0[m].id || b[m].id.len() == 0);
                    if b[m].id.len() > 0 {
                        assert(sv0[k].id != sv0[m].id);
                    }
                } else {
                    assert(sv1[k] == b[k]);
                    assert(b[k].id.len() > 0 ==> b[k].id != id);
                }
            }
        }
    }
}

impl GeometrySet {
    /// Extends the span tiling for a Dynamic fragment appended at the old
    /// array ends.
    fn append_span(&mut self, frag: &Geometry, vlen: usize, ilen: usize, nv: usize, ni: usize)
        requires
            vlen + nv <= usize::MAX,
            ilen + ni <= usize::MAX,
        ensures
            spans_view(final(self).spans@) == append_span_spec(
                spans_view(old(self).spans@),
                frag.id@,
                frag.slot,
                nv as int,
                ni as int,
                vlen as int,
                ilen as int,
            ),
            final(self).static_vertices@ == old(self).static_vertices@,
            final(self).static_indices@ == old(self).static_indices@,
            final(self).dyn_vertices@ == old(self).dyn_vertices@,
            final(self).dyn_indices@ == old(self).dyn_indices@,
            final(self).transform_count == old(self).transform_count,
            final(self).bbox == old(self).bbox,
    {
        let ghost sv0 = spans_view(old(self).spans@);
        let n_spans = self.spans.len();
        let id_nonempty = !frag.id.as_str().is_empty();
        let mut merged = false;
        if n_spans > 0 && id_nonempty {
            let last = &self.spans[n_spans - 1];
            if str_eq(last.id.as_str(), frag.id.as_str()) {
                let old_span = self.spans.pop().unwrap();
                self.spans.push(
                    Span {
                        id: old_span.id,
                        slot: old_span.slot,
                        v_start: old_span.v_start,
                        v_end: vlen + nv,
                        i_start: old_span.i_start,
                        i_end: ilen + ni,
                    },
                );
                merged = true;
                assert(spans_view(self.spans@) =~= append_span_spec(
                    sv0,
                    frag.id@,
                    frag.slot,
                    nv as int,
                    ni as int,
                    vlen as int,
                    ilen as int,
                ));
            }
        }
        if !merged {
            if id_nonempty {
                let mut k: usize = 0;
                assert(spans_view(self.spans@) =~= blank_id(sv0, frag.id@).subrange(0, 0)
                    + sv0.subrange(0, sv0.len() as int));
                while k < self.spans.len()
                    invariant
                        k <= self.spans@.len(),
                        self.spans@.len() == sv0.len(),
                        spans_view(self.spans@) == blank_id(sv0, frag.id@).subrange(0, k as int)
                            + sv0.subrange(k as int, sv0.len() as int),
                        sv0 == spans_view(old(self).spans@),
                        self.static_vertices@ == old(self).static_vertices@,
                        self.static_indices@ == old(self).static_indices@,
                        self.dyn_vertices@ == old(self).dyn_vertices@,
                        self.dyn_indices@ == old(self).dyn_indices@,
                        self.transform_count == old(self).transform_count,
                        self.bbox == old(self).bbox,
                        frag.id@.len() > 0,
                    decreases self.spans@.len() - k,
                {
                    let ghost prev = self.spans@;
                    let matches = str_eq(self.spans[k].id.as_str(), frag.id.as_str());
                    if matches {
                        let s = &self.spans[k];
                        let replacement = Span {
                            id: String::new(),
                            slot: s.slot,
                            v_start: s.v_start,
                            v_end: s.v_end,
                            i_start: s.i_start,
                            i_end: s.i_end,
                        };
                        let slot_ref = vstd::std_specs::vec::vec_index_mut(&mut self.spans, k);
                        *slot_ref = replacement;
                    }
                    proof {
                        let b = blank_id(sv0, frag.id@);
                        let goal = b.subrange(0, k + 1) + sv0.subrange(k + 1, sv0.len() as int);
                        assert(spans_view(prev)[k as int] == sv0[k as int]);
                        assert forall|t: int| 0 <= t < sv0.len() implies spans_view(
                            self.spans@,
                        )[t] == goal[t] by {
                            if t == k {
                                assert(spans_view(self.spans@)[t] == self.spans@[t]@);
                                assert(goal[t] == b[t]);
                            } else {
                                assert(self.spans@[t] == prev[t]);
                                assert(spans_view(prev)[t] == (b.subrange(0, k as int)
                                    + sv0.subrange(k as int, sv0.len() as int))[t]);
                                if t < k {
                                    assert(goal[t] == b[t]);
                                } else {
                                    assert(goal[t] == sv0[t]);
                                }
                            }
                        }
                        assert(spans_view(self.spans@) =~= goal);
                    }
                    k = k + 1;
                }
                assert(spans_view(self.spans@) =~= blank_id(sv0, frag.id@));
            } else {
                assert(blank_id(sv0, frag.id@) =~= spans_view(self.spans@));
            }
            self.spans.push(
                Span {
                    id: frag.id.clone(),
                    slot: frag.slot,
                    v_start: vlen,
                    v_end: vlen + nv,
                    i_start: ilen,
                    i_end: ilen + ni,
                },
            );
            assert(spans_view(self.spans@) =~= append_span_spec(
                sv0,
                frag.id@,
                frag.slot,
                nv as int,
                ni as int,
                vlen as int,
                ilen as int,
            ));
        }
    }
}

/// The Dynamic vertex array after the vertex range `[vs, ve)` is replaced
/// with `nvs`.
pub open spec fn splice_vertices(dv: Seq<Vertex>, vs: int, ve: int, nvs: Seq<Vertex>) -> Seq<
    Vertex,
> {
    dv.subrange(0, vs) + nvs + dv.subrange(ve, dv.len() as int)
}

/// The Dynamic index array after the index range `[is0, ie)` is replaced
/// with `local` rebased to the splice point `vs`, with every trailing
/// value shifted by the vertex-count change `delta_v`.
pub open spec fn splice_indices(
    di: Seq<usize>,
    is0: int,
    ie: int,
    local: Seq<usize>,
    vs: int,
    delta_v: int,
) -> Seq<usize> {
    di.subrange(0, is0) + shift_indices(local, vs) + shift_indices(
        di.subrange(ie, di.len() as int),
        delta_v,
    )
}

/// The span tiling after span `k`'s content is replaced by `nv` vertices
/// and `ni` indices: spans before `k` are untouched, `k` takes the new
/// extent, and every later span is shifted by the two deltas.
pub open spec fn splice_spans(sv: Seq<SpanV>, k: int, nv: int, ni: int) -> Seq<SpanV> {
    let dvd = nv - (sv[k].v_end - sv[k].v_start);
    let did = ni - (sv[k].i_end - sv[k].i_start);
    sv.map(
        |m: int, s: SpanV|
            if m < k {
                s
            } else if m == k {
                SpanV {
                    id: s.id,
                    slot: s.slot,
                    v_start: s.v_start,
                    v_end: s.v_start + nv,
                    i_start: s.i_start,
                    i_end: s.i_start + ni,
                }
            } else {
                SpanV {
                    id: s.id,
                    slot: s.slot,
                    v_start: s.v_start + dvd,
                    v_end: s.v_end + dvd,
                    i_start: s.i_start + did,
                    i_end: s.i_end + did,
                }
            },
    )
}

/// Index values stored before a span's index range reference vertices
/// before its vertex range.
pub proof fn lemma_indices_before(sv: Seq<SpanV>, di: Seq<usize>, vlen: int, k: int)
    requires
        spans_chained(sv, vlen, di.len() as int),
        span_indices_local(sv, di),
        0 <= k < sv.len(),
    ensures
        forall|j: int| 0 <= j < sv[k].i_start ==> #[trigger] di[j] < sv[k].v_start,
{
    lemma_span_bounds(sv, vlen, di.len() as int, k);
    assert forall|j: int| 0 <= j < sv[k].i_start implies #[trigger] di[j] < sv[k].v_start by {
        let m = lemma_span_cover_i(sv, vlen, di.len() as int, j);
        if m >= k {
            lemma_chain_mono(sv, k, m);
            assert(false);
        } else {
            lemma_chain_mono(sv, m, k);
            assert(di[j] < sv[m].v_end);
        }
    }
}

/// Index values stored after a span's index range reference vertices at or
/// after its vertex range end, and inside the Dynamic vertex array.
pub proof fn lemma_indices_after(sv: Seq<SpanV>, di: Seq<usize>, vlen: int, k: int)
    requires
        spans_chained(sv, vlen, di.len() as int),
        span_indices_local(sv, di),
        0 <= k < sv.len(),
    ensures
        forall|j: int| sv[k].i_end <= j < di.len() ==> sv[k].v_end <= #[trigger] di[j] < vlen,
{
    lemma_span_bounds(sv, vlen, di.len() as int, k);
    assert forall|j: int| sv[k].i_end <= j < di.len() implies sv[k].v_end <= #[trigger] di[j]
        < vlen by {
        let m = lemma_span_cover_i(sv, vlen, di.len() as int, j);
        if m <= k {
            lemma_chain_mono(sv, m, k);
            assert(false);
        } else {
            lemma_chain_mono(sv, k, m);
            lemma_span_bounds(sv, vlen, di.len() as int, m);
            assert(sv[m].v_start <= di[j] < sv[m].v_end);
        }
    }
}

/// The spliced index array, element by element.
pub proof fn lemma_splice_indices_at(
    di: Seq<usize>,
    is0: int,
    ie: int,
    local: Seq<usize>,
    vs: int,
    delta_v: int,
    j: int,
)
    requires
        0 <= is0 <= ie <= di.len(),
        0 <= j < di.len() - (ie - is0) + local.len(),
    ensures
        splice_indices(di, is0, ie, local, vs, delta_v).len() == di.len() - (ie - is0)
            + local.len(),
        j < is0 ==> splice_indices(di, is0, ie, local, vs, delta_v)[j] == di[j],
        is0 <= j < is0 + local.len() ==> splice_indices(di, is0, ie, local, vs, delta_v)[j] == (
        local[j - is0] + vs) as usize,
        is0 + local.len() <= j ==> splice_indices(di, is0, ie, local, vs, delta_v)[j] == (di[j - (
        local.len() - (ie - is0))] + delta_v) as usize,
{
    let r = splice_indices(di, is0, ie, local, vs, delta_v);
    if j < is0 {
        assert(r[j] == di.subrange(0, is0)[j]);
    } else if j < is0 + local.len() {
        assert(r[j] == shift_indices(local, vs)[j - is0]);
    } else {
        let t = j - (is0 + local.len());
        assert(r[j] == shift_indices(di.subrange(ie, di.len() as int), delta_v)[t]);
        assert(di.subrange(ie, di.len() as int)[t] == di[ie + t]);
    }
}

/// The spliced tiling is chained over the spliced array lengths.
#[verifier::spinoff_prover]
#[verifier::rlimit(100)]
pub proof fn lemma_splice_chained(sv: Seq<SpanV>, dvlen: int, ilen: int, k: int, nv: int, ni: int)
    requires
        spans_chained(sv, dvlen, ilen),
        0 <= k < sv.len(),
        0 <= nv,
        0 <= ni,
        ni % 3 == 0,
    ensures
        spans_chained(
            splice_spans(sv, k, nv, ni),
            dvlen - (sv[k].v_end - sv[k].v_start) + nv,
            ilen - (sv[k].i_end - sv[k].i_start) + ni,
        ),
{
    let vs = sv[k].v_start;
    let ve = sv[k].v_end;
    let is0 = sv[k].i_start;
    let ie = sv[k].i_end;
    let dvd = nv - (ve - vs);
    let did = ni - (ie - is0);
    let sv1 = splice_spans(sv, k, nv, ni);
    assert(sv1.len() == sv.len());
    assert forall|m: int| 0 <= m < sv1.len() implies (#[trigger] sv1[m]).v_start <= sv1[m].v_end
        && sv1[m].i_start <= sv1[m].i_end && (sv1[m].i_end - sv1[m].i_start) % 3 == 0
        && sv1[m].v_start == (
    if m == 0 {
        0int
    } else {
        sv1[m - 1].v_end
    }) && sv1[m].i_start == (
    if m == 0 {
        0int
    } else {
        sv1[m - 1].i_end
    }) by {
        assert((sv1[m].i_end - sv1[m].i_start) % 3 == 0) by {
            if m == k {
                assert(sv1[m].i_end - sv1[m].i_start == ni);
            } else {
                assert(sv1[m].i_end - sv1[m].i_start == sv[m].i_end - sv[m].i_start);
            }
        }
        if m > 0 {
            assert(sv[m].v_start == sv[m - 1].v_end && sv[m].i_start == sv[m - 1].i_end);
        }
    }
    let last = sv.len() - 1;
    if k == last {
        assert(ve == dvlen && ie == ilen);
        assert(sv1[last].v_end == vs + nv == dvlen + dvd);
    } else {
        assert(sv1[last].v_end == sv[last].v_end + dvd == dvlen + dvd);
    }
}

/// The spliced indices stay local to the spliced spans.
#[verifier::spinoff_prover]
#[verifier::rlimit(100)]
pub proof fn lemma_splice_local(sv: Seq<SpanV>, di: Seq<usize>, dvlen: int, k: int, local: Seq<
    usize,
>, nv: int)
    requires
        spans_chained(sv, dvlen, di.len() as int),
        span_indices_local(sv, di),
        0 <= k < sv.len(),
        forall|j: int| 0 <= j < local.len() ==> #[trigger] local[j] < nv,
        0 <= nv,
        dvlen - (sv[k].v_end - sv[k].v_start) + nv <= usize::MAX,
        di.len() - (sv[k].i_end - sv[k].i_start) + local.len() <= usize::MAX,
    ensures
        span_indices_local(
            splice_spans(sv, k, nv, local.len() as int),
            splice_indices(
                di,
                sv[k].i_start,
                sv[k].i_end,
                local,
                sv[k].v_start,
                sv[k].v_start + nv - sv[k].v_end,
            ),
        ),
{
    let ni = local.len() as int;
    let vs = sv[k].v_start;
    let ve = sv[k].v_end;
    let is0 = sv[k].i_start;
    let ie = sv[k].i_end;
    let dvd = nv - (ve - vs);
    let did = ni - (ie - is0);
    let sv1 = splice_spans(sv, k, nv, ni);
    let di1 = splice_indices(di, is0, ie, local, vs, vs + nv - ve);
    lemma_span_bounds(sv, dvlen, di.len() as int, k);
    assert(di1.len() == is0 + local.len() + (di.len() - ie));
    assert forall|m: int, j: int|
        #![trigger sv1[m], di1[j]]
        0 <= m < sv1.len() && sv1[m].i_start <= j < sv1[m].i_end && 0 <= j < di1.len()
        implies sv1[m].v_start <= di1[j] < sv1[m].v_end by {
        lemma_splice_indices_at(di, is0, ie, local, vs, vs + nv - ve, j);
        if m < k {
            lemma_chain_mono(sv, m, k);
            assert(j < is0);
            assert(di1[j] == di[j]);
            assert(sv[m].v_start <= di[j] < sv[m].v_end);
        } else if m == k {
            assert(is0 <= j < is0 + ni);
            assert(local[j - is0] < nv);
            assert(0 <= vs);
            assert(local[j - is0] + vs <= usize::MAX) by {
                assert(vs + nv <= dvlen - (ve - vs) + nv);
            }
            assert(di1[j] == (local[j - is0] + vs) as usize);
        } else {
            lemma_chain_mono(sv, k, m);
            lemma_span_bounds(sv, dvlen, di.len() as int, m);
            assert(sv1[m].i_start == sv[m].i_start + did);
            assert(is0 + ni <= j);
            let jj = j - did;
            assert(sv[m].i_start <= jj < sv[m].i_end);
            assert(sv[m].v_start <= di[jj] < sv[m].v_end);
            assert(ve <= di[jj]) by {
                assert(ve <= sv[m].v_start);
            }
            assert(0 <= di[jj] + (vs + nv - ve));
            assert(di[jj] + (vs + nv - ve) <= usize::MAX) by {
                assert(di[jj] < dvlen);
            }
            assert(di1[j] == (di[jj] + (vs + nv - ve)) as usize);
        }
    }
}

impl GeometrySet {
    /// The transform slot recorded for the span registered under `id`.
    pub fn span_slot(&self, id: &str) -> (r: Option<u64>)
        ensures
            ({
                let k = find_span_spec(spans_view(self.spans@), id@);
                match r {
                    Some(slot) => k >= 0 && slot == spans_view(self.spans@)[k].slot,
                    None => k < 0,
                }
            }),
    {
        proof {
            lemma_find_span_spec(spans_view(self.spans@), id@);
        }
        match self.find_span(id) {
            Some(k) => {
                proof {
                    assert(spans_view(self.spans@).len() == self.spans@.len());
                    assert(spans_view(self.spans@)[k as int] == self.spans@[k as int]@);
                }
                Some(self.spans[k].slot)
            },
            None => None,
        }
    }

    /// Replaces the content registered under `id` with the given
    /// self-contained triangle list, splicing the Dynamic arrays at the
    /// old ranges, rebasing the new indices to the splice point, and
    /// shifting every trailing span and index value by the length change.
    /// Fails with `IdNotFound` when no span is registered under `id`, and
    /// with `MalformedFragment` when the spliced arrays would outgrow
    /// addressable memory; on any failure nothing is mutated. The Static
    /// segment, the transform-slot counter and the recorded bounding box
    /// are never touched.
    pub fn replace(&mut self, id: &str, new_content: &Triangles) -> (r: Result<(), UpdateError>)
        requires
            old(self).wf(),
            triangles_wf(new_content),
        ensures
            final(self).wf(),
            final(self).static_vertices@ == old(self).static_vertices@,
            final(self).static_indices@ == old(self).static_indices@,
            final(self).transform_count == old(self).transform_count,
            final(self).bbox == old(self).bbox,
            r is Err ==> *final(self) == *old(self),
            (r == Err::<(), UpdateError>(UpdateError::IdNotFound)) <==> find_span_spec(
                spans_view(old(self).spans@),
                id@,
            ) < 0,
            ({
                let sv = spans_view(old(self).spans@);
                let k = find_span_spec(sv, id@);
                &&& (r == Err::<(), UpdateError>(UpdateError::MalformedFragment)) <==> (k >= 0
                    && !replace_fits(old(self), k, new_content))
                &&& r is Ok ==> {
                    &&& k >= 0
                    &&& replace_fits(old(self), k, new_content)
                    &&& final(self).dyn_vertices@ == splice_vertices(
                        old(self).dyn_vertices@,
                        sv[k].v_start,
                        sv[k].v_end,
                        new_content.vertices@,
                    )
                    &&& final(self).dyn_indices@ == splice_indices(
                        old(self).dyn_indices@,
                        sv[k].i_start,
                        sv[k].i_end,
                        new_content.indices@,
                        sv[k].v_start,
                        sv[k].v_start + new_content.vertices@.len() - sv[k].v_end,
                    )
                    &&& spans_view(final(self).spans@) == splice_spans(
                        sv,
                        k,
                        new_content.vertices@.len() as int,
                        new_content.indices@.len() as int,
                    )
                }
            }),
    {
        let k = match self.find_span(id) {
            None => {
                return Err(UpdateError::IdNotFound);
            },
            Some(k) => k,
        };
        proof {
            lemma_find_span_spec(spans_view(self.spans@), id@);
            lemma_span_bounds(
                spans_view(self.spans@),
                self.dyn_vertices@.len() as int,
                self.dyn_indices@.len() as int,
                k as int,
            );
        }
        let vs = self.spans[k].v_start;
        let ve = self.spans[k].v_end;
        let is0 = self.spans[k].i_start;
        let ie = self.spans[k].i_end;
        let dv_len = self.dyn_vertices.len();
        let di_len = self.dyn_indices.len();
        let sv_len = self.static_vertices.len();
        let si_len = self.static_indices.len();
        let nv = new_content.vertices.len();
        let ni = new_content.indices.len();
        let keep_v = dv_len - (ve - vs);
        let keep_i = di_len - (ie - is0);
        let fits = usize::MAX - keep_v >= nv && usize::MAX - keep_i >= ni && usize::MAX - sv_len
            >= keep_v + nv && usize::MAX - si_len >= keep_i + ni;
        if !fits {
            return Err(UpdateError::MalformedFragment);
        }
        let new_ve = vs + nv;
        proof {
            lemma_indices_after(
                spans_view(self.spans@),
                self.dyn_indices@,
                self.dyn_vertices@.len() as int,
                k as int,
            );
        }
        let ndv = splice_vertices_exec(&self.dyn_vertices, vs, ve, &new_content.vertices);
        let ndi = splice_indices_exec(
            &self.dyn_indices,
            is0,
            ie,
            &new_content.indices,
            vs,
            ve,
            nv,
            dv_len,
        );
        let nspans = self.splice_spans_exec(k, nv, ni);
        proof {
            lemma_splice_chained(
                spans_view(self.spans@),
                self.dyn_vertices@.len() as int,
                self.dyn_indices@.len() as int,
                k as int,
                nv as int,
                ni as int,
            );
            lemma_splice_local(
                spans_view(self.spans@),
                self.dyn_indices@,
                self.dyn_vertices@.len() as int,
                k as int,
                new_content.indices@,
                nv as int,
            );
            assert(span_ids_unique(splice_spans(spans_view(self.spans@), k as int, nv as int, ni as int)))
                by {
                let sv = spans_view(self.spans@);
                let sv1 = splice_spans(sv, k as int, nv as int, ni as int);
                assert(forall|m: int| 0 <= m < sv1.len() ==> (#[trigger] sv1[m]).id == sv[m].id);
            }
        }
        self.dyn_vertices = ndv;
        self.dyn_indices = ndi;
        self.spans = nspans;
        Ok(())
    }

    /// Copies the span tiling with span `k` re-extended and every later
    /// span shifted.
    fn splice_spans_exec(&self, k: usize, nv: usize, ni: usize) -> (r: Vec<Span>)
        requires
            self.wf(),
            (k as int) < self.spans@.len(),
            self.dyn_vertices@.len() - (spans_view(self.spans@)[k as int].v_end - spans_view(
                self.spans@,
            )[k as int].v_start) + nv <= usize::MAX,
            self.dyn_indices@.len() - (spans_view(self.spans@)[k as int].i_end - spans_view(
                self.spans@,
            )[k as int].i_start) + ni <= usize::MAX,
        ensures
            spans_view(r@) == splice_spans(spans_view(self.spans@), k as int, nv as int, ni as int),
    {
        let ghost svv = spans_view(self.spans@);
        let ghost goal = splice_spans(svv, k as int, nv as int, ni as int);
        proof {
            lemma_span_bounds(
                svv,
                self.dyn_vertices@.len() as int,
                self.dyn_indices@.len() as int,
                k as int,
            );
        }
        let vs = self.spans[k].v_start;
        let ve = self.spans[k].v_end;
        let is0 = self.spans[k].i_start;
        let ie = self.spans[k].i_end;
        let mut r: Vec<Span> = Vec::new();
        let mut m: usize = 0;
        assert(spans_view(r@) =~= goal.subrange(0, 0));
        while m < self.spans.len()
            invariant
                self.wf(),
                svv == spans_view(self.spans@),
                goal == splice_spans(svv, k as int, nv as int, ni as int),
                (k as int) < svv.len(),
                svv[k as int].v_start == vs as int,
                svv[k as int].v_end == ve as int,
                svv[k as int].i_start == is0 as int,
                svv[k as int].i_end == ie as int,
                self.dyn_vertices@.len() - (ve - vs) + nv <= usize::MAX,
                self.dyn_indices@.len() - (ie - is0) + ni <= usize::MAX,
                m <= self.spans@.len(),
                spans_view(r@) == goal.subrange(0, m as int),
            decreases self.spans@.len() - m,
        {
            proof {
                lemma_span_bounds(
                    svv,
                    self.dyn_vertices@.len() as int,
                    self.dyn_indices@.len() as int,
                    m as int,
                );
                if m > k {
                    lemma_chain_mono(svv, k as int, m as int);
                }
            }
            let s = &self.spans[m];
            assert(s@ == svv[m as int]);
            let copied = if m < k {
                Span {
                    id: s.id.clone(),
                    slot: s.slot,
                    v_start: s.v_start,
                    v_end: s.v_end,
                    i_start: s.i_start,
                    i_end: s.i_end,
                }
            } else if m == k {
                Span {
                    id: s.id.clone(),
                    slot: s.slot,
                    v_start: vs,
                    v_end: vs + nv,
                    i_start: is0,
                    i_end: is0 + ni,
                }
            } else {
                Span {
                    id: s.id.clone(),
                    slot: s.slot,
                    v_start: s.v_start - ve + (vs + nv),
                    v_end: s.v_end - ve + (vs + nv),
                    i_start: s.i_start - ie + (is0 + ni),
                    i_end: s.i_end - ie + (is0 + ni),
                }
            };
            let ghost prev_r = r@;
            r.push(copied);
            proof {
                assert(prev_r.len() == m) by {
                    assert(spans_view(prev_r).len() == m);
                }
                assert(r@ == prev_r.push(copied));
                assert(r@.len() == m + 1);
                assert(copied@ == goal[m as int]);
                assert forall|t: int| 0 <= t < m + 1 implies #[trigger] spans_view(r@)[t]
                    == goal.subrange(0, m + 1)[t] by {
                    if t < m {
                        assert(spans_view(r@)[t] == r@[t]@);
                        assert(r@[t] == prev_r[t]);
                        assert(spans_view(prev_r)[t] == goal.subrange(0, m as int)[t]);
                    } else {
                        assert(spans_view(r@)[t] == copied@);
                    }
                }
                assert(spans_view(r@) =~= goal.subrange(0, m + 1));
            }
            m = m + 1;
        }
        assert(spans_view(r@) =~= goal);
        r
    }
}

/// Builds the spliced Dynamic vertex array.
fn splice_vertices_exec(dv: &Vec<Vertex>, vs: usize, ve: usize, nvs: &Vec<Vertex>) -> (r: Vec<
    Vertex,
>)
    requires
        vs <= ve <= dv@.len(),
        dv@.len() - (ve - vs) + nvs@.len() <= usize::MAX,
    ensures
        r@ == splice_vertices(dv@, vs as int, ve as int, nvs@),
{
    let mut r: Vec<Vertex> = Vec::new();
    let mut j: usize = 0;
    while j < vs
        invariant
            vs <= dv@.len(),
            j <= vs,
            r@ == dv@.subrange(0, j as int),
        decreases vs - j,
    {
        r.push(dv[j]);
        assert(r@ =~= dv@.subrange(0, j + 1));
        j = j + 1;
    }
    let mut j: usize = 0;
    while j < nvs.len()
        invariant
            vs <= dv@.len(),
            j <= nvs@.len(),
            r@ == dv@.subrange(0, vs as int) + nvs@.subrange(0, j as int),
        decreases nvs@.len() - j,
    {
        r.push(nvs[j]);
        assert(r@ =~= dv@.subrange(0, vs as int) + nvs@.subrange(0, j + 1));
        j = j + 1;
    }
    assert(nvs@.subrange(0, nvs@.len() as int) =~= nvs@);
    let mut j: usize = ve;
    while j < dv.len()
        invariant
            vs <= ve <= dv@.len(),
            ve <= j <= dv@.len(),
            r@ == dv@.subrange(0, vs as int) + nvs@ + dv@.subrange(ve as int, j as int),
        decreases dv@.len() - j,
    {
        r.push(dv[j]);
        assert(r@ =~= dv@.subrange(0, vs as int) + nvs@ + dv@.subrange(ve as int, j + 1));
        j = j + 1;
    }
    assert(r@ =~= splice_vertices(dv@, vs as int, ve as int, nvs@));
    r
}

/// Builds the spliced Dynamic index array: the prefix kept, the new local
/// indices rebased to `vs`, and the tail values shifted by the vertex
/// delta.
fn splice_indices_exec(
    di: &Vec<usize>,
    is0: usize,
    ie: usize,
    local: &Vec<usize>,
    vs: usize,
    ve: usize,
    nv: usize,
    dv_len: usize,
) -> (r: Vec<usize>)
    requires
        is0 <= ie <= di@.len(),
        vs <= ve <= dv_len,
        forall|j: int| 0 <= j < local@.len() ==> #[trigger] local@[j] < nv,
        forall|t: int| ie <= t < di@.len() ==> ve <= #[trigger] di@[t] < dv_len,
        dv_len - (ve - vs) + nv <= usize::MAX,
        di@.len() - (ie - is0) + local@.len() <= usize::MAX,
    ensures
        r@ == splice_indices(di@, is0 as int, ie as int, local@, vs as int, vs + nv - ve),
{
    let ghost delta_v: int = vs + nv - ve;
    let new_ve = vs + nv;
    let mut r: Vec<usize> = Vec::new();
    let mut j: usize = 0;
    while j < is0
        invariant
            is0 <= di@.len(),
            j <= is0,
            r@ == di@.subrange(0, j as int),
        decreases is0 - j,
    {
        r.push(di[j]);
        assert(r@ =~= di@.subrange(0, j + 1));
        j = j + 1;
    }
    let mut j: usize = 0;
    while j < local.len()
        invariant
            is0 <= di@.len(),
            forall|t: int| 0 <= t < local@.len() ==> #[trigger] local@[t] < nv,
            vs + nv <= usize::MAX,
            j <= local@.len(),
            r@ == di@.subrange(0, is0 as int) + shift_indices(
                local@.subrange(0, j as int),
                vs as int,
            ),
        decreases local@.len() - j,
    {
        let x = local[j];
        r.push(x + vs);
        assert(r@ =~= di@.subrange(0, is0 as int) + shift_indices(
            local@.subrange(0, j + 1),
            vs as int,
        )) by {
            assert(shift_indices(local@.subrange(0, j + 1), vs as int) =~= shift_indices(
                local@.subrange(0, j as int),
                vs as int,
            ).push((x + vs) as usize));
        }
        j = j + 1;
    }
    assert(local@.subrange(0, local@.len() as int) =~= local@);
    let mut j: usize = ie;
    while j < di.len()
        invariant
            is0 <= ie <= di@.len(),
            vs <= ve,
            new_ve == vs + nv,
            delta_v == vs + nv - ve,
            forall|t: int| ie <= t < di@.len() ==> ve <= #[trigger] di@[t] < dv_len,
            dv_len - (ve - vs) + nv <= usize::MAX,
            ie <= j <= di@.len(),
            r@ == di@.subrange(0, is0 as int) + shift_indices(local@, vs as int) + shift_indices(
                di@.subrange(ie as int, j as int),
                delta_v,
            ),
        decreases di@.len() - j,
    {
        let x = di[j];
        assert(ve <= x < dv_len);
        let shifted = x - ve + new_ve;
        r.push(shifted);
        assert(r@ =~= di@.subrange(0, is0 as int) + shift_indices(local@, vs as int)
            + shift_indices(di@.subrange(ie as int, j + 1), delta_v)) by {
            assert(shift_indices(di@.subrange(ie as int, j + 1), delta_v) =~= shift_indices(
                di@.subrange(ie as int, j as int),
                delta_v,
            ).push(shifted));
        }
        j = j + 1;
    }
    assert(r@ =~= splice_indices(di@, is0 as int, ie as int, local@, vs as int, delta_v));
    r
}

/// Whether the spliced arrays that would replace span `k`'s content with
/// `new_content` stay addressable.
pub open spec fn replace_fits(g: &GeometrySet, k: int, new_content: &Triangles) -> bool {
    let sv = spans_view(g.spans@);
    &&& g.static_vertices@.len() + (g.dyn_vertices@.len() - (sv[k].v_end - sv[k].v_start))
        + new_content.vertices@.len() <= usize::MAX
    &&& g.static_indices@.len() + (g.dyn_indices@.len() - (sv[k].i_end - sv[k].i_start))
        + new_content.indices@.len() <= usize::MAX
    &&& (g.dyn_vertices@.len() - (sv[k].v_end - sv[k].v_start)) + new_content.vertices@.len()
        <= usize::MAX
    &&& (g.dyn_indices@.len() - (sv[k].i_end - sv[k].i_start)) + new_content.indices@.len()
        <= usize::MAX
}


/// Shift correctness: a replace at span `k` leaves every earlier span's
/// ranges untouched and shifts every later span's ranges by the length
/// change, and in both cases the span's vertex content in the spliced
/// array is identical to its content before the replace — only its
/// position moved.
pub proof fn lemma_shift_correctness(
    dv: Seq<Vertex>,
    di: Seq<usize>,
    sv: Seq<SpanV>,
    k: int,
    m: int,
    nvs: Seq<Vertex>,
    ni: int,
)
    requires
        spans_chained(sv, dv.len() as int, di.len() as int),
        0 <= k < sv.len(),
        0 <= m < sv.len(),
        m != k,
    ensures
        ({
            let sv1 = splice_spans(sv, k, nvs.len() as int, ni);
            let dv1 = splice_vertices(dv, sv[k].v_start, sv[k].v_end, nvs);
            let dvd = nvs.len() - (sv[k].v_end - sv[k].v_start);
            &&& m < k ==> sv1[m].v_start == sv[m].v_start && sv1[m].v_end == sv[m].v_end
                && dv1.subrange(sv1[m].v_start, sv1[m].v_end) == dv.subrange(
                sv[m].v_start,
                sv[m].v_end,
            )
            &&& m > k ==> sv1[m].v_start == sv[m].v_start + dvd && sv1[m].v_end == sv[m].v_end
                + dvd && dv1.subrange(sv1[m].v_start, sv1[m].v_end) == dv.subrange(
                sv[m].v_start,
                sv[m].v_end,
            )
        }),
{
    let vs = sv[k].v_start;
    let ve = sv[k].v_end;
    let dvd = nvs.len() - (ve - vs);
    let sv1 = splice_spans(sv, k, nvs.len() as int, ni);
    let dv1 = splice_vertices(dv, vs, ve, nvs);
    lemma_span_bounds(sv, dv.len() as int, di.len() as int, k);
    lemma_span_bounds(sv, dv.len() as int, di.len() as int, m);
    assert(dv1.len() == dv.len() + dvd);
    if m < k {
        lemma_chain_mono(sv, m, k);
        assert(sv[m].v_end <= vs);
        assert(dv1.subrange(sv[m].v_start, sv[m].v_end) =~= dv.subrange(
            sv[m].v_start,
            sv[m].v_end,
        )) by {
            assert forall|j: int| sv[m].v_start <= j < sv[m].v_end implies dv1[j] == dv[j] by {
                assert(dv1[j] == dv.subrange(0, vs)[j]);
            }
        }
    } else {
        lemma_chain_mono(sv, k, m);
        assert(ve <= sv[m].v_start);
        assert(dv1.subrange(sv[m].v_start + dvd, sv[m].v_end + dvd) =~= dv.subrange(
            sv[m].v_start,
            sv[m].v_end,
        )) by {
            assert forall|j: int| sv[m].v_start + dvd <= j < sv[m].v_end + dvd implies dv1[j]
                == dv[j - dvd] by {
                assert(vs + nvs.len() <= j);
                assert(dv1[j] == dv.subrange(ve, dv.len() as int)[j - vs - nvs.len()]);
                assert(dv.subrange(ve, dv.len() as int)[j - vs - nvs.len()] == dv[j - dvd]);
            }
        }
    }
}

/// Replace identity: splicing a span with exactly its current content —
/// the same vertices and the same locally rebased indices — changes
/// nothing: the arrays and the span tiling come back unchanged.
pub proof fn lemma_replace_identity(
    dv: Seq<Vertex>,
    di: Seq<usize>,
    sv: Seq<SpanV>,
    k: int,
    local: Seq<usize>,
)
    requires
        spans_chained(sv, dv.len() as int, di.len() as int),
        0 <= k < sv.len(),
        local.len() == sv[k].i_end - sv[k].i_start,
        shift_indices(local, sv[k].v_start) == di.subrange(sv[k].i_start, sv[k].i_end),
    ensures
        splice_vertices(dv, sv[k].v_start, sv[k].v_end, dv.subrange(sv[k].v_start, sv[k].v_end))
            == dv,
        splice_indices(
            di,
            sv[k].i_start,
            sv[k].i_end,
            local,
            sv[k].v_start,
            sv[k].v_start + (sv[k].v_end - sv[k].v_start) - sv[k].v_end,
        ) == di,
        splice_spans(sv, k, sv[k].v_end - sv[k].v_start, sv[k].i_end - sv[k].i_start) == sv,
{
    let vs = sv[k].v_start;
    let ve = sv[k].v_end;
    let is0 = sv[k].i_start;
    let ie = sv[k].i_end;
    lemma_span_bounds(sv, dv.len() as int, di.len() as int, k);
    assert(splice_vertices(dv, vs, ve, dv.subrange(vs, ve)) =~= dv);
    assert(splice_indices(di, is0, ie, local, vs, vs + (ve - vs) - ve) =~= di) by {
        let r = splice_indices(di, is0, ie, local, vs, 0);
        assert(vs + (ve - vs) - ve == 0);
        assert(shift_indices(di.subrange(ie, di.len() as int), 0) =~= di.subrange(
            ie,
            di.len() as int,
        ));
        assert(r =~= di.subrange(0, is0) + di.subrange(is0, ie) + di.subrange(
            ie,
            di.len() as int,
        ));
    }
    assert(splice_spans(sv, k, ve - vs, ie - is0) =~= sv) by {
        assert forall|m: int| 0 <= m < sv.len() implies splice_spans(sv, k, ve - vs, ie - is0)[m]
            =~= sv[m] by {
        }
    }
}

/// Idempotence of splicing: replacing a span's content and then replacing
/// it again with the same content gives the same arrays and tiling as the
/// single replace, and the span keeps its position under its id.
pub proof fn lemma_splice_idempotent(
    dv: Seq<Vertex>,
    di: Seq<usize>,
    sv: Seq<SpanV>,
    k: int,
    nvs: Seq<Vertex>,
    local: Seq<usize>,
)
    requires
        spans_chained(sv, dv.len() as int, di.len() as int),
        0 <= k < sv.len(),
        local.len() % 3 == 0,
    ensures
        ({
            let sv1 = splice_spans(sv, k, nvs.len() as int, local.len() as int);
            let dv1 = splice_vertices(dv, sv[k].v_start, sv[k].v_end, nvs);
            let di1 = splice_indices(
                di,
                sv[k].i_start,
                sv[k].i_end,
                local,
                sv[k].v_start,
                sv[k].v_start + nvs.len() - sv[k].v_end,
            );
            &&& splice_vertices(dv1, sv1[k].v_start, sv1[k].v_end, nvs) == dv1
            &&& splice_indices(
                di1,
                sv1[k].i_start,
                sv1[k].i_end,
                local,
                sv1[k].v_start,
                sv1[k].v_start + nvs.len() - sv1[k].v_end,
            ) == di1
            &&& splice_spans(sv1, k, nvs.len() as int, local.len() as int) == sv1
            &&& forall|id: Seq<char>| find_span_spec(sv1, id) == find_span_spec(sv, id)
        }),
{
    let vs = sv[k].v_start;
    let ve = sv[k].v_end;
    let is0 = sv[k].i_start;
    let ie = sv[k].i_end;
    let nv = nvs.len() as int;
    let ni = local.len() as int;
    let sv1 = splice_spans(sv, k, nv, ni);
    let dv1 = splice_vertices(dv, vs, ve, nvs);
    let di1 = splice_indices(di, is0, ie, local, vs, vs + nv - ve);
    lemma_span_bounds(sv, dv.len() as int, di.len() as int, k);
    lemma_splice_chained(sv, dv.len() as int, di.len() as int, k, nv, ni);
    assert(dv1.len() == dv.len() + (nv - (ve - vs)));
    assert(di1.len() == di.len() + (ni - (ie - is0)));
    assert(sv1[k].v_start == vs && sv1[k].v_end == vs + nv);
    assert(sv1[k].i_start == is0 && sv1[k].i_end == is0 + ni);
    assert(dv1.subrange(vs, vs + nv) =~= nvs);
    assert(di1.subrange(is0, is0 + ni) =~= shift_indices(local, vs)) by {
        assert(shift_indices(local, vs).len() == ni);
        assert forall|j: int| 0 <= j < ni implies di1.subrange(is0, is0 + ni)[j] == shift_indices(
            local,
            vs,
        )[j] by {
            assert(di1[is0 + j] == (di.subrange(0, is0) + shift_indices(local, vs)
                + shift_indices(di.subrange(ie, di.len() as int), vs + nv - ve))[is0 + j]);
        }
    }
    lemma_replace_identity(dv1, di1, sv1, k, local);
    assert(splice_vertices(dv1, vs, vs + nv, dv1.subrange(vs, vs + nv)) == dv1);
    assert(splice_vertices(dv1, sv1[k].v_start, sv1[k].v_end, nvs) =~= splice_vertices(
        dv1,
        vs,
        vs + nv,
        dv1.subrange(vs, vs + nv),
    ));
    assert(sv1[k].v_start + nvs.len() - sv1[k].v_end == 0);
    assert(sv1[k].v_start + (sv1[k].v_end - sv1[k].v_start) - sv1[k].v_end == 0);
    assert(splice_indices(di1, sv1[k].i_start, sv1[k].i_end, local, sv1[k].v_start, 0) == di1);
    assert(splice_spans(sv1, k, sv1[k].v_end - sv1[k].v_start, sv1[k].i_end - sv1[k].i_start)
        == sv1);
    assert(splice_spans(sv1, k, nv, ni) =~= splice_spans(
        sv1,
        k,
        sv1[k].v_end - sv1[k].v_start,
        sv1[k].i_end - sv1[k].i_start,
    )) by {
        assert forall|m: int| 0 <= m < sv1.len() implies splice_spans(sv1, k, nv, ni)[m]
            =~= splice_spans(
            sv1,
            k,
            sv1[k].v_end - sv1[k].v_start,
            sv1[k].i_end - sv1[k].i_start,
        )[m] by {
        }
    }
    assert forall|id: Seq<char>| find_span_spec(sv1, id) == find_span_spec(sv, id) by {
        lemma_find_span_same_ids(sv1, sv, id);
    }
}

/// Two span lists with the same ids position every id identically.
proof fn lemma_find_span_same_ids(a: Seq<SpanV>, b: Seq<SpanV>, id: Seq<char>)
    requires
        a.len() == b.len(),
        forall|m: int| 0 <= m < a.len() ==> (#[trigger] a[m]).id == b[m].id,
    ensures
        find_span_spec(a, id) == find_span_spec(b, id),
    decreases a.len(),
{
    if a.len() > 0 {
        assert(a[0].id == b[0].id);
        assert(forall|m: int|
            0 <= m < a.len() - 1 ==> (#[trigger] a.drop_first()[m]).id == b.drop_first()[m].id) by {
            assert(forall|m: int|
                0 <= m < a.len() - 1 ==> (#[trigger] a.drop_first()[m]) == a[m + 1]);
            assert(forall|m: int|
                0 <= m < b.len() - 1 ==> (#[trigger] b.drop_first()[m]) == b[m + 1]);
        }
        lemma_find_span_same_ids(a.drop_first(), b.drop_first(), id);
    }
}

} // verus!
