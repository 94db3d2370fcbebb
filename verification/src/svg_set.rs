//! The loaded scene: document plus geometry.
//!
//! Build time runs the scene walk once over the full document, partitions
//! the fragments into the Static and Dynamic segments, and records the
//! registered ranges. Update time re-derives a minimal standalone fragment
//! for one stable id, re-tessellates it with minting suppressed, and
//! splices the result into the Dynamic segment.

use vstd::prelude::*;

use crate::UpdateError;
use crate::geometry::{GeomV, Geometry, Triangles, Vertex, combine_fragments, concat_indices,
    concat_vertices, geoms_view, shift_indices, triangles_wf};
use crate::geometry_set::{GeometrySet, Rect, SpanV, append_span_spec, find_span_spec,
    lemma_find_span_spec, spans_view, splice_indices, splice_spans, splice_vertices};
use crate::document::{build_fragment, contains_id, count_nodes, doc_with_text, find_in,
    fragment_doc, node_count, set_text};
use crate::tags::UpdateClass;
use crate::walker::{walk, walk_spec};
use crate::xml::{XmlNode, XmlTree, parse_xml, parsed_xml, xml_text, xml_to_string};

verus! {

/// The Static-segment vertices of a fragment list, in order.
pub open spec fn static_verts(fs: Seq<GeomV>) -> Seq<Vertex>
    decreases fs,
{
    if fs.len() == 0 {
        Seq::empty()
    } else {
        static_verts(fs.drop_last()) + (
        if fs.last().class is Static {
            fs.last().vertices
        } else {
            Seq::empty()
        })
    }
}

/// The Static-segment indices of a fragment list, each fragment's local
/// indices rebased past the Static vertices before it.
pub open spec fn static_idx(fs: Seq<GeomV>) -> Seq<usize>
    decreases fs,
{
    if fs.len() == 0 {
        Seq::empty()
    } else {
        static_idx(fs.drop_last()) + (
        if fs.last().class is Static {
            shift_indices(fs.last().indices, static_verts(fs.drop_last()).len() as int)
        } else {
            Seq::empty()
        })
    }
}

/// The Dynamic-segment vertices of a fragment list, in order.
pub open spec fn dyn_verts(fs: Seq<GeomV>) -> Seq<Vertex>
    decreases fs,
{
    if fs.len() == 0 {
        Seq::empty()
    } else {
        dyn_verts(fs.drop_last()) + (
        if fs.last().class is Dynamic {
            fs.last().vertices
        } else {
            Seq::empty()
        })
    }
}

/// The Dynamic-segment indices of a fragment list, each fragment's local
/// indices rebased past the Dynamic vertices before it.
pub open spec fn dyn_idx(fs: Seq<GeomV>) -> Seq<usize>
    decreases fs,
{
    if fs.len() == 0 {
        Seq::empty()
    } else {
        dyn_idx(fs.drop_last()) + (
        if fs.last().class is Dynamic {
            shift_indices(fs.last().indices, dyn_verts(fs.drop_last()).len() as int)
        } else {
            Seq::empty()
        })
    }
}

/// The span tiling a fragment list builds: one appended run per Dynamic
/// fragment, merged and registered as the append rules say.
pub open spec fn build_spans(fs: Seq<GeomV>) -> Seq<SpanV>
    decreases fs,
{
    if fs.len() == 0 {
        Seq::empty()
    } else {
        let rest = build_spans(fs.drop_last());
        if fs.last().class is Dynamic {
            append_span_spec(
                rest,
                fs.last().id,
                fs.last().slot,
                fs.last().vertices.len() as int,
                fs.last().indices.len() as int,
                dyn_verts(fs.drop_last()).len() as int,
                dyn_idx(fs.drop_last()).len() as int,
            )
        } else {
            rest
        }
    }
}

/// Whether a fragment list's combined arrays stay addressable.
pub open spec fn build_fits(fs: Seq<GeomV>) -> bool {
    &&& static_verts(fs).len() + dyn_verts(fs).len() <= usize::MAX
    &&& static_idx(fs).len() + dyn_idx(fs).len() <= usize::MAX
}

/// Prefix folds never exceed the whole list's folds.
proof fn lemma_fold_prefix(fs: Seq<GeomV>, k: int)
    requires
        0 <= k <= fs.len(),
    ensures
        static_verts(fs.subrange(0, k)).len() <= static_verts(fs).len(),
        static_idx(fs.subrange(0, k)).len() <= static_idx(fs).len(),
        dyn_verts(fs.subrange(0, k)).len() <= dyn_verts(fs).len(),
        dyn_idx(fs.subrange(0, k)).len() <= dyn_idx(fs).len(),
    decreases fs.len() - k,
{
    if k == fs.len() {
        assert(fs.subrange(0, k) =~= fs);
    } else {
        lemma_fold_prefix(fs, k + 1);
        let p = fs.subrange(0, k);
        let p1 = fs.subrange(0, k + 1);
        assert(p1.drop_last() =~= p);
        assert(p1.last() == fs[k]);
    }
}

impl GeometrySet {
    /// Builds a store from a fragment list: Static fragments are appended
    /// first, then Dynamic fragments, both in traversal order; each
    /// Dynamic run extends the span tiling and registers its id. Returns
    /// `None`, building nothing, when the combined arrays would outgrow
    /// addressable memory.
    pub fn build_from_fragments(frags: &Vec<Geometry>) -> (r: Option<GeometrySet>)
        requires
            forall|k: int|
                0 <= k < frags@.len() ==> triangles_wf(&(#[trigger] frags@[k]).triangles),
        ensures
            match r {
                Some(g) => {
                    &&& g.wf()
                    &&& build_fits(geoms_view(frags@))
                    &&& g.static_vertices@ == static_verts(geoms_view(frags@))
                    &&& g.static_indices@ == static_idx(geoms_view(frags@))
                    &&& g.dyn_vertices@ == dyn_verts(geoms_view(frags@))
                    &&& g.dyn_indices@ == dyn_idx(geoms_view(frags@))
                    &&& spans_view(g.spans@) == build_spans(geoms_view(frags@))
                    &&& g.transform_count == 0
                },
                None => !build_fits(geoms_view(frags@)),
            },
    {
        let ghost gv = geoms_view(frags@);
        let mut g = GeometrySet::new();
        let mut k: usize = 0;
        proof {
            assert(gv.subrange(0, 0).len() == 0);
            assert(g.static_vertices@ =~= static_verts(gv.subrange(0, 0)));
            assert(g.static_indices@ =~= static_idx(gv.subrange(0, 0)));
        }
        while k < frags.len()
            invariant
                gv == geoms_view(frags@),
                gv.len() == frags@.len(),
                forall|t: int| 0 <= t < frags@.len() ==> #[trigger] gv[t] == frags@[t]@,
                forall|t: int|
                    0 <= t < frags@.len() ==> triangles_wf(&(#[trigger] frags@[t]).triangles),
                k <= frags@.len(),
                g.wf(),
                g.static_vertices@ == static_verts(gv.subrange(0, k as int)),
                g.static_indices@ == static_idx(gv.subrange(0, k as int)),
                g.dyn_vertices@.len() == 0,
                g.dyn_indices@.len() == 0,
                g.spans@.len() == 0,
                g.transform_count == 0,
            decreases frags@.len() - k,
        {
            let ghost p = gv.subrange(0, k as int);
            let ghost p1 = gv.subrange(0, k + 1);
            proof {
                assert(p1.drop_last() =~= p);
                assert(p1.last() == gv[k as int]);
            }
            let frag = &frags[k];
            match frag.class {
                UpdateClass::Static => {
                    let ok = g.append_fragment(frag);
                    if !ok {
                        proof {
                            lemma_fold_prefix(gv, k + 1);
                            assert(static_verts(p1).len() == static_verts(p).len()
                                + frag.triangles.vertices@.len());
                        }
                        return None;
                    }
                    proof {
                        assert(g.static_vertices@ =~= static_verts(p1));
                        assert(g.static_indices@ =~= static_idx(p1));
                    }
                },
                UpdateClass::Dynamic => {
                    proof {
                        assert(static_verts(p1) =~= static_verts(p));
                        assert(static_idx(p1) =~= static_idx(p));
                    }
                },
            }
            k = k + 1;
        }
        proof {
            assert(gv.subrange(0, frags@.len() as int) =~= gv);
        }
        let ghost static_done_v = g.static_vertices@;
        let ghost static_done_i = g.static_indices@;
        let mut k: usize = 0;
        proof {
            assert(g.dyn_vertices@ =~= dyn_verts(gv.subrange(0, 0)));
            assert(g.dyn_indices@ =~= dyn_idx(gv.subrange(0, 0)));
            assert(spans_view(g.spans@) =~= build_spans(gv.subrange(0, 0)));
        }
        while k < frags.len()
            invariant
                gv == geoms_view(frags@),
                gv.len() == frags@.len(),
                forall|t: int| 0 <= t < frags@.len() ==> #[trigger] gv[t] == frags@[t]@,
                forall|t: int|
                    0 <= t < frags@.len() ==> triangles_wf(&(#[trigger] frags@[t]).triangles),
                k <= frags@.len(),
                g.wf(),
                g.static_vertices@ == static_done_v,
                g.static_indices@ == static_done_i,
                static_done_v == static_verts(gv),
                static_done_i == static_idx(gv),
                g.dyn_vertices@ == dyn_verts(gv.subrange(0, k as int)),
                g.dyn_indices@ == dyn_idx(gv.subrange(0, k as int)),
                spans_view(g.spans@) == build_spans(gv.subrange(0, k as int)),
                g.transform_count == 0,
            decreases frags@.len() - k,
        {
            let ghost p = gv.subrange(0, k as int);
            let ghost p1 = gv.subrange(0, k + 1);
            proof {
                assert(p1.drop_last() =~= p);
                assert(p1.last() == gv[k as int]);
            }
            let frag = &frags[k];
            match frag.class {
                UpdateClass::Dynamic => {
                    let ok = g.append_fragment(frag);
                    if !ok {
                        proof {
                            lemma_fold_prefix(gv, k + 1);
                            assert(dyn_verts(p1).len() == dyn_verts(p).len()
                                + frag.triangles.vertices@.len());
                        }
                        return None;
                    }
                    proof {
                        assert(g.dyn_vertices@ =~= dyn_verts(p1));
                        assert(g.dyn_indices@ =~= dyn_idx(p1));
                        assert(spans_view(g.spans@) =~= build_spans(p1));
                    }
                },
                UpdateClass::Static => {
                    proof {
                        assert(dyn_verts(p1) =~= dyn_verts(p));
                        assert(dyn_idx(p1) =~= dyn_idx(p));
                        assert(build_spans(p1) =~= build_spans(p));
                    }
                },
            }
            k = k + 1;
        }
        proof {
            assert(gv.subrange(0, frags@.len() as int) =~= gv);
        }
        Some(g)
    }
}

/// The bounding box fold: extends a running box by one vertex.
pub open spec fn expand_rect(r: Rect, v: Vertex) -> Rect {
    Rect {
        min_x: if v.x < r.min_x {
            v.x
        } else {
            r.min_x
        },
        min_y: if v.y < r.min_y {
            v.y
        } else {
            r.min_y
        },
        max_x: if v.x > r.max_x {
            v.x
        } else {
            r.max_x
        },
        max_y: if v.y > r.max_y {
            v.y
        } else {
            r.max_y
        },
    }
}

/// The bounding box fold over a vertex sequence from an initial box.
pub open spec fn bbox_fold(s: Seq<Vertex>, init: Rect) -> Rect
    decreases s,
{
    if s.len() == 0 {
        init
    } else {
        expand_rect(bbox_fold(s.drop_last(), init), s.last())
    }
}

/// The bounding box of a vertex sequence: the degenerate zero box when it
/// is empty, else the tight box around every position.
pub open spec fn bbox_of(s: Seq<Vertex>) -> Rect {
    if s.len() == 0 {
        Rect { min_x: 0, min_y: 0, max_x: 0, max_y: 0 }
    } else {
        bbox_fold(
            s,
            Rect { min_x: i64::MAX, min_y: i64::MAX, max_x: i64::MIN, max_y: i64::MIN },
        )
    }
}

/// Computes the bounding box of the vertices in two concatenated arrays.
fn compute_bbox(a: &Vec<Vertex>, b: &Vec<Vertex>) -> (r: Rect)
    ensures
        r == bbox_of(a@ + b@),
{
    let mut r = Rect { min_x: i64::MAX, min_y: i64::MAX, max_x: i64::MIN, max_y: i64::MIN };
    if a.len() == 0 && b.len() == 0 {
        assert((a@ + b@).len() == 0);
        return Rect { min_x: 0, min_y: 0, max_x: 0, max_y: 0 };
    }
    let ghost init = r;
    let mut k: usize = 0;
    assert(r == bbox_fold((a@ + b@).subrange(0, 0), init));
    while k < a.len()
        invariant
            k <= a@.len(),
            r == bbox_fold((a@ + b@).subrange(0, k as int), init),
            init == (Rect { min_x: i64::MAX, min_y: i64::MAX, max_x: i64::MIN, max_y: i64::MIN }),
        decreases a@.len() - k,
    {
        proof {
            let p = (a@ + b@).subrange(0, k as int);
            let p1 = (a@ + b@).subrange(0, k + 1);
            assert(p1.drop_last() =~= p);
            assert(p1.last() == a@[k as int]);
        }
        let v = a[k];
        r = Rect {
            min_x: if v.x < r.min_x {
                v.x
            } else {
                r.min_x
            },
            min_y: if v.y < r.min_y {
                v.y
            } else {
                r.min_y
            },
            max_x: if v.x > r.max_x {
                v.x
            } else {
                r.max_x
            },
            max_y: if v.y > r.max_y {
                v.y
            } else {
                r.max_y
            },
        };
        k = k + 1;
    }
    let mut k: usize = 0;
    while k < b.len()
        invariant
            k <= b@.len(),
            r == bbox_fold((a@ + b@).subrange(0, a@.len() + k), init),
            init == (Rect { min_x: i64::MAX, min_y: i64::MAX, max_x: i64::MIN, max_y: i64::MIN }),
        decreases b@.len() - k,
    {
        proof {
            let p = (a@ + b@).subrange(0, a@.len() + k);
            let p1 = (a@ + b@).subrange(0, a@.len() + k + 1);
            assert(p1.drop_last() =~= p);
            assert(p1.last() == b@[k as int]);
        }
        let v = b[k];
        r = Rect {
            min_x: if v.x < r.min_x {
                v.x
            } else {
                r.min_x
            },
            min_y: if v.y < r.min_y {
                v.y
            } else {
                r.min_y
            },
            max_x: if v.x > r.max_x {
                v.x
            } else {
                r.max_x
            },
            max_y: if v.y > r.max_y {
                v.y
            } else {
                r.max_y
            },
        };
        k = k + 1;
    }
    assert((a@ + b@).subrange(0, a@.len() + b@.len() as int) =~= a@ + b@);
    r
}

/// The reserved base value of the transform-slot counter; the identity
/// slot is reserved separately below it.
pub const SLOT_BASE: u64 = 1;

/// A loaded scene: the originating document and the geometry built from
/// it.
#[derive(Debug)]
pub struct SvgSet {
    pub geometry_set: GeometrySet,
    pub document: XmlNode,
    pub bbox: Rect,
}

/// What a fresh build of a document produces.
pub open spec fn built_from(s: SvgSet, t: XmlTree) -> bool {
    let w = walk_spec(t, Seq::empty(), SLOT_BASE, SLOT_BASE, UpdateClass::Static, SLOT_BASE as int, true);
    &&& s.document@ == t
    &&& s.geometry_set.static_vertices@ == static_verts(w.frags)
    &&& s.geometry_set.static_indices@ == static_idx(w.frags)
    &&& s.geometry_set.dyn_vertices@ == dyn_verts(w.frags)
    &&& s.geometry_set.dyn_indices@ == dyn_idx(w.frags)
    &&& spans_view(s.geometry_set.spans@) == build_spans(w.frags)
    &&& s.geometry_set.transform_count as int == w.counter
    &&& s.bbox == bbox_of(static_verts(w.frags) + dyn_verts(w.frags))
    &&& s.geometry_set.bbox == s.bbox
    &&& s.geometry_set.wf()
}

impl SvgSet {
    /// The invariant of a loaded scene.
    pub open spec fn wf(&self) -> bool {
        self.geometry_set.wf()
    }

    /// Loads a scene from document text: parses it, walks it once from
    /// the reserved slot base with minting enabled, and builds the
    /// geometry store. Returns `None` when the text does not parse as
    /// XML, or when the document or its geometry would outgrow
    /// addressable limits.
    pub fn new(xml: &str) -> (r: Option<SvgSet>)
        ensures
            match r {
                Some(s) => {
                    &&& parsed_xml(xml@) is Some
                    &&& built_from(s, parsed_xml(xml@).unwrap())
                    &&& s.wf()
                },
                None => parsed_xml(xml@) is Some ==> {
                    let t = parsed_xml(xml@).unwrap();
                    let w = walk_spec(
                        t,
                        Seq::empty(),
                        SLOT_BASE,
                        SLOT_BASE,
                        UpdateClass::Static,
                        SLOT_BASE as int,
                        true,
                    );
                    SLOT_BASE + node_count(t) > u64::MAX || !build_fits(w.frags)
                },
            },
    {
        let root = match parse_xml(xml) {
            Some(n) => n,
            None => {
                return None;
            },
        };
        let count = match count_nodes(&root) {
            Some(c) => c,
            None => {
                return None;
            },
        };
        if u64::MAX - SLOT_BASE < count {
            return None;
        }
        let mut frags: Vec<Geometry> = Vec::new();
        let counter = walk(
            &root,
            "",
            SLOT_BASE,
            SLOT_BASE,
            UpdateClass::Static,
            SLOT_BASE,
            true,
            &mut frags,
        );
        let ghost w = walk_spec(
            root@,
            ""@,
            SLOT_BASE,
            SLOT_BASE,
            UpdateClass::Static,
            SLOT_BASE as int,
            true,
        );
        proof {
            assert(""@ =~= Seq::<char>::empty()) by {
                reveal_strlit("");
            }
            assert(geoms_view(frags@) =~= w.frags);
            assert(forall|t: int|
                0 <= t < frags@.len() ==> triangles_wf(&(#[trigger] frags@[t]).triangles));
        }
        let mut g = match GeometrySet::build_from_fragments(&frags) {
            Some(g) => g,
            None => {
                return None;
            },
        };
        g.transform_count = counter;
        let bbox = compute_bbox(&g.static_vertices, &g.dyn_vertices);
        g.bbox = bbox;
        Some(SvgSet { geometry_set: g, document: root, bbox })
    }

    /// Exports the render-ready combined arrays.
    pub fn export(&self) -> (r: Triangles)
        requires
            self.wf(),
        ensures
            r.vertices@ == self.geometry_set.static_vertices@ + self.geometry_set.dyn_vertices@,
            r.indices@ == self.geometry_set.static_indices@ + shift_indices(
                self.geometry_set.dyn_indices@,
                self.geometry_set.static_vertices@.len() as int,
            ),
            triangles_wf(&r),
    {
        self.geometry_set.export()
    }

    /// The combined geometry as one fragment, ready for upload.
    pub fn get_combined_geometries(&self) -> (r: Geometry)
        requires
            self.wf(),
        ensures
            r.triangles.vertices@ == self.geometry_set.static_vertices@
                + self.geometry_set.dyn_vertices@,
            r.triangles.indices@ == self.geometry_set.static_indices@ + shift_indices(
                self.geometry_set.dyn_indices@,
                self.geometry_set.static_vertices@.len() as int,
            ),
            triangles_wf(&r.triangles),
            r.id@.len() == 0,
    {
        Geometry {
            triangles: self.export(),
            id: String::new(),
            class: UpdateClass::Static,
            slot: 0,
        }
    }

    /// The current highest minted transform slot, so the caller can size
    /// its external transform-matrix table.
    pub fn transform_slot_count(&self) -> (r: u64)
        ensures
            r == self.geometry_set.transform_count,
    {
        self.geometry_set.transform_slot_count()
    }

    /// The bounding box of the whole document, as recorded at build time.
    pub fn bounding_box(&self) -> (r: Rect)
        ensures
            r == self.bbox,
    {
        self.bbox
    }

    /// Replaces the text content of the element registered under `id`:
    /// re-derives the minimal standalone fragment with the new text,
    /// re-parses it, re-walks it with the Dynamic class and the
    /// previously recorded transform slot with minting suppressed, and
    /// splices the result into the Dynamic segment. Fails with
    /// `IdNotFound` when the id is absent from the document or never
    /// registered, and with `MalformedFragment` when the rebuilt
    /// sub-document does not re-parse or its geometry cannot replace the
    /// old content; on any failure the scene is left untouched.
    pub fn update_text(&mut self, id: &str, new_text: &str) -> (r: Result<(), UpdateError>)
        requires
            old(self).wf(),
        ensures
            final(self).wf(),
            r is Err ==> *final(self) == *old(self),
            final(self).geometry_set.static_vertices@ == old(self).geometry_set.static_vertices@,
            final(self).geometry_set.static_indices@ == old(self).geometry_set.static_indices@,
            final(self).geometry_set.transform_count == old(self).geometry_set.transform_count,
            final(self).bbox == old(self).bbox,
            (r == Err::<(), UpdateError>(UpdateError::IdNotFound)) <==> (!find_in(
                old(self).document@,
                id@,
            ) || find_span_spec(spans_view(old(self).geometry_set.spans@), id@) < 0),
            (r == Err::<(), UpdateError>(UpdateError::MalformedFragment)) <==> ({
                let frag = fragment_doc(old(self).document@, id@, new_text@);
                let sv = spans_view(old(self).geometry_set.spans@);
                let k = find_span_spec(sv, id@);
                let pt = parsed_xml(xml_text(frag));
                &&& find_in(old(self).document@, id@)
                &&& k >= 0
                &&& (pt is None || ({
                    let w = walk_spec(
                        pt.unwrap(),
                        Seq::empty(),
                        sv[k].slot,
                        sv[k].slot,
                        UpdateClass::Dynamic,
                        old(self).geometry_set.transform_count as int,
                        false,
                    );
                    let nv = concat_vertices_of(w.frags);
                    let ni = concat_indices_of(w.frags);
                    !(old(self).geometry_set.static_vertices@.len() + (
                    old(self).geometry_set.dyn_vertices@.len() - (sv[k].v_end - sv[k].v_start))
                        + nv.len() <= usize::MAX && old(self).geometry_set.static_indices@.len()
                        + (old(self).geometry_set.dyn_indices@.len() - (sv[k].i_end
                            - sv[k].i_start)) + ni.len() <= usize::MAX && (
                    old(self).geometry_set.dyn_vertices@.len() - (sv[k].v_end - sv[k].v_start))
                        + nv.len() <= usize::MAX && (old(self).geometry_set.dyn_indices@.len() - (
                    sv[k].i_end - sv[k].i_start)) + ni.len() <= usize::MAX)
                }))
            }),
            r is Ok ==> ({
                let frag = fragment_doc(old(self).document@, id@, new_text@);
                let sv = spans_view(old(self).geometry_set.spans@);
                let k = find_span_spec(sv, id@);
                let pt = parsed_xml(xml_text(frag));
                let w = walk_spec(
                    pt.unwrap(),
                    Seq::empty(),
                    sv[k].slot,
                    sv[k].slot,
                    UpdateClass::Dynamic,
                    old(self).geometry_set.transform_count as int,
                    false,
                );
                let nv = concat_vertices_of(w.frags);
                let ni = concat_indices_of(w.frags);
                &&& find_in(old(self).document@, id@)
                &&& k >= 0
                &&& pt is Some
                &&& final(self).document@ == doc_with_text(old(self).document@, id@, new_text@)
                &&& final(self).geometry_set.dyn_vertices@ == splice_vertices(
                    old(self).geometry_set.dyn_vertices@,
                    sv[k].v_start,
                    sv[k].v_end,
                    nv,
                )
                &&& final(self).geometry_set.dyn_indices@ == splice_indices(
                    old(self).geometry_set.dyn_indices@,
                    sv[k].i_start,
                    sv[k].i_end,
                    ni,
                    sv[k].v_start,
                    sv[k].v_start + nv.len() - sv[k].v_end,
                )
                &&& spans_view(final(self).geometry_set.spans@) == splice_spans(
                    sv,
                    k,
                    nv.len() as int,
                    ni.len() as int,
                )
            }),
    {
        if !contains_id(&self.document, id) {
            return Err(UpdateError::IdNotFound);
        }
        let slot = match self.geometry_set.span_slot(id) {
            Some(s) => s,
            None => {
                return Err(UpdateError::IdNotFound);
            },
        };
        let frag = match build_fragment(&self.document, id, new_text) {
            Some(f) => f,
            None => {
                proof {
                    assert(false);
                }
                return Err(UpdateError::IdNotFound);
            },
        };
        let serialized = xml_to_string(&frag);
        let parsed = match parse_xml(serialized.as_str()) {
            Some(p) => p,
            None => {
                return Err(UpdateError::MalformedFragment);
            },
        };
        let mut frags: Vec<Geometry> = Vec::new();
        let counter = self.geometry_set.transform_count;
        let _ = walk(
            &parsed,
            "",
            slot,
            slot,
            UpdateClass::Dynamic,
            counter,
            false,
            &mut frags,
        );
        let ghost w = walk_spec(
            parsed@,
            ""@,
            slot,
            slot,
            UpdateClass::Dynamic,
            counter as int,
            false,
        );
        proof {
            assert(""@ =~= Seq::<char>::empty()) by {
                reveal_strlit("");
            }
            assert(geoms_view(frags@) =~= w.frags);
            assert(forall|t: int|
                0 <= t < frags@.len() ==> triangles_wf(&(#[trigger] frags@[t]).triangles));
        }
        let combined = combine_fragments(&frags);
        proof {
            lemma_concat_of_geoms(frags@);
        }
        let result = self.geometry_set.replace(id, &combined);
        match result {
            Ok(()) => {
                let found = set_text(&mut self.document, id, new_text);
                proof {
                    assert(found);
                    lemma_find_span_spec(spans_view(old(self).geometry_set.spans@), id@);
                }
                Ok(())
            },
            Err(e) => {
                proof {
                    lemma_find_span_spec(spans_view(old(self).geometry_set.spans@), id@);
                    if e == UpdateError::IdNotFound {
                        assert(false);
                    }
                }
                Err(UpdateError::MalformedFragment)
            },
        }
    }
}

/// The concatenated vertices of a fragment list's ghost images.
pub open spec fn concat_vertices_of(fs: Seq<GeomV>) -> Seq<Vertex>
    decreases fs,
{
    if fs.len() == 0 {
        Seq::empty()
    } else {
        concat_vertices_of(fs.drop_last()) + fs.last().vertices
    }
}

/// The concatenated rebased indices of a fragment list's ghost images.
pub open spec fn concat_indices_of(fs: Seq<GeomV>) -> Seq<usize>
    decreases fs,
{
    if fs.len() == 0 {
        Seq::empty()
    } else {
        concat_indices_of(fs.drop_last()) + shift_indices(
            fs.last().indices,
            concat_vertices_of(fs.drop_last()).len() as int,
        )
    }
}

/// The exec-level fragment concatenation agrees with the ghost-level one.
proof fn lemma_concat_of_geoms(fs: Seq<Geometry>)
    ensures
        concat_vertices(fs) == concat_vertices_of(geoms_view(fs)),
        concat_indices(fs) == concat_indices_of(geoms_view(fs)),
    decreases fs.len(),
{
    if fs.len() == 0 {
        assert(geoms_view(fs).len() == 0);
    } else {
        lemma_concat_of_geoms(fs.drop_last());
        assert(geoms_view(fs.drop_last()) =~= geoms_view(fs).drop_last());
        assert(geoms_view(fs).last() == fs.last()@);
    }
}

/// Loads a scene from document text.
pub fn use_svg(xml: &str) -> (r: Option<SvgSet>)
    ensures
        match r {
            Some(s) => {
                &&& parsed_xml(xml@) is Some
                &&& built_from(s, parsed_xml(xml@).unwrap())
                &&& s.wf()
            },
            None => parsed_xml(xml@) is Some ==> {
                let t = parsed_xml(xml@).unwrap();
                let w = walk_spec(
                    t,
                    Seq::empty(),
                    SLOT_BASE,
                    SLOT_BASE,
                    UpdateClass::Static,
                    SLOT_BASE as int,
                    true,
                );
                SLOT_BASE + node_count(t) > u64::MAX || !build_fits(w.frags)
            },
        },
{
    SvgSet::new(xml)
}


/// Idempotence of a text update: applying the same update to the state a
/// successful update produced changes nothing. The re-derived fragment,
/// its parse, the re-walk, and the splice all reproduce themselves: the
/// document keeps the text, the span keeps its position and slot, and the
/// spliced arrays come back unchanged.
pub proof fn lemma_update_idempotence(
    doc: XmlTree,
    dv: Seq<Vertex>,
    di: Seq<usize>,
    sv: Seq<SpanV>,
    id: Seq<char>,
    text: Seq<char>,
    counter: int,
)
    requires
        crate::geometry_set::spans_chained(sv, dv.len() as int, di.len() as int),
        0 <= find_span_spec(sv, id) < sv.len(),
        ({
            let k = find_span_spec(sv, id);
            let frag = fragment_doc(doc, id, text);
            let pt = parsed_xml(xml_text(frag));
            pt is Some && concat_indices_of(
                walk_spec(
                    pt.unwrap(),
                    Seq::empty(),
                    sv[k].slot,
                    sv[k].slot,
                    UpdateClass::Dynamic,
                    counter,
                    false,
                ).frags,
            ).len() % 3 == 0
        }),
    ensures
        ({
            let k = find_span_spec(sv, id);
            let slot = sv[k].slot;
            let frag = fragment_doc(doc, id, text);
            let pt = parsed_xml(xml_text(frag));
            let w = walk_spec(
                pt.unwrap(),
                Seq::empty(),
                slot,
                slot,
                UpdateClass::Dynamic,
                counter,
                false,
            );
            let nv = concat_vertices_of(w.frags);
            let ni = concat_indices_of(w.frags);
            let doc1 = doc_with_text(doc, id, text);
            let sv1 = splice_spans(sv, k, nv.len() as int, ni.len() as int);
            let dv1 = splice_vertices(dv, sv[k].v_start, sv[k].v_end, nv);
            let di1 = splice_indices(
                di,
                sv[k].i_start,
                sv[k].i_end,
                ni,
                sv[k].v_start,
                sv[k].v_start + nv.len() - sv[k].v_end,
            );
            // The second update re-derives the very same fragment, finds
            // the span at the same position with the same slot, ...
            &&& fragment_doc(doc1, id, text) == frag
            &&& find_span_spec(sv1, id) == k
            &&& sv1[k].slot == slot
            // ... and its splice and text write reproduce the state of
            // the first update exactly.
            &&& splice_vertices(dv1, sv1[k].v_start, sv1[k].v_end, nv) == dv1
            &&& splice_indices(
                di1,
                sv1[k].i_start,
                sv1[k].i_end,
                ni,
                sv1[k].v_start,
                sv1[k].v_start + nv.len() - sv1[k].v_end,
            ) == di1
            &&& splice_spans(sv1, k, nv.len() as int, ni.len() as int) == sv1
            &&& doc_with_text(doc1, id, text) == doc1
        }),
{
    let k = find_span_spec(sv, id);
    let slot = sv[k].slot;
    let frag = fragment_doc(doc, id, text);
    let pt = parsed_xml(xml_text(frag));
    let w = walk_spec(pt.unwrap(), Seq::empty(), slot, slot, UpdateClass::Dynamic, counter, false);
    let nv = concat_vertices_of(w.frags);
    let ni = concat_indices_of(w.frags);
    crate::document::lemma_doc_with_text(doc, id, text);
    crate::geometry_set::lemma_splice_idempotent(dv, di, sv, k, nv, ni);
    let sv1 = splice_spans(sv, k, nv.len() as int, ni.len() as int);
    assert(sv1[k].slot == slot);
}

} // verus!
