//! Scene traversal.
//!
//! A pre-order, depth-first walk over the document tree. Every node gets a
//! transform slot — a freshly minted one when its id carries the `dynamic`
//! tag, its parent's otherwise — and an update class, the maximum of the
//! inherited class and the node's own tag-derived class. Shape and text
//! nodes are tessellated into fragments tagged with the deepest stable id
//! on their path and the slot recorded at that id. The traversal is a pure
//! function of the document, so re-walks reproduce slots exactly.

use vstd::prelude::*;

use crate::geometry::{GeomV, Geometry, geoms_view, triangles_wf};
use crate::document::{coord_attr_of, fill_paint_of, id_of, node_count, children_count,
    lemma_node_count_pos, lemma_children_count_pos, shape_from_node, shape_of, get_id,
    get_coord_attr};
use crate::tags::{UpdateClass, class_max, combine_class, matches_directive, mints_slot,
    own_class, own_class_of, str_eq};
use crate::tessellate::{glyph_count, prepare_vertex_buffer, quad_indices, resolve_paint_spec,
    shape_indices, shape_verts, tessellate_text, text_verts_up_to};
use crate::xml::{XmlNode, XmlTree, lemma_xml_children_view, xml_children_view};

verus! {

/// The result of a traversal: the emitted fragments in traversal order and
/// the transform-slot counter after it.
pub ghost struct WalkOut {
    pub frags: Seq<GeomV>,
    pub counter: int,
}

/// The fragments one node emits by itself: a tessellated shape for a path
/// element, one text cell quad per character for a text element with a
/// fill, nothing for any other element.
pub open spec fn node_frags(
    t: XmlTree,
    deep_id: Seq<char>,
    deep_slot: u64,
    slot: u64,
    class: UpdateClass,
) -> Seq<GeomV> {
    match shape_of(t) {
        Some(sv) => seq![
            GeomV {
                vertices: shape_verts(sv, slot),
                indices: shape_indices(sv, slot),
                id: deep_id,
                class,
                slot: deep_slot,
            },
        ],
        None => {
            if t.tag == "text"@ {
                let m = glyph_count(t.text.len() as int);
                match fill_paint_of(t) {
                    Some(p) => seq![
                        GeomV {
                            vertices: text_verts_up_to(
                                coord_attr_of(t, "x"@) as int,
                                coord_attr_of(t, "y"@) as int,
                                m,
                                resolve_paint_spec(p),
                                slot,
                            ),
                            indices: quad_indices(m),
                            id: deep_id,
                            class,
                            slot: deep_slot,
                        },
                    ],
                    None => seq![
                        GeomV {
                            vertices: Seq::empty(),
                            indices: Seq::empty(),
                            id: deep_id,
                            class,
                            slot: deep_slot,
                        },
                    ],
                }
            } else {
                Seq::empty()
            }
        },
    }
}

/// The traversal of one node: computes its slot (minting if tagged and
/// minting is enabled), its class, and its deepest id, emits the node's
/// own fragments, then walks the children left to right threading the
/// counter.
pub open spec fn walk_spec(
    t: XmlTree,
    deep_id: Seq<char>,
    deep_slot: u64,
    slot: u64,
    class: UpdateClass,
    counter: int,
    mint: bool,
) -> WalkOut
    decreases t,
{
    let id = id_of(t);
    let minting = mint && mints_slot(id);
    let slot1 = if minting {
        (counter + 1) as u64
    } else {
        slot
    };
    let counter1 = if minting {
        counter + 1
    } else {
        counter
    };
    let class1 = class_max(class, own_class_of(id));
    let deep_id1 = if id.len() > 0 {
        id
    } else {
        deep_id
    };
    let deep_slot1 = if id.len() > 0 {
        slot1
    } else {
        deep_slot
    };
    let own = node_frags(t, deep_id1, deep_slot1, slot1, class1);
    let rest = walk_children_spec(t.children, deep_id1, deep_slot1, slot1, class1, counter1, mint);
    WalkOut { frags: own + rest.frags, counter: rest.counter }
}

/// The traversal of a child list, left to right, threading the counter.
pub open spec fn walk_children_spec(
    cs: Seq<XmlTree>,
    deep_id: Seq<char>,
    deep_slot: u64,
    slot: u64,
    class: UpdateClass,
    counter: int,
    mint: bool,
) -> WalkOut
    decreases cs,
{
    if cs.len() == 0 {
        WalkOut { frags: Seq::empty(), counter }
    } else {
        let rest = walk_children_spec(cs.drop_last(), deep_id, deep_slot, slot, class, counter, mint);
        let last = walk_spec(cs.last(), deep_id, deep_slot, slot, class, rest.counter, mint);
        WalkOut { frags: rest.frags + last.frags, counter: last.counter }
    }
}

/// The transform-slot counter never decreases across a traversal and
/// grows by at most one per visited node.
pub proof fn lemma_walk_counter(
    t: XmlTree,
    deep_id: Seq<char>,
    deep_slot: u64,
    slot: u64,
    class: UpdateClass,
    counter: int,
    mint: bool,
)
    ensures
        counter <= walk_spec(t, deep_id, deep_slot, slot, class, counter, mint).counter <= counter
            + node_count(t),
    decreases t,
{
    lemma_node_count_pos(t);
    let id = id_of(t);
    let minting = mint && mints_slot(id);
    let counter1 = if minting {
        counter + 1
    } else {
        counter
    };
    let slot1 = if minting {
        (counter + 1) as u64
    } else {
        slot
    };
    let class1 = class_max(class, own_class_of(id));
    let deep_id1 = if id.len() > 0 {
        id
    } else {
        deep_id
    };
    let deep_slot1 = if id.len() > 0 {
        slot1
    } else {
        deep_slot
    };
    lemma_walk_children_counter(t.children, deep_id1, deep_slot1, slot1, class1, counter1, mint);
}

/// The counter bound for a child list.
pub proof fn lemma_walk_children_counter(
    cs: Seq<XmlTree>,
    deep_id: Seq<char>,
    deep_slot: u64,
    slot: u64,
    class: UpdateClass,
    counter: int,
    mint: bool,
)
    ensures
        counter <= walk_children_spec(cs, deep_id, deep_slot, slot, class, counter, mint).counter
            <= counter + children_count(cs),
    decreases cs,
{
    lemma_children_count_pos(cs);
    if cs.len() > 0 {
        lemma_walk_children_counter(cs.drop_last(), deep_id, deep_slot, slot, class, counter, mint);
        let rest = walk_children_spec(cs.drop_last(), deep_id, deep_slot, slot, class, counter, mint);
        lemma_walk_counter(cs.last(), deep_id, deep_slot, slot, class, rest.counter, mint);
        lemma_children_count_pos(cs.drop_last());
        lemma_node_count_pos(cs.last());
    }
}

/// Monotonic class escalation: once the inherited class is Dynamic, every
/// fragment emitted below carries the Dynamic class — classification can
/// only escalate going down the tree, never de-escalate.
pub proof fn lemma_walk_class_escalation(
    t: XmlTree,
    deep_id: Seq<char>,
    deep_slot: u64,
    slot: u64,
    class: UpdateClass,
    counter: int,
    mint: bool,
)
    ensures
        class is Dynamic ==> forall|i: int|
            0 <= i < walk_spec(t, deep_id, deep_slot, slot, class, counter, mint).frags.len()
                ==> (#[trigger] walk_spec(
                t,
                deep_id,
                deep_slot,
                slot,
                class,
                counter,
                mint,
            ).frags[i]).class is Dynamic,
    decreases t,
{
    if class is Dynamic {
        let id = id_of(t);
        let minting = mint && mints_slot(id);
        let slot1 = if minting {
            (counter + 1) as u64
        } else {
            slot
        };
        let counter1 = if minting {
            counter + 1
        } else {
            counter
        };
        let class1 = class_max(class, own_class_of(id));
        let deep_id1 = if id.len() > 0 {
            id
        } else {
            deep_id
        };
        let deep_slot1 = if id.len() > 0 {
            slot1
        } else {
            deep_slot
        };
        assert(class1 is Dynamic);
        let own = node_frags(t, deep_id1, deep_slot1, slot1, class1);
        assert(forall|i: int| 0 <= i < own.len() ==> (#[trigger] own[i]).class is Dynamic);
        lemma_walk_children_class_escalation(
            t.children,
            deep_id1,
            deep_slot1,
            slot1,
            class1,
            counter1,
            mint,
        );
    }
}

/// The class escalation bound for a child list.
pub proof fn lemma_walk_children_class_escalation(
    cs: Seq<XmlTree>,
    deep_id: Seq<char>,
    deep_slot: u64,
    slot: u64,
    class: UpdateClass,
    counter: int,
    mint: bool,
)
    ensures
        class is Dynamic ==> forall|i: int|
            0 <= i < walk_children_spec(cs, deep_id, deep_slot, slot, class, counter, mint).frags.len()
                ==> (#[trigger] walk_children_spec(
                cs,
                deep_id,
                deep_slot,
                slot,
                class,
                counter,
                mint,
            ).frags[i]).class is Dynamic,
    decreases cs,
{
    if class is Dynamic && cs.len() > 0 {
        lemma_walk_children_class_escalation(
            cs.drop_last(),
            deep_id,
            deep_slot,
            slot,
            class,
            counter,
            mint,
        );
        let rest = walk_children_spec(cs.drop_last(), deep_id, deep_slot, slot, class, counter, mint);
        lemma_walk_class_escalation(cs.last(), deep_id, deep_slot, slot, class, rest.counter, mint);
    }
}

/// Slot determinism: the traversal is a pure function of the document and
/// its starting context, so two independent traversals of the same
/// document emit the same fragments and mint the same transform-slot
/// sequence.
pub proof fn lemma_slot_determinism(
    t1: XmlTree,
    t2: XmlTree,
    deep_id: Seq<char>,
    deep_slot: u64,
    slot: u64,
    class: UpdateClass,
    counter: int,
    mint: bool,
)
    requires
        t1 == t2,
    ensures
        walk_spec(t1, deep_id, deep_slot, slot, class, counter, mint) == walk_spec(
            t2,
            deep_id,
            deep_slot,
            slot,
            class,
            counter,
            mint,
        ),
{
}

/// Walks one node, appending the emitted fragments to `out` and returning
/// the advanced transform-slot counter.
pub fn walk(
    n: &XmlNode,
    deep_id: &str,
    deep_slot: u64,
    slot: u64,
    class: UpdateClass,
    counter: u64,
    mint: bool,
    out: &mut Vec<Geometry>,
) -> (rc: u64)
    requires
        mint ==> counter + node_count(n@) <= u64::MAX,
    ensures
        ({
            let w = walk_spec(n@, deep_id@, deep_slot, slot, class, counter as int, mint);
            &&& geoms_view(final(out)@) == geoms_view(old(out)@) + w.frags
            &&& rc as int == w.counter
            &&& final(out)@.len() >= old(out)@.len()
            &&& forall|i: int|
                0 <= i < old(out)@.len() ==> #[trigger] final(out)@[i] == old(out)@[i]
            &&& forall|i: int|
                old(out)@.len() <= i < final(out)@.len() ==> triangles_wf(
                    &#[trigger] final(out)@[i].triangles,
                )
        }),
    decreases *n,
{
    proof {
        lemma_node_count_pos(n@);
    }
    let ghost w = walk_spec(n@, deep_id@, deep_slot, slot, class, counter as int, mint);
    let id = get_id(n);
    let minting = mint && matches_directive(id.as_str(), "dynamic");
    let slot1: u64 = if minting {
        counter + 1
    } else {
        slot
    };
    let counter1: u64 = if minting {
        counter + 1
    } else {
        counter
    };
    let class1 = combine_class(class, own_class(id.as_str()));
    let id_nonempty = !id.as_str().is_empty();
    let deep_id1: &str = if id_nonempty {
        id.as_str()
    } else {
        deep_id
    };
    let deep_slot1: u64 = if id_nonempty {
        slot1
    } else {
        deep_slot
    };
    let ghost own = node_frags(n@, deep_id1@, deep_slot1, slot1, class1);
    match shape_from_node(n) {
        Some(shape) => {
            let tri = prepare_vertex_buffer(&shape, slot1);
            let g = Geometry {
                triangles: tri,
                id: deep_id1.to_owned(),
                class: class1,
                slot: deep_slot1,
            };
            proof {
                assert(shape_of(n@) == Some(shape@));
                assert(own.len() == 1);
                assert(own[0].vertices == shape_verts(shape@, slot1));
                assert(own[0].indices == shape_indices(shape@, slot1));
                assert(own[0].id == deep_id1@);
                assert(own[0].class == class1);
                assert(own[0].slot == deep_slot1);
                assert(g@.vertices == shape_verts(shape@, slot1));
                assert(g@.indices == shape_indices(shape@, slot1));
                assert(g@.id == deep_id1@);
                assert(g@ =~= own[0]);
            }
            out.push(g);
            proof {
                assert(out@ == old(out)@.push(out@.last()));
                assert(geoms_view(out@) =~= geoms_view(old(out)@) + own);
            }
        },
        None => {
            if str_eq(n.tag.as_str(), "text") {
                let x = get_coord_attr(n, "x");
                let y = get_coord_attr(n, "y");
                let fill = crate::document::get_attr(n, "fill");
                let fill_op = crate::document::get_attr(n, "fill-opacity");
                let tri = match text_paint(fill, fill_op) {
                    Some(c) => tessellate_text(n.text.as_str(), x, y, c, slot1),
                    None => crate::geometry::Triangles::new(),
                };
                let g = Geometry {
                    triangles: tri,
                    id: deep_id1.to_owned(),
                    class: class1,
                    slot: deep_slot1,
                };
                proof {
                    if fill_paint_of(n@) is None {
                        assert(own[0].vertices =~= Seq::<crate::geometry::Vertex>::empty());
                        assert(own[0].indices =~= Seq::<usize>::empty());
                    }
                    assert(g@ =~= own[0]);
                }
                out.push(g);
                proof {
                    assert(out@ == old(out)@.push(out@.last()));
                    assert(geoms_view(out@) =~= geoms_view(old(out)@) + own);
                }
            } else {
                assert(geoms_view(out@) =~= geoms_view(old(out)@) + own);
            }
        },
    }
    let ghost base = geoms_view(old(out)@) + own;
    let mut c: u64 = counter1;
    let mut k: usize = 0;
    proof {
        lemma_xml_children_view(n.children@);
        lemma_children_count_pos(n@.children);
        assert(walk_children_spec(
            n@.children.subrange(0, 0),
            deep_id1@,
            deep_slot1,
            slot1,
            class1,
            counter1 as int,
            mint,
        ) == WalkOut { frags: Seq::<GeomV>::empty(), counter: counter1 as int });
        assert(geoms_view(out@) =~= base + Seq::<GeomV>::empty());
    }
    while k < n.children.len()
        invariant
            n@.children == xml_children_view(n.children@),
            n@.children.len() == n.children@.len(),
            forall|t: int| 0 <= t < n.children@.len() ==> #[trigger] n@.children[t]
                == n.children@[t]@,
            mint ==> counter1 + children_count(n@.children) <= u64::MAX,
            k <= n.children@.len(),
            ({
                let wc = walk_children_spec(
                    n@.children.subrange(0, k as int),
                    deep_id1@,
                    deep_slot1,
                    slot1,
                    class1,
                    counter1 as int,
                    mint,
                );
                &&& geoms_view(out@) == base + wc.frags
                &&& c as int == wc.counter
            }),
            out@.len() >= old(out)@.len(),
            forall|i: int| 0 <= i < old(out)@.len() ==> #[trigger] out@[i] == old(out)@[i],
            forall|i: int|
                old(out)@.len() <= i < out@.len() ==> triangles_wf(
                    &#[trigger] out@[i].triangles,
                ),
            base == geoms_view(old(out)@) + node_frags(n@, deep_id1@, deep_slot1, slot1, class1),
        decreases n.children@.len() - k,
    {
        let ghost pre = n@.children.subrange(0, k as int);
        let ghost wc = walk_children_spec(
            pre,
            deep_id1@,
            deep_slot1,
            slot1,
            class1,
            counter1 as int,
            mint,
        );
        proof {
            if mint {
                lemma_walk_children_counter(
                    pre,
                    deep_id1@,
                    deep_slot1,
                    slot1,
                    class1,
                    counter1 as int,
                    mint,
                );
                lemma_children_count_split(n@.children, k as int);
                lemma_children_count_pos(pre);
                let rest_s = n@.children.subrange(k as int, n@.children.len() as int);
                lemma_children_count_first(rest_s);
                lemma_children_count_pos(rest_s.drop_first());
                assert(rest_s[0] == n@.children[k as int]);
                assert(node_count(n@.children[k as int]) <= children_count(rest_s));
                assert(c as int <= counter1 + children_count(pre));
                assert(n.children@[k as int]@ == n@.children[k as int]);
            }
        }
        c = walk(&n.children[k], deep_id1, deep_slot1, slot1, class1, c, mint, out);
        proof {
            let p1 = n@.children.subrange(0, k + 1);
            assert(p1.drop_last() =~= pre);
            assert(p1.last() == n@.children[k as int]);
            assert(n@.children[k as int] == n.children@[k as int]@);
            let wc1 = walk_children_spec(
                p1,
                deep_id1@,
                deep_slot1,
                slot1,
                class1,
                counter1 as int,
                mint,
            );
            assert(wc1.frags == wc.frags + walk_spec(
                n@.children[k as int],
                deep_id1@,
                deep_slot1,
                slot1,
                class1,
                wc.counter,
                mint,
            ).frags);
            assert(geoms_view(out@) =~= base + wc1.frags);
        }
        k = k + 1;
    }
    proof {
        assert(n@.children.subrange(0, n.children@.len() as int) =~= n@.children);
        assert(geoms_view(out@) =~= geoms_view(old(out)@) + w.frags);
    }
    c
}

/// The split of a child count at a position.
proof fn lemma_children_count_split(cs: Seq<XmlTree>, k: int)
    requires
        0 <= k <= cs.len(),
    ensures
        children_count(cs) == children_count(cs.subrange(0, k)) + children_count(
            cs.subrange(k, cs.len() as int),
        ),
    decreases cs.len() - k,
{
    if k == cs.len() {
        assert(cs.subrange(0, k) =~= cs);
        assert(cs.subrange(k, cs.len() as int).len() == 0);
    } else {
        lemma_children_count_split(cs, k + 1);
        let a = cs.subrange(0, k);
        let a1 = cs.subrange(0, k + 1);
        let b = cs.subrange(k, cs.len() as int);
        let b1 = cs.subrange(k + 1, cs.len() as int);
        assert(a1.drop_last() =~= a);
        assert(a1.last() == cs[k]);
        assert(children_count(a1) == children_count(a) + node_count(cs[k]));
        lemma_children_count_first(b);
        assert(b.drop_first() =~= b1);
        assert(b[0] == cs[k]);
    }
}

/// A child count unfolds at the front as well.
proof fn lemma_children_count_first(cs: Seq<XmlTree>)
    requires
        cs.len() > 0,
    ensures
        children_count(cs) == node_count(cs[0]) + children_count(cs.drop_first()),
    decreases cs,
{
    if cs.len() == 1 {
        assert(cs.drop_last().len() == 0);
        assert(cs.drop_first().len() == 0);
        assert(cs.last() == cs[0]);
        assert(children_count(cs) == children_count(cs.drop_last()) + node_count(cs.last()));
    } else {
        let dl = cs.drop_last();
        lemma_children_count_first(dl);
        assert(dl[0] == cs[0]);
        assert(dl.drop_first() =~= cs.drop_first().drop_last());
        assert(cs.drop_first().last() == cs.last());
        assert(children_count(cs) == children_count(dl) + node_count(cs.last()));
        assert(children_count(dl) == node_count(dl[0]) + children_count(dl.drop_first()));
        assert(cs.drop_first().len() > 0);
        assert(children_count(cs.drop_first()) == children_count(cs.drop_first().drop_last())
            + node_count(cs.drop_first().last()));
        assert(children_count(cs.drop_first().drop_last()) == children_count(dl.drop_first()));
        assert(children_count(cs) == node_count(cs[0]) + children_count(cs.drop_first()));
    }
}

/// Resolves the paint a text run is filled with, from its attributes.
fn text_paint(color: Option<String>, opacity: Option<String>) -> (r: Option<crate::geometry::Rgba>)
    ensures
        ({
            let cv = match color {
                Some(ref s) => Some(s@),
                None => None,
            };
            let ov = match opacity {
                Some(ref s) => Some(s@),
                None => None,
            };
            let op = crate::document::opacity_of(ov);
            r == match cv {
                None => Some(
                    resolve_paint_spec(
                        crate::tessellate::Paint::Solid { r: 0, g: 0, b: 0, opacity: op },
                    ),
                ),
                Some(v) => {
                    if v == "none"@ {
                        None::<crate::geometry::Rgba>
                    } else {
                        match crate::document::solid_of(v) {
                            Some((cr, cg, cb)) => Some(
                                resolve_paint_spec(
                                    crate::tessellate::Paint::Solid {
                                        r: cr,
                                        g: cg,
                                        b: cb,
                                        opacity: op,
                                    },
                                ),
                            ),
                            None => Some(resolve_paint_spec(crate::tessellate::Paint::Unsupported)),
                        }
                    }
                },
            }
        }),
{
    let op = match &opacity {
        Some(s) => crate::document::parse_opacity(s.as_str()),
        None => 255,
    };
    match &color {
        None => Some(crate::geometry::Rgba { r: 0, g: 0, b: 0, a: op }),
        Some(v) => {
            if str_eq(v.as_str(), "none") {
                None
            } else {
                match crate::document::parse_solid(v.as_str()) {
                    Some((cr, cg, cb)) => Some(crate::geometry::Rgba { r: cr, g: cg, b: cb, a: op }),
                    None => Some(crate::geometry::Rgba { r: 255, g: 255, b: 255, a: 255 }),
                }
            }
        },
    }
}

} // verus!
