//! Path tessellation.
//!
//! Converts one shape's fill and/or stroke definition into local,
//! zero-based vertex and triangle-index arrays plus a flat RGBA color,
//! given a transform-slot id. A shape with both fill and stroke contributes
//! two triangle lists concatenated in fill-then-stroke order.
//!
//! The geometric model is deliberately simple and entirely deterministic:
//! fills are fan-triangulated polygons in integer document units, strokes
//! are one clamped-offset quad per outline edge, and text is one
//! fixed-size cell quad per character. Curve flattening and font
//! rasterization are out of scope.

use vstd::prelude::*;

use crate::geometry::{Rgba, Triangles, Vertex, shift_indices, triangles_wf};

verus! {

/// A 2D point in integer document units.
#[derive(Clone, Copy, Debug, PartialEq, Eq, Structural)]
pub struct Point {
    pub x: i64,
    pub y: i64,
}

/// A paint definition: a solid color with an opacity, or any other paint
/// kind (gradient, pattern), which is reduced to the fallback opaque white.
/// The reduction is a documented lossy simplification, not an error.
#[derive(Clone, Copy, Debug, PartialEq, Eq, Structural)]
pub enum Paint {
    Solid { r: u8, g: u8, b: u8, opacity: u8 },
    Unsupported,
}

/// One shape's geometric definition: a flattened outline, whether the
/// outline is closed, and independent fill and stroke paints.
#[derive(Clone, Debug)]
pub struct ShapeData {
    pub outline: Vec<Point>,
    pub closed: bool,
    pub fill: Option<Paint>,
    pub stroke: Option<Paint>,
    pub stroke_width: i64,
}

/// The ghost image of a shape, with the outline as a sequence.
pub ghost struct ShapeV {
    pub outline: Seq<Point>,
    pub closed: bool,
    pub fill: Option<Paint>,
    pub stroke: Option<Paint>,
    pub stroke_width: i64,
}

impl View for ShapeData {
    type V = ShapeV;

    open spec fn view(&self) -> ShapeV {
        ShapeV {
            outline: self.outline@,
            closed: self.closed,
            fill: self.fill,
            stroke: self.stroke,
            stroke_width: self.stroke_width,
        }
    }
}

/// The largest outline a well-formed shape may carry.
pub const MAX_OUTLINE_POINTS: usize = 0x0100_0000;

/// Well-formedness of a shape's plain data: bounded coordinates, a bounded
/// outline, and a bounded non-negative stroke width.
pub open spec fn shape_wf(s: ShapeV) -> bool {
    s.outline.len() <= MAX_OUTLINE_POINTS
}

/// Resolution of a paint to a flat color: a solid color keeps its channels
/// with the opacity as alpha; any non-solid paint becomes opaque white.
pub open spec fn resolve_paint_spec(p: Paint) -> Rgba {
    match p {
        Paint::Solid { r, g, b, opacity } => Rgba { r, g, b, a: opacity },
        Paint::Unsupported => Rgba { r: 255, g: 255, b: 255, a: 255 },
    }
}

/// Resolves a paint definition to its flat color.
pub fn resolve_paint(p: &Paint) -> (c: Rgba)
    ensures
        c == resolve_paint_spec(*p),
{
    match *p {
        Paint::Solid { r, g, b, opacity } => Rgba { r, g, b, a: opacity },
        Paint::Unsupported => Rgba { r: 255, g: 255, b: 255, a: 255 },
    }
}

/// The outline's points as vertices with the given color and transform
/// slot, in order; empty when the outline is degenerate (fewer than three
/// points).
pub open spec fn fill_verts(outline: Seq<Point>, c: Rgba, slot: u64) -> Seq<Vertex> {
    if outline.len() < 3 {
        Seq::empty()
    } else {
        outline.map(|_k: int, p: Point| Vertex { x: p.x, y: p.y, color: c, transform_id: slot })
    }
}

/// The fan triangulation of a polygon with `n` vertices: for every vertex
/// after the second, one triangle rooted at vertex zero.
pub open spec fn fan_indices(n: int) -> Seq<usize>
    decreases n,
{
    if n < 3 {
        Seq::empty()
    } else {
        fan_indices(n - 1) + seq![0usize, (n - 2) as usize, (n - 1) as usize]
    }
}

/// The fan triangulation is well formed: three indices per emitted
/// triangle, every index below `n`.
pub proof fn lemma_fan_indices_wf(n: int)
    requires
        n <= usize::MAX,
    ensures
        n < 3 ==> fan_indices(n).len() == 0,
        n >= 3 ==> fan_indices(n).len() == 3 * (n - 2),
        forall|j: int| 0 <= j < fan_indices(n).len() ==> #[trigger] fan_indices(n)[j] < n,
        fan_indices(n).len() % 3 == 0,
    decreases n,
{
    if n >= 3 {
        lemma_fan_indices_wf(n - 1);
        assert(forall|j: int|
            0 <= j < fan_indices(n - 1).len() ==> #[trigger] fan_indices(n)[j] == fan_indices(
                n - 1,
            )[j]);
    }
}

/// Triangulates a polygon fill as a fan rooted at the first point.
pub fn tessellate_fill(outline: &Vec<Point>, c: Rgba, slot: u64) -> (r: Triangles)
    ensures
        r.vertices@ == fill_verts(outline@, c, slot),
        r.indices@ == fan_indices(outline@.len() as int),
        triangles_wf(&r),
{
    let n = outline.len();
    let mut r = Triangles::new();
    if n < 3 {
        assert(r.vertices@ =~= fill_verts(outline@, c, slot));
        assert(r.indices@ =~= fan_indices(outline@.len() as int));
        return r;
    }
    let mut k: usize = 0;
    while k < n
        invariant
            n == outline@.len(),
            3 <= n,
            k <= n,
            r.indices@.len() == 0,
            r.vertices@ == fill_verts(outline@, c, slot).subrange(0, k as int),
        decreases n - k,
    {
        let p = outline[k];
        r.vertices.push(Vertex { x: p.x, y: p.y, color: c, transform_id: slot });
        assert(r.vertices@ =~= fill_verts(outline@, c, slot).subrange(0, k + 1));
        k = k + 1;
    }
    assert(r.vertices@ =~= fill_verts(outline@, c, slot));
    let mut t: usize = 1;
    while t < n - 1
        invariant
            n == outline@.len(),
            3 <= n <= usize::MAX,
            1 <= t <= n - 1,
            r.vertices@ == fill_verts(outline@, c, slot),
            r.indices@ == fan_indices(t + 1),
        decreases n - t,
    {
        r.indices.push(0);
        r.indices.push(t);
        r.indices.push(t + 1);
        assert(r.indices@ =~= fan_indices(t + 2)) by {
            assert(fan_indices(t + 2) == fan_indices(t + 1) + seq![0usize, t, (t + 1) as usize]);
        }
        t = t + 1;
    }
    proof {
        lemma_fan_indices_wf(n as int);
        assert(fill_verts(outline@, c, slot).len() == n);
    }
    r
}

/// Clamps `v` into the symmetric range `[-h, h]`.
pub open spec fn clamp_off_spec(v: int, h: int) -> int {
    if v < -h {
        -h
    } else if v > h {
        h
    } else {
        v
    }
}

/// Clamps an offset component into the symmetric range `[-h, h]`.
fn clamp_off(v: i64, h: i64) -> (r: i64)
    requires
        0 <= h,
    ensures
        r as int == clamp_off_spec(v as int, h as int),
{
    if v < -h {
        -h
    } else if v > h {
        h
    } else {
        v
    }
}

/// The four vertices of one stroke edge quad: the edge's two endpoints,
/// each displaced to both sides along the clamped perpendicular of the
/// edge, in the order p-out, q-out, q-in, p-in; every derived coordinate
/// saturates at the `i64` range.
pub open spec fn edge_quad_verts(p: Point, q: Point, h: int, c: Rgba, slot: u64) -> Seq<Vertex> {
    let ox = clamp_off_spec(sat_i64(-(q.y - p.y)), h);
    let oy = clamp_off_spec(sat_i64(q.x - p.x), h);
    seq![
        Vertex { x: sat_i64(p.x + ox) as i64, y: sat_i64(p.y + oy) as i64, color: c, transform_id: slot },
        Vertex { x: sat_i64(q.x + ox) as i64, y: sat_i64(q.y + oy) as i64, color: c, transform_id: slot },
        Vertex { x: sat_i64(q.x - ox) as i64, y: sat_i64(q.y - oy) as i64, color: c, transform_id: slot },
        Vertex { x: sat_i64(p.x - ox) as i64, y: sat_i64(p.y - oy) as i64, color: c, transform_id: slot },
    ]
}

/// The stroke offset half-width derived from a stroke width: half the
/// width, never negative.
pub open spec fn stroke_h(width: i64) -> int {
    if width < 0 {
        0
    } else {
        width as int / 2
    }
}

/// The number of stroke edges of an outline: every consecutive pair, plus
/// the closing edge when the outline is closed.
pub open spec fn edge_count(n: int, closed: bool) -> int {
    if n < 2 {
        0
    } else if closed {
        n
    } else {
        n - 1
    }
}

/// The endpoint index of edge `k`: the next point, wrapping to the first.
pub open spec fn edge_end(k: int, n: int) -> int {
    if k + 1 == n {
        0
    } else {
        k + 1
    }
}

/// The stroke quads of the first `m` edges, concatenated in edge order.
pub open spec fn stroke_verts_up_to(
    outline: Seq<Point>,
    m: int,
    h: int,
    c: Rgba,
    slot: u64,
) -> Seq<Vertex>
    decreases m,
{
    if m <= 0 {
        Seq::empty()
    } else {
        stroke_verts_up_to(outline, m - 1, h, c, slot) + edge_quad_verts(
            outline[m - 1],
            outline[edge_end(m - 1, outline.len() as int)],
            h,
            c,
            slot,
        )
    }
}

/// The indices of `m` quads: each quad contributes two triangles over its
/// four vertices.
pub open spec fn quad_indices(m: int) -> Seq<usize>
    decreases m,
{
    if m <= 0 {
        Seq::empty()
    } else {
        quad_indices(m - 1) + seq![
            (4 * (m - 1)) as usize,
            (4 * (m - 1) + 1) as usize,
            (4 * (m - 1) + 2) as usize,
            (4 * (m - 1)) as usize,
            (4 * (m - 1) + 2) as usize,
            (4 * (m - 1) + 3) as usize,
        ]
    }
}

/// Quad indices are well formed: six indices per quad, every index below
/// four times the quad count.
pub proof fn lemma_quad_indices_wf(m: int)
    requires
        4 * m <= usize::MAX,
    ensures
        m <= 0 ==> quad_indices(m).len() == 0,
        m >= 0 ==> quad_indices(m).len() == 6 * m,
        forall|j: int| 0 <= j < quad_indices(m).len() ==> #[trigger] quad_indices(m)[j] < 4 * m,
        quad_indices(m).len() % 3 == 0,
    decreases m,
{
    if m > 0 {
        lemma_quad_indices_wf(m - 1);
        assert(forall|j: int|
            0 <= j < quad_indices(m - 1).len() ==> #[trigger] quad_indices(m)[j] == quad_indices(
                m - 1,
            )[j]);
    }
}

/// Tessellates an outline's stroke as one quad per edge, with the offset
/// half-width clamped per component.
#[verifier::rlimit(60)]
pub fn tessellate_stroke(
    outline: &Vec<Point>,
    closed: bool,
    width: i64,
    c: Rgba,
    slot: u64,
) -> (r: Triangles)
    requires
        outline@.len() <= MAX_OUTLINE_POINTS,
    ensures
        r.vertices@ == stroke_verts_up_to(
            outline@,
            edge_count(outline@.len() as int, closed),
            stroke_h(width),
            c,
            slot,
        ),
        r.indices@ == quad_indices(edge_count(outline@.len() as int, closed)),
        triangles_wf(&r),
{
    let n = outline.len();
    let h: i64 = if width < 0 {
        0
    } else {
        width / 2
    };
    let m: usize = if n < 2 {
        0
    } else if closed {
        n
    } else {
        n - 1
    };
    let mut r = Triangles::new();
    let mut k: usize = 0;
    assert(r.vertices@ =~= stroke_verts_up_to(outline@, 0, h as int, c, slot));
    assert(r.indices@ =~= quad_indices(0));
    while k < m
        invariant
            n == outline@.len(),
            n <= MAX_OUTLINE_POINTS,
            0 <= h,
            h as int == stroke_h(width),
            m == edge_count(n as int, closed),
            m <= n,
            k <= m,
            r.vertices@ == stroke_verts_up_to(outline@, k as int, h as int, c, slot),
            r.indices@ == quad_indices(k as int),
            r.vertices@.len() == 4 * k,
        decreases m - k,
    {
        let p = outline[k];
        let next = if k + 1 == n {
            0
        } else {
            k + 1
        };
        let q = outline[next];
        let ox = clamp_off(clamp_to_i64(-(q.y as i128 - p.y as i128)), h);
        let oy = clamp_off(clamp_to_i64(q.x as i128 - p.x as i128), h);
        let v0x = clamp_to_i64(p.x as i128 + ox as i128);
        let v0y = clamp_to_i64(p.y as i128 + oy as i128);
        let v1x = clamp_to_i64(q.x as i128 + ox as i128);
        let v1y = clamp_to_i64(q.y as i128 + oy as i128);
        let v2x = clamp_to_i64(q.x as i128 - ox as i128);
        let v2y = clamp_to_i64(q.y as i128 - oy as i128);
        let v3x = clamp_to_i64(p.x as i128 - ox as i128);
        let v3y = clamp_to_i64(p.y as i128 - oy as i128);
        let ghost quad = edge_quad_verts(p, q, h as int, c, slot);
        let ghost prev = r.vertices@;
        proof {
            assert(ox as int == clamp_off_spec(sat_i64(-(q.y - p.y)), h as int));
            assert(oy as int == clamp_off_spec(sat_i64(q.x - p.x), h as int));
            assert(quad[0] == Vertex { x: v0x, y: v0y, color: c, transform_id: slot });
            assert(quad[1] == Vertex { x: v1x, y: v1y, color: c, transform_id: slot });
            assert(quad[2] == Vertex { x: v2x, y: v2y, color: c, transform_id: slot });
            assert(quad[3] == Vertex { x: v3x, y: v3y, color: c, transform_id: slot });
        }
        r.vertices.push(Vertex { x: v0x, y: v0y, color: c, transform_id: slot });
        r.vertices.push(Vertex { x: v1x, y: v1y, color: c, transform_id: slot });
        r.vertices.push(Vertex { x: v2x, y: v2y, color: c, transform_id: slot });
        r.vertices.push(Vertex { x: v3x, y: v3y, color: c, transform_id: slot });
        proof {
            assert(r.vertices@ =~= prev + quad);
            assert(outline@[k as int] == p && outline@[edge_end(k as int, n as int)] == q);
            assert(stroke_verts_up_to(outline@, k + 1, h as int, c, slot) == stroke_verts_up_to(
                outline@,
                k as int,
                h as int,
                c,
                slot,
            ) + quad);
            assert(r.vertices@ =~= stroke_verts_up_to(outline@, k + 1, h as int, c, slot));
        }
        let base = 4 * k;
        r.indices.push(base);
        r.indices.push(base + 1);
        r.indices.push(base + 2);
        r.indices.push(base);
        r.indices.push(base + 2);
        r.indices.push(base + 3);
        assert(r.indices@ =~= quad_indices(k + 1));
        k = k + 1;
    }
    proof {
        lemma_quad_indices_wf(m as int);
        lemma_stroke_verts_len(outline@, m as int, h as int, c, slot);
    }
    r
}

/// The stroke vertex count is four per edge.
pub proof fn lemma_stroke_verts_len(outline: Seq<Point>, m: int, h: int, c: Rgba, slot: u64)
    requires
        m >= 0,
    ensures
        stroke_verts_up_to(outline, m, h, c, slot).len() == 4 * m,
    decreases m,
{
    if m > 0 {
        lemma_stroke_verts_len(outline, m - 1, h, c, slot);
    }
}

/// Horizontal advance of one text cell, in document units.
pub const GLYPH_ADVANCE: i64 = 10;

/// Width of one text cell, in document units.
pub const GLYPH_WIDTH: i64 = 8;

/// Height of one text cell, in document units.
pub const GLYPH_HEIGHT: i64 = 16;

/// The most cells one text run tessellates.
pub const MAX_GLYPHS: usize = 0x0100_0000;

/// Clamps an unbounded mathematical value into the `i64` range.
pub open spec fn sat_i64(v: int) -> int {
    if v < i64::MIN {
        i64::MIN as int
    } else if v > i64::MAX {
        i64::MAX as int
    } else {
        v
    }
}

/// The four vertices of text cell `k`: a fixed-size quad advanced `k`
/// cells to the right of the run origin.
pub open spec fn glyph_quad_verts(x: int, y: int, k: int, c: Rgba, slot: u64) -> Seq<Vertex> {
    let gx = sat_i64(x + k * (GLYPH_ADVANCE as int));
    let gx2 = sat_i64(gx + GLYPH_WIDTH);
    let gy2 = sat_i64(y + GLYPH_HEIGHT);
    seq![
        Vertex { x: gx as i64, y: y as i64, color: c, transform_id: slot },
        Vertex { x: gx2 as i64, y: y as i64, color: c, transform_id: slot },
        Vertex { x: gx2 as i64, y: gy2 as i64, color: c, transform_id: slot },
        Vertex { x: gx as i64, y: gy2 as i64, color: c, transform_id: slot },
    ]
}

/// The first `m` text cells' vertices, concatenated in cell order.
pub open spec fn text_verts_up_to(x: int, y: int, m: int, c: Rgba, slot: u64) -> Seq<Vertex>
    decreases m,
{
    if m <= 0 {
        Seq::empty()
    } else {
        text_verts_up_to(x, y, m - 1, c, slot) + glyph_quad_verts(x, y, m - 1, c, slot)
    }
}

/// The number of cells a text run of `len` characters tessellates.
pub open spec fn glyph_count(len: int) -> int {
    if len > MAX_GLYPHS {
        MAX_GLYPHS as int
    } else {
        len
    }
}

/// The text cell vertex count is four per cell.
pub proof fn lemma_text_verts_len(x: int, y: int, m: int, c: Rgba, slot: u64)
    requires
        m >= 0,
    ensures
        text_verts_up_to(x, y, m, c, slot).len() == 4 * m,
    decreases m,
{
    if m > 0 {
        lemma_text_verts_len(x, y, m - 1, c, slot);
    }
}

/// Tessellates a text run as one fixed-size cell quad per character,
/// advanced horizontally from the run origin; a run longer than
/// `MAX_GLYPHS` is truncated to that many cells.
pub fn tessellate_text(text: &str, x: i64, y: i64, c: Rgba, slot: u64) -> (r: Triangles)
    ensures
        r.vertices@ == text_verts_up_to(x as int, y as int, glyph_count(text@.len() as int), c, slot),
        r.indices@ == quad_indices(glyph_count(text@.len() as int)),
        triangles_wf(&r),
{
    let len = text.unicode_len();
    let m: usize = if len > MAX_GLYPHS {
        MAX_GLYPHS
    } else {
        len
    };
    let mut r = Triangles::new();
    assert(r.vertices@ =~= text_verts_up_to(x as int, y as int, 0, c, slot));
    assert(r.indices@ =~= quad_indices(0));
    let gy2 = clamp_to_i64(y as i128 + GLYPH_HEIGHT as i128);
    let mut k: usize = 0;
    while k < m
        invariant
            m <= MAX_GLYPHS,
            gy2 as int == sat_i64(y + GLYPH_HEIGHT),
            k <= m,
            r.vertices@ == text_verts_up_to(x as int, y as int, k as int, c, slot),
            r.indices@ == quad_indices(k as int),
            r.vertices@.len() == 4 * k,
        decreases m - k,
    {
        let gx = clamp_to_i64(x as i128 + (k as i128) * (GLYPH_ADVANCE as i128));
        let gx2 = clamp_to_i64(gx as i128 + GLYPH_WIDTH as i128);
        r.vertices.push(Vertex { x: gx, y, color: c, transform_id: slot });
        r.vertices.push(Vertex { x: gx2, y, color: c, transform_id: slot });
        r.vertices.push(Vertex { x: gx2, y: gy2, color: c, transform_id: slot });
        r.vertices.push(Vertex { x: gx, y: gy2, color: c, transform_id: slot });
        assert(r.vertices@ =~= text_verts_up_to(x as int, y as int, k + 1, c, slot));
        let base = 4 * k;
        r.indices.push(base);
        r.indices.push(base + 1);
        r.indices.push(base + 2);
        r.indices.push(base);
        r.indices.push(base + 2);
        r.indices.push(base + 3);
        assert(r.indices@ =~= quad_indices(k + 1));
        k = k + 1;
    }
    proof {
        lemma_quad_indices_wf(m as int);
        lemma_text_verts_len(x as int, y as int, m as int, c, slot);
    }
    r
}

/// Clamps a wide intermediate value into the `i64` range.
fn clamp_to_i64(v: i128) -> (r: i64)
    ensures
        r as int == sat_i64(v as int),
{
    if v > i64::MAX as i128 {
        i64::MAX
    } else if v < i64::MIN as i128 {
        i64::MIN
    } else {
        v as i64
    }
}

/// The combined vertices of one shape: fill first, then stroke.
pub open spec fn shape_verts(s: ShapeV, slot: u64) -> Seq<Vertex> {
    let fv = match s.fill {
        Some(p) => fill_verts(s.outline, resolve_paint_spec(p), slot),
        None => Seq::empty(),
    };
    let sv = match s.stroke {
        Some(p) => stroke_verts_up_to(
            s.outline,
            edge_count(s.outline.len() as int, s.closed),
            stroke_h(s.stroke_width),
            resolve_paint_spec(p),
            slot,
        ),
        None => Seq::empty(),
    };
    fv + sv
}

/// The combined indices of one shape: the fill fan, then the stroke quads
/// rebased past the fill vertices.
pub open spec fn shape_indices(s: ShapeV, slot: u64) -> Seq<usize> {
    let fv = match s.fill {
        Some(p) => fill_verts(s.outline, resolve_paint_spec(p), slot),
        None => Seq::empty(),
    };
    let fi = match s.fill {
        Some(p) => fan_indices(s.outline.len() as int),
        None => Seq::empty(),
    };
    let si = match s.stroke {
        Some(p) => quad_indices(edge_count(s.outline.len() as int, s.closed)),
        None => Seq::empty(),
    };
    fi + shift_indices(si, fv.len() as int)
}

/// Tessellates one shape: resolves its fill and stroke paints
/// independently and concatenates the two triangle lists in
/// fill-then-stroke order. A shape yielding zero vertices contributes an
/// empty list; that is not an error.
#[verifier::rlimit(50)]
pub fn prepare_vertex_buffer(shape: &ShapeData, transform_id: u64) -> (r: Triangles)
    requires
        shape_wf(shape@),
    ensures
        r.vertices@ == shape_verts(shape@, transform_id),
        r.indices@ == shape_indices(shape@, transform_id),
        triangles_wf(&r),
{
    let mut r = Triangles::new();
    match &shape.fill {
        Some(p) => {
            let c = resolve_paint(p);
            let ft = tessellate_fill(&shape.outline, c, transform_id);
            r.append_rebased(&ft);
            assert(r.vertices@ =~= ft.vertices@);
            assert(r.indices@ =~= ft.indices@) by {
                assert(shift_indices(ft.indices@, 0) =~= ft.indices@);
            }
        },
        None => {},
    }
    match &shape.stroke {
        Some(p) => {
            let c = resolve_paint(p);
            let st = tessellate_stroke(
                &shape.outline,
                shape.closed,
                shape.stroke_width,
                c,
                transform_id,
            );
            let ghost before_v = r.vertices@;
            let ghost before_i = r.indices@;
            r.append_rebased(&st);
            proof {
                if shape@.fill is None {
                    assert(before_v =~= Seq::<Vertex>::empty());
                    assert(r.vertices@ =~= shape_verts(shape@, transform_id));
                    assert(r.indices@ =~= shape_indices(shape@, transform_id));
                }
            }
        },
        None => {
            proof {
                if shape@.fill is None {
                    assert(r.vertices@ =~= shape_verts(shape@, transform_id));
                    assert(r.indices@ =~= shape_indices(shape@, transform_id));
                } else {
                    assert(r.vertices@ =~= shape_verts(shape@, transform_id));
                    assert(r.indices@ =~= shape_indices(shape@, transform_id));
                }
            }
        },
    }
    assert(r.vertices@ =~= shape_verts(shape@, transform_id));
    assert(r.indices@ =~= shape_indices(shape@, transform_id));
    r
}


impl crate::geometry::Geometry {
    /// Tessellates one shape into a fragment carrying the given stable id
    /// and transform slot; the vertices are stamped with the same slot.
    pub fn new(shape: &ShapeData, id: String, class: crate::tags::UpdateClass, transform_id: u64) -> (r: crate::geometry::Geometry)
        requires
            shape_wf(shape@),
        ensures
            r.triangles.vertices@ == shape_verts(shape@, transform_id),
            r.triangles.indices@ == shape_indices(shape@, transform_id),
            triangles_wf(&r.triangles),
            r.id@ == id@,
            r.class == class,
            r.slot == transform_id,
    {
        crate::geometry::Geometry {
            triangles: prepare_vertex_buffer(shape, transform_id),
            id,
            class,
            slot: transform_id,
        }
    }
}

} // verus!
