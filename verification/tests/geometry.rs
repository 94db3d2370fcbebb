use svg_gui::geometry::{Geometry, Rgba, Triangles, Vertex};
use svg_gui::gpu::GpuRedraw;
use svg_gui::mutcount::MutCount;
use svg_gui::tags::UpdateClass;
use svg_gui::tessellate::{Paint, Point, ShapeData, prepare_vertex_buffer, tessellate_fill,
    tessellate_stroke, tessellate_text};

fn v(x: i64, y: i64, slot: u64) -> Vertex {
    Vertex { x, y, color: Rgba { r: 1, g: 2, b: 3, a: 4 }, transform_id: slot }
}

#[test]
fn extend_rebases_indices() {
    let mut a = Geometry {
        triangles: Triangles { vertices: vec![v(0, 0, 1), v(1, 0, 1)], indices: vec![] },
        id: String::from("a"),
        class: UpdateClass::Dynamic,
        slot: 1,
    };
    let b = Geometry {
        triangles: Triangles {
            vertices: vec![v(5, 5, 1), v(6, 5, 1), v(6, 6, 1)],
            indices: vec![0, 1, 2],
        },
        id: String::from("b"),
        class: UpdateClass::Dynamic,
        slot: 1,
    };
    a.extend(&b);
    assert_eq!(a.triangles.vertices.len(), 5);
    assert_eq!(a.triangles.indices, vec![2, 3, 4]);
    assert_eq!(a.id, "a");
}

#[test]
fn fill_fan_counts() {
    let outline = vec![
        Point { x: 0, y: 0 },
        Point { x: 10, y: 0 },
        Point { x: 10, y: 10 },
        Point { x: 0, y: 10 },
    ];
    let c = Rgba { r: 9, g: 9, b: 9, a: 255 };
    let t = tessellate_fill(&outline, c, 7);
    assert_eq!(t.vertices.len(), 4);
    assert_eq!(t.indices, vec![0, 1, 2, 0, 2, 3]);
    assert!(t.vertices.iter().all(|w| w.transform_id == 7 && w.color == c));
}

#[test]
fn degenerate_fill_is_empty() {
    let outline = vec![Point { x: 0, y: 0 }, Point { x: 1, y: 1 }];
    let t = tessellate_fill(&outline, Rgba { r: 0, g: 0, b: 0, a: 255 }, 1);
    assert_eq!(t.vertices.len(), 0);
    assert_eq!(t.indices.len(), 0);
}

#[test]
fn stroke_quads_per_edge() {
    let outline = vec![
        Point { x: 0, y: 0 },
        Point { x: 10, y: 0 },
        Point { x: 10, y: 10 },
    ];
    let c = Rgba { r: 1, g: 1, b: 1, a: 255 };
    let open_stroke = tessellate_stroke(&outline, false, 2, c, 3);
    assert_eq!(open_stroke.vertices.len(), 8);
    assert_eq!(open_stroke.indices.len(), 12);
    let closed_stroke = tessellate_stroke(&outline, true, 2, c, 3);
    assert_eq!(closed_stroke.vertices.len(), 12);
    assert_eq!(closed_stroke.indices.len(), 18);
    assert_eq!(&closed_stroke.indices[0..6], &[0, 1, 2, 0, 2, 3]);
}

#[test]
fn text_cells_per_character() {
    let c = Rgba { r: 0, g: 0, b: 0, a: 255 };
    let t = tessellate_text("hi", 100, 200, c, 5);
    assert_eq!(t.vertices.len(), 8);
    assert_eq!(t.indices.len(), 12);
    assert_eq!(t.vertices[0].x, 100);
    assert_eq!(t.vertices[0].y, 200);
    assert_eq!(t.vertices[4].x, 110);
    let empty = tessellate_text("", 0, 0, c, 5);
    assert_eq!(empty.vertices.len(), 0);
}

#[test]
fn shape_fill_then_stroke_order() {
    let shape = ShapeData {
        outline: vec![
            Point { x: 0, y: 0 },
            Point { x: 4, y: 0 },
            Point { x: 4, y: 4 },
        ],
        closed: true,
        fill: Some(Paint::Solid { r: 10, g: 20, b: 30, opacity: 255 }),
        stroke: Some(Paint::Unsupported),
        stroke_width: 2,
    };
    let t = prepare_vertex_buffer(&shape, 9);
    // 3 fill vertices, then 3 closed edges of 4 stroke vertices each.
    assert_eq!(t.vertices.len(), 3 + 12);
    assert_eq!(t.indices.len(), 3 + 18);
    assert_eq!(t.vertices[0].color, Rgba { r: 10, g: 20, b: 30, a: 255 });
    // Unsupported stroke paint falls back to opaque white.
    assert_eq!(t.vertices[3].color, Rgba { r: 255, g: 255, b: 255, a: 255 });
    // Stroke indices are rebased past the fill vertices.
    assert_eq!(t.indices[3], 3);
    let n = t.vertices.len();
    assert!(t.indices.iter().all(|&j| j < n));
}

#[test]
fn gpu_redraw_splices_tail() {
    let mut g = GpuRedraw::new();
    g.update_texture(vec![1, 2, 3]);
    assert_eq!(g.texture, vec![1, 2, 3]);
    let base = Triangles {
        vertices: vec![v(0, 0, 1), v(1, 0, 1), v(2, 0, 1), v(3, 0, 1)],
        indices: vec![0, 1, 2, 2, 1, 3],
    };
    g.update_triangles(base, 0);
    assert_eq!(g.triangles.vertices.len(), 4);
    let tail = Triangles { vertices: vec![v(9, 9, 2)], indices: vec![0, 0, 0] };
    // Splice at index offset 3; the entry after it references vertex 1.
    g.update_triangles(tail, 3);
    assert_eq!(g.triangles.indices, vec![0, 1, 2, 0, 0, 0]);
    assert_eq!(g.triangles.vertices.len(), 2);
    assert_eq!(g.triangles.vertices[1], v(9, 9, 2));
}

#[test]
fn mut_count_tracks_access() {
    let mut m = MutCount::new(41i64);
    assert_eq!(m.mut_count, 1);
    m.reset_mut_count();
    assert_eq!(m.mut_count, 0);
    *m.get_mut() = 42;
    assert_eq!(*m.get(), 42);
    assert_eq!(m.mut_count, 1);
    let wrapped: MutCount<u8> = MutCount::from(7u8);
    assert_eq!(wrapped.mut_count, 0);
    assert_eq!(wrapped.unwrapped, 7);
}
