use svg_gui::UpdateError;
use svg_gui::geometry::{Rgba, Triangles, Vertex};
use svg_gui::geometry_set::GeometrySet;
use svg_gui::geometry::Geometry;
use svg_gui::svg_set::use_svg;
use svg_gui::tags::UpdateClass;

const DOC: &str = "<svg id=\"root\"><g id=\"A dynamic\"><path d=\"M 0 0 L 10 0 L 10 10 Z\" fill=\"#ff0000\"/></g><text id=\"B\" x=\"5\" y=\"6\">hi</text><path id=\"C\" d=\"M 0 0 L 1 0 L 1 1 Z\" fill=\"#00ff00\"/></svg>";

fn v(x: i64, slot: u64) -> Vertex {
    Vertex { x, y: 0, color: Rgba { r: 0, g: 0, b: 0, a: 255 }, transform_id: slot }
}

fn frag(id: &str, n: usize, base: i64) -> Geometry {
    Geometry {
        triangles: Triangles {
            vertices: (0..n).map(|k| v(base + k as i64, 1)).collect(),
            indices: vec![],
        },
        id: String::from(id),
        class: UpdateClass::Dynamic,
        slot: 1,
    }
}

#[test]
fn shift_correctness() {
    // Ids A, B, C registered in that order with vertex ranges
    // [0,10) [10,15) [15,20); replacing B with 8 vertices leaves A at
    // [0,10), moves B to [10,18) and C to [18,23), and C's exported vertex
    // content is identical to before the replace.
    let mut set = GeometrySet::new();
    assert!(set.append_fragment(&frag("A", 10, 0)));
    assert!(set.append_fragment(&frag("B", 5, 100)));
    assert!(set.append_fragment(&frag("C", 5, 200)));
    let spans: Vec<_> = set.spans.iter().map(|s| (s.id.clone(), s.v_start, s.v_end)).collect();
    assert_eq!(spans, vec![
        (String::from("A"), 0, 10),
        (String::from("B"), 10, 15),
        (String::from("C"), 15, 20),
    ]);
    let c_before: Vec<Vertex> = set.dyn_vertices[15..20].to_vec();
    let replacement = Triangles {
        vertices: (0..8).map(|k| v(300 + k as i64, 1)).collect(),
        indices: vec![],
    };
    set.replace("B", &replacement).unwrap();
    let spans: Vec<_> = set.spans.iter().map(|s| (s.id.clone(), s.v_start, s.v_end)).collect();
    assert_eq!(spans, vec![
        (String::from("A"), 0, 10),
        (String::from("B"), 10, 18),
        (String::from("C"), 18, 23),
    ]);
    let c_after: Vec<Vertex> = set.dyn_vertices[18..23].to_vec();
    assert_eq!(c_before, c_after);
}

#[test]
fn replace_unknown_id_fails() {
    let mut set = GeometrySet::new();
    assert!(set.append_fragment(&frag("A", 3, 0)));
    let replacement = Triangles { vertices: vec![v(1, 1)], indices: vec![] };
    assert_eq!(set.replace("missing", &replacement), Err(UpdateError::IdNotFound));
    assert_eq!(set.dyn_vertices.len(), 3);
}

#[test]
fn update_text_changes_text_geometry() {
    let mut s = use_svg(DOC).unwrap();
    let before = s.export();
    // "hi" is two cells; "hello" is five.
    s.update_text("B", "hello").unwrap();
    let after = s.export();
    assert_eq!(after.vertices.len(), before.vertices.len() + 3 * 4);
    assert_eq!(after.indices.len(), before.indices.len() + 3 * 6);
    let n = after.vertices.len();
    assert!(after.indices.iter().all(|&j| j < n));
}

#[test]
fn update_text_idempotence() {
    // update_text(id, "X") twice in a row produces the same exported
    // arrays as calling it once.
    let mut once = use_svg(DOC).unwrap();
    once.update_text("B", "X").unwrap();
    let mut twice = use_svg(DOC).unwrap();
    twice.update_text("B", "X").unwrap();
    twice.update_text("B", "X").unwrap();
    let a = once.export();
    let b = twice.export();
    assert_eq!(a.vertices, b.vertices);
    assert_eq!(a.indices, b.indices);
}

#[test]
fn rebuild_equivalence() {
    // Exporting a fresh build equals exporting a build that updated every
    // registered id to its own current text.
    let fresh = use_svg(DOC).unwrap();
    let mut updated = use_svg(DOC).unwrap();
    updated.update_text("A dynamic", "").unwrap();
    updated.update_text("B", "hi").unwrap();
    updated.update_text("C", "").unwrap();
    let a = fresh.export();
    let b = updated.export();
    assert_eq!(a.vertices, b.vertices);
    assert_eq!(a.indices, b.indices);
}

#[test]
fn update_unknown_id_leaves_export_unchanged() {
    // `update_text` on an id not present in the document returns
    // `IdNotFound` and leaves `export()` output unchanged.
    let mut s = use_svg(DOC).unwrap();
    let before = s.export();
    assert_eq!(s.update_text("nope", "text"), Err(UpdateError::IdNotFound));
    let after = s.export();
    assert_eq!(before.vertices, after.vertices);
    assert_eq!(before.indices, after.indices);
}

#[test]
fn update_preserves_sibling_content() {
    let mut s = use_svg(DOC).unwrap();
    let before = s.export();
    let red_before: Vec<Vertex> = before
        .vertices
        .iter()
        .filter(|v| v.color.r == 255 && v.color.g == 0)
        .cloned()
        .collect();
    s.update_text("B", "a longer label").unwrap();
    let after = s.export();
    let red_after: Vec<Vertex> = after
        .vertices
        .iter()
        .filter(|v| v.color.r == 255 && v.color.g == 0)
        .cloned()
        .collect();
    assert_eq!(red_before, red_after);
}

#[test]
fn update_with_unserializable_text_is_rejected() {
    // A NUL character can never appear in well-formed XML text, so the
    // rebuilt fragment fails to re-parse and the update is rejected with
    // the previous geometry left authoritative.
    let mut s = use_svg(DOC).unwrap();
    let before = s.export();
    assert_eq!(s.update_text("B", "\u{0}"), Err(UpdateError::MalformedFragment));
    let after = s.export();
    assert_eq!(before.vertices, after.vertices);
    assert_eq!(before.indices, after.indices);
}

#[test]
fn adjacent_fragments_with_one_id_merge() {
    let mut set = GeometrySet::new();
    assert!(set.append_fragment(&frag("A", 4, 0)));
    assert!(set.append_fragment(&frag("A", 6, 50)));
    assert_eq!(set.spans.len(), 1);
    assert_eq!(set.spans[0].v_start, 0);
    assert_eq!(set.spans[0].v_end, 10);
}

#[test]
fn late_registration_wins() {
    let mut set = GeometrySet::new();
    assert!(set.append_fragment(&frag("A", 4, 0)));
    assert!(set.append_fragment(&frag("B", 4, 50)));
    assert!(set.append_fragment(&frag("A", 4, 90)));
    // The earlier run under "A" is unregistered; replacing "A" touches
    // the latest run only.
    let replacement = Triangles { vertices: vec![v(7, 1)], indices: vec![] };
    set.replace("A", &replacement).unwrap();
    assert_eq!(set.dyn_vertices.len(), 9);
    assert_eq!(set.dyn_vertices[8], v(7, 1));
    assert_eq!(set.dyn_vertices[0], v(0, 1));
}
