use svg_gui::svg_set::use_svg;

const DOC: &str = "<svg id=\"root\"><g id=\"A dynamic\"><path d=\"M 0 0 L 10 0 L 10 10 Z\" fill=\"#ff0000\"/></g><text id=\"B\" x=\"5\" y=\"6\">hi</text><path id=\"C\" d=\"M 0 0 L 1 0 L 1 1 Z\" fill=\"#00ff00\"/></svg>";

#[test]
fn scenario_sibling_slots() {
    // Three shapes tagged `id="A dynamic"`, `id="B"`, `id="C"`: A's subtree
    // mints slot 2, while B and C, siblings of A, inherit the base slot 1.
    let s = use_svg(DOC).unwrap();
    let combined = s.export();
    let a_verts: Vec<_> = combined
        .vertices
        .iter()
        .filter(|v| v.color.r == 255 && v.color.g == 0)
        .collect();
    assert!(!a_verts.is_empty());
    assert!(a_verts.iter().all(|v| v.transform_id == 2));
    let c_verts: Vec<_> = combined
        .vertices
        .iter()
        .filter(|v| v.color.g == 255 && v.color.r == 0)
        .collect();
    assert!(!c_verts.is_empty());
    assert!(c_verts.iter().all(|v| v.transform_id == 1));
    assert_eq!(s.transform_slot_count(), 2);
}

#[test]
fn exported_indices_are_valid() {
    let s = use_svg(DOC).unwrap();
    let t = s.export();
    assert_eq!(t.indices.len() % 3, 0);
    let n = t.vertices.len();
    assert!(t.indices.iter().all(|&j| j < n));
}

#[test]
fn slot_determinism_across_builds() {
    let s1 = use_svg(DOC).unwrap();
    let s2 = use_svg(DOC).unwrap();
    assert_eq!(s1.transform_slot_count(), s2.transform_slot_count());
    let t1 = s1.export();
    let t2 = s2.export();
    assert_eq!(t1.vertices, t2.vertices);
    assert_eq!(t1.indices, t2.indices);
}

#[test]
fn registered_ranges_are_disjoint() {
    let s = use_svg(DOC).unwrap();
    let spans = &s.geometry_set.spans;
    for a in 0..spans.len() {
        for b in 0..spans.len() {
            if a != b && !spans[a].id.is_empty() && !spans[b].id.is_empty() {
                let sa = &spans[a];
                let sb = &spans[b];
                assert!(sa.v_end <= sb.v_start || sb.v_end <= sa.v_start);
                assert!(sa.i_end <= sb.i_start || sb.i_end <= sa.i_start);
            }
        }
    }
}

#[test]
fn bounding_box_covers_content() {
    let s = use_svg(DOC).unwrap();
    let bbox = s.bounding_box();
    let t = s.export();
    for v in &t.vertices {
        assert!(bbox.min_x <= v.x && v.x <= bbox.max_x);
        assert!(bbox.min_y <= v.y && v.y <= bbox.max_y);
    }
}

#[test]
fn empty_document_builds_empty() {
    let s = use_svg("<svg/>").unwrap();
    let t = s.export();
    assert_eq!(t.vertices.len(), 0);
    assert_eq!(t.indices.len(), 0);
    assert_eq!(s.transform_slot_count(), 1);
}

#[test]
fn malformed_document_is_rejected() {
    assert!(use_svg("<svg><unclosed></svg>").is_none());
    assert!(use_svg("not xml at all").is_none());
}

#[test]
fn unsupported_path_commands_degenerate() {
    // A curve command is not part of the integer path model: the outline
    // degenerates to empty, which is not an error.
    let s = use_svg("<svg><path id=\"q\" d=\"M 0 0 C 1 2 3 4 5 6\" fill=\"#0000ff\"/></svg>")
        .unwrap();
    assert_eq!(s.export().vertices.len(), 0);
}

#[test]
fn get_combined_geometries_matches_export() {
    let s = use_svg(DOC).unwrap();
    let g = s.get_combined_geometries();
    let t = s.export();
    assert_eq!(g.triangles.vertices, t.vertices);
    assert_eq!(g.triangles.indices, t.indices);
}
