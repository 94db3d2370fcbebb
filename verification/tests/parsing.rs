use svg_gui::document::{parse_int, parse_opacity, parse_outline, parse_solid, tokenize};
use svg_gui::svg_set::use_svg;
use svg_gui::tessellate::Point;
use svg_gui::xml::{XmlNode, xml_to_string};

#[test]
fn integer_tokens() {
    assert_eq!(parse_int("0"), Some(0));
    assert_eq!(parse_int("123"), Some(123));
    assert_eq!(parse_int("-45"), Some(-45));
    assert_eq!(parse_int(""), None);
    assert_eq!(parse_int("-"), None);
    assert_eq!(parse_int("1.5"), None);
    assert_eq!(parse_int("12a"), None);
    // The magnitude saturates at the i64 range.
    assert_eq!(parse_int("99999999999999999999999"), Some(i64::MAX));
    assert_eq!(parse_int("-99999999999999999999999"), Some(-i64::MAX));
}

#[test]
fn token_splitting() {
    let toks = tokenize("M 0 0, L 10\t20");
    let toks: Vec<&str> = toks.iter().map(|t| t.as_str()).collect();
    assert_eq!(toks, vec!["M", "0", "0", "L", "10", "20"]);
    assert!(tokenize("   ").is_empty());
}

#[test]
fn outline_parsing() {
    let (pts, closed) = parse_outline("M 0 0 L 10 0 L 10 10 Z");
    assert_eq!(pts, vec![
        Point { x: 0, y: 0 },
        Point { x: 10, y: 0 },
        Point { x: 10, y: 10 },
    ]);
    assert!(closed);
    let (pts, closed) = parse_outline("M 0 0 L 5 5");
    assert_eq!(pts.len(), 2);
    assert!(!closed);
    // A dangling coordinate or an unsupported command degenerates.
    assert_eq!(parse_outline("M 0 0 L 5").0.len(), 0);
    assert_eq!(parse_outline("M 0 0 C 1 2 3 4 5 6").0.len(), 0);
}

#[test]
fn solid_colors() {
    assert_eq!(parse_solid("#ff0080"), Some((255, 0, 128)));
    assert_eq!(parse_solid("#FF0080"), Some((255, 0, 128)));
    assert_eq!(parse_solid("#ff008"), None);
    assert_eq!(parse_solid("red"), None);
}

#[test]
fn opacity_values() {
    assert_eq!(parse_opacity("1"), 255);
    assert_eq!(parse_opacity("0"), 0);
    // 0.5 is fifty hundredths: 50 * 255 / 100, rounded down.
    assert_eq!(parse_opacity("0.5"), 127);
    assert_eq!(parse_opacity("0.25"), 63);
    assert_eq!(parse_opacity("junk"), 255);
}

#[test]
fn serializer_escapes_and_nests() {
    let child = XmlNode {
        tag: String::from("path"),
        attrs: vec![(String::from("d"), String::from("M 0 0"))],
        text: String::new(),
        children: vec![],
    };
    let doc = XmlNode {
        tag: String::from("svg"),
        attrs: vec![(String::from("id"), String::from("a&b"))],
        text: String::from("x<y"),
        children: vec![child],
    };
    let s = xml_to_string(&doc);
    assert_eq!(
        s,
        "<svg id=\"a&amp;b\">x&lt;y<path d=\"M 0 0\"></path></svg>"
    );
}

#[test]
fn serialized_documents_reload() {
    // Text produced by the serializer loads back into an equivalent
    // scene: the loaded geometry of the escaped id is addressable.
    let mut s =
        use_svg("<svg><text id=\"a&amp;b\" x=\"0\" y=\"0\">hi</text></svg>").unwrap();
    assert!(s.update_text("a&b", "ho").is_ok());
}
