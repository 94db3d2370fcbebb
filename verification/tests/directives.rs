use svg_gui::tags::{RegexPatterns, UpdateClass, combine_class, default_directives,
    matches_directive, own_class, str_eq};

#[test]
fn directive_token_forms() {
    assert!(matches_directive("A dynamic", "dynamic"));
    assert!(matches_directive("#dynamic", "dynamic"));
    assert!(matches_directive("label #dynamic#x", "dynamic"));
    assert!(matches_directive("dynamic", "dynamic"));
    assert!(!matches_directive("dynamicText", "dynamic"));
    assert!(!matches_directive("instruction #dynamicText", "dynamic"));
    assert!(matches_directive("instruction #dynamicText", "dynamicText"));
    assert!(!matches_directive("", "dynamic"));
    assert!(!matches_directive("mydynamic", "dynamic"));
}

#[test]
fn default_directive_patterns() {
    let d = default_directives();
    assert_eq!(d.inner.len(), 3);
    assert_eq!(d.inner[0].regex_pattern, "clickable");
    assert_eq!(d.inner[0].index, 0);
    assert_eq!(d.inner[1].regex_pattern, "dynamic");
    assert_eq!(d.inner[1].index, 1);
    assert_eq!(d.inner[2].regex_pattern, "dynamicText");
    assert_eq!(d.inner[2].index, 2);
}

#[test]
fn regex_patterns_add_assigns_indices() {
    let mut p = RegexPatterns::new();
    let a = p.add("first");
    let b = p.add("second");
    assert_eq!(a.index, 0);
    assert_eq!(b.index, 1);
    assert_eq!(p.inner.len(), 2);
    assert_eq!(p.inner[1].regex_pattern, "second");
}

#[test]
fn class_combination_is_monotone_max() {
    assert_eq!(
        combine_class(UpdateClass::Static, UpdateClass::Static),
        UpdateClass::Static
    );
    assert_eq!(
        combine_class(UpdateClass::Static, UpdateClass::Dynamic),
        UpdateClass::Dynamic
    );
    assert_eq!(
        combine_class(UpdateClass::Dynamic, UpdateClass::Static),
        UpdateClass::Dynamic
    );
    assert_eq!(
        combine_class(UpdateClass::Dynamic, UpdateClass::Dynamic),
        UpdateClass::Dynamic
    );
}

#[test]
fn own_class_from_id() {
    assert_eq!(own_class("plain"), UpdateClass::Dynamic);
    assert_eq!(own_class("label #dynamicText"), UpdateClass::Static);
    assert_eq!(own_class("label #dynamic"), UpdateClass::Dynamic);
}

#[test]
fn str_eq_compares_content() {
    assert!(str_eq("abc", "abc"));
    assert!(!str_eq("abc", "abd"));
    assert!(!str_eq("abc", "ab"));
    assert!(str_eq("", ""));
}
