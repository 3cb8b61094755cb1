use rlibxml::css::parser::{parse_selector_list, AttrOp, Combinator, PseudoClass, SelectorList};

fn parse(input: &str) -> SelectorList {
    parse_selector_list(input)
        .unwrap_or_else(|e| panic!("failed to parse '{}': {}", input, e.describe()))
}

#[test]
fn parser_test_bare_tag() {
    let list = parse("a");
    let sel = &list.selectors[0];
    assert_eq!(sel.parts.len(), 1);
    assert_eq!(sel.parts[0].0, Combinator::Start);
    assert_eq!(sel.parts[0].1.tag, Some("a".into()));
    assert!(sel.parts[0].1.is_bare_tag());
}

#[test]
fn test_id_selector() {
    let list = parse("#foo");
    let cs = &list.selectors[0].parts[0].1;
    assert_eq!(cs.id, Some("foo".into()));
}

#[test]
fn test_class_selector() {
    let list = parse(".bar");
    let cs = &list.selectors[0].parts[0].1;
    assert_eq!(cs.classes, vec!["bar"]);
}

#[test]
fn test_multiple_classes() {
    let list = parse(".foo.bar");
    let cs = &list.selectors[0].parts[0].1;
    assert_eq!(cs.classes, vec!["foo", "bar"]);
}

#[test]
fn parser_test_tag_with_id_and_class() {
    let list = parse("div#main.content");
    let cs = &list.selectors[0].parts[0].1;
    assert_eq!(cs.tag, Some("div".into()));
    assert_eq!(cs.id, Some("main".into()));
    assert_eq!(cs.classes, vec!["content"]);
}

#[test]
fn parser_test_descendant() {
    let list = parse("div a");
    let sel = &list.selectors[0];
    assert_eq!(sel.parts.len(), 2);
    assert_eq!(sel.parts[1].0, Combinator::Descendant);
}

#[test]
fn parser_test_child() {
    let list = parse("div > a");
    let sel = &list.selectors[0];
    assert_eq!(sel.parts[1].0, Combinator::Child);
}

#[test]
fn parser_test_adjacent() {
    let list = parse("h1 + p");
    assert_eq!(list.selectors[0].parts[1].0, Combinator::Adjacent);
}

#[test]
fn parser_test_sibling() {
    let list = parse("h1 ~ p");
    assert_eq!(list.selectors[0].parts[1].0, Combinator::Sibling);
}

#[test]
fn parser_test_attr_present() {
    let list = parse("a[href]");
    let cs = &list.selectors[0].parts[0].1;
    assert_eq!(cs.attrs[0].name, "href");
    assert_eq!(cs.attrs[0].op, AttrOp::Present);
}

#[test]
fn parser_test_attr_exact() {
    let list = parse("a[href=\"/foo\"]");
    let cs = &list.selectors[0].parts[0].1;
    assert_eq!(cs.attrs[0].op, AttrOp::Exact);
    assert_eq!(cs.attrs[0].value, "/foo");
}

#[test]
fn parser_test_attr_prefix() {
    let list = parse("a[href^=\"https\"]");
    let cs = &list.selectors[0].parts[0].1;
    assert_eq!(cs.attrs[0].op, AttrOp::Prefix);
    assert_eq!(cs.attrs[0].value, "https");
}

#[test]
fn parser_test_attr_suffix() {
    let list = parse("a[href$=\".pdf\"]");
    let cs = &list.selectors[0].parts[0].1;
    assert_eq!(cs.attrs[0].op, AttrOp::Suffix);
    assert_eq!(cs.attrs[0].value, ".pdf");
}

#[test]
fn parser_test_attr_substring() {
    let list = parse("a[href*=\"example\"]");
    let cs = &list.selectors[0].parts[0].1;
    assert_eq!(cs.attrs[0].op, AttrOp::Substring);
    assert_eq!(cs.attrs[0].value, "example");
}

#[test]
fn parser_test_pseudo_first_child() {
    let list = parse("li:first-child");
    let cs = &list.selectors[0].parts[0].1;
    assert_eq!(cs.pseudo_classes, vec![PseudoClass::FirstChild]);
}

#[test]
fn parser_test_pseudo_last_child() {
    let list = parse("li:last-child");
    let cs = &list.selectors[0].parts[0].1;
    assert_eq!(cs.pseudo_classes, vec![PseudoClass::LastChild]);
}

#[test]
fn parser_test_pseudo_not() {
    let list = parse("a:not(.external)");
    let cs = &list.selectors[0].parts[0].1;
    match &cs.pseudo_classes[0] {
        PseudoClass::Not(inner) => assert_eq!(inner.classes, vec!["external"]),
        _ => panic!("expected Not"),
    }
}

#[test]
fn parser_test_nth_child() {
    let list = parse("li:nth-child(2n+1)");
    let cs = &list.selectors[0].parts[0].1;
    assert_eq!(cs.pseudo_classes, vec![PseudoClass::NthChild { a: 2, b: 1 }]);
}

#[test]
fn parser_test_nth_child_odd() {
    let list = parse("li:nth-child(odd)");
    let cs = &list.selectors[0].parts[0].1;
    assert_eq!(cs.pseudo_classes, vec![PseudoClass::NthChild { a: 2, b: 1 }]);
}

#[test]
fn parser_test_complex() {
    let list = parse("div.content > a[href^=\"https\"][target=\"_blank\"]:first-child");
    let sel = &list.selectors[0];
    assert_eq!(sel.parts.len(), 2);
    assert_eq!(sel.parts[1].0, Combinator::Child);
    let cs = &sel.parts[1].1;
    assert_eq!(cs.tag, Some("a".into()));
    assert_eq!(cs.attrs.len(), 2);
    assert_eq!(cs.pseudo_classes.len(), 1);
}

#[test]
fn parser_test_grouping() {
    let list = parse("a, b, c");
    assert_eq!(list.selectors.len(), 3);
}

#[test]
fn test_empty() {
    assert!(parse_selector_list("").is_err());
    assert!(parse_selector_list("   ").is_err());
}

#[test]
fn parser_test_universal() {
    let list = parse("*");
    let cs = &list.selectors[0].parts[0].1;
    assert_eq!(cs.tag, None);
}

#[test]
fn attribute_present_then_descendant_parses_two_parts() {
    let list = parse("a[href] b");
    assert_eq!(list.selectors.len(), 1);
    let parts = &list.selectors[0].parts;
    assert_eq!(parts.len(), 2);
    assert_eq!(parts[0].1.tag.as_deref(), Some("a"));
    assert_eq!(parts[0].1.attrs.len(), 1);
    assert_eq!(parts[1].0, Combinator::Descendant);
    assert_eq!(parts[1].1.tag.as_deref(), Some("b"));
}

#[test]
fn nth_child_negative_offset_values() {
    let list = parse("li:nth-child(2n-1)");
    let cs = &list.selectors[0].parts[0].1;
    assert_eq!(cs.pseudo_classes, vec![PseudoClass::NthChild { a: 2, b: -1 }]);
    let list = parse("li:nth-child(-n+3)");
    let cs = &list.selectors[0].parts[0].1;
    assert_eq!(cs.pseudo_classes, vec![PseudoClass::NthChild { a: -1, b: 3 }]);
}

#[test]
fn nth_with_unsigned_text_after_n_is_ignored() {
    let list = parse("li:nth-child(2n5)");
    let cs = &list.selectors[0].parts[0].1;
    assert_eq!(cs.pseudo_classes, vec![PseudoClass::NthChild { a: 0, b: 0 }]);
}

#[test]
fn nth_with_repeated_n_keeps_coefficient() {
    let list = parse("li:nth-child(2nn)");
    let cs = &list.selectors[0].parts[0].1;
    assert_eq!(cs.pseudo_classes, vec![PseudoClass::NthChild { a: 2, b: 0 }]);
}
