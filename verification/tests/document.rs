use rlibxml::css::CssSelector;
use rlibxml::{HtmlDocument, XmlDocument};
#[test]
fn test_parse_and_select_bare_tag() {
    let html = r#"<html><body><a href="/1">A</a><a href="/2">B</a></body></html>"#;
    let doc = HtmlDocument::new(html).unwrap();
    let sel = doc.select("a");
    assert_eq!(sel.len(), 2);
}

#[test]
fn test_select_descendant() {
    let html = r#"<html><body><div><a href="/1">A</a><p><a href="/2">B</a></p></div></body></html>"#;
    let doc = HtmlDocument::new(html).unwrap();
    let sel = doc.select("div a");
    assert_eq!(sel.len(), 2);
}

#[test]
fn test_select_child() {
    let html = r#"<html><body><div><a href="/1">A</a><p><a href="/2">B</a></p></div></body></html>"#;
    let doc = HtmlDocument::new(html).unwrap();
    let sel = doc.select("div > a");
    assert_eq!(sel.len(), 1);
}

#[test]
fn test_select_id() {
    let html = r#"<html><body><a id="link1">A</a><a id="link2">B</a></body></html>"#;
    let doc = HtmlDocument::new(html).unwrap();
    let sel = doc.select("#link1");
    assert_eq!(sel.len(), 1);
    let node = sel.iter().next().unwrap();
    assert_eq!(node.text_content().as_deref(), Some("A"));
}

#[test]
fn test_select_class() {
    let html = r#"<html><body><a class="ext">A</a><a class="int ext">B</a><a class="int">C</a></body></html>"#;
    let doc = HtmlDocument::new(html).unwrap();
    let sel = doc.select(".ext");
    assert_eq!(sel.len(), 2);
}

#[test]
fn lib_test_attr_present() {
    let html = r#"<html><body><a>A</a><a href="/1">B</a></body></html>"#;
    let doc = HtmlDocument::new(html).unwrap();
    let sel = doc.select("a[href]");
    assert_eq!(sel.len(), 1);
}

#[test]
fn lib_test_attr_exact() {
    let html = r#"<html><body><a href="/target">A</a><a href="/other">B</a></body></html>"#;
    let doc = HtmlDocument::new(html).unwrap();
    let sel = doc.select("a[href=\"/target\"]");
    assert_eq!(sel.len(), 1);
}

#[test]
fn lib_test_attr_prefix() {
    let html = r#"<html><body><a href="https://a.com">A</a><a href="http://b.com">B</a></body></html>"#;
    let doc = HtmlDocument::new(html).unwrap();
    let sel = doc.select("a[href^=\"https\"]");
    assert_eq!(sel.len(), 1);
}

#[test]
fn lib_test_attr_suffix() {
    let html = r#"<html><body><a href="/a.pdf">A</a><a href="/b.html">B</a></body></html>"#;
    let doc = HtmlDocument::new(html).unwrap();
    let sel = doc.select("a[href$=\".pdf\"]");
    assert_eq!(sel.len(), 1);
}

#[test]
fn lib_test_attr_substring() {
    let html = r#"<html><body><a href="/foo/bar">A</a><a href="/baz">B</a></body></html>"#;
    let doc = HtmlDocument::new(html).unwrap();
    let sel = doc.select("a[href*=\"bar\"]");
    assert_eq!(sel.len(), 1);
}

#[test]
fn test_first_child() {
    let html = r#"<html><body><ul><li>A</li><li>B</li></ul></body></html>"#;
    let doc = HtmlDocument::new(html).unwrap();
    let sel = doc.select("li:first-child");
    assert_eq!(sel.len(), 1);
    let node = sel.iter().next().unwrap();
    assert_eq!(node.text_content().as_deref(), Some("A"));
}

#[test]
fn test_last_child() {
    let html = r#"<html><body><ul><li>A</li><li>B</li></ul></body></html>"#;
    let doc = HtmlDocument::new(html).unwrap();
    let sel = doc.select("li:last-child");
    assert_eq!(sel.len(), 1);
    let node = sel.iter().next().unwrap();
    assert_eq!(node.text_content().as_deref(), Some("B"));
}

#[test]
fn lib_test_nth_child() {
    let html = r#"<html><body><ul><li>A</li><li>B</li><li>C</li></ul></body></html>"#;
    let doc = HtmlDocument::new(html).unwrap();
    let sel = doc.select("li:nth-child(2)");
    assert_eq!(sel.len(), 1);
    let node = sel.iter().next().unwrap();
    assert_eq!(node.text_content().as_deref(), Some("B"));
}

#[test]
fn lib_test_grouping() {
    let html = r#"<html><body><p>A</p><a href="/1">B</a><p>C</p></body></html>"#;
    let doc = HtmlDocument::new(html).unwrap();
    let sel = doc.select("a, p");
    assert_eq!(sel.len(), 3);
}

#[test]
fn test_attributes() {
    let html = r#"<html><body><a href="/foo">Link</a></body></html>"#;
    let doc = HtmlDocument::new(html).unwrap();
    let sel = doc.select("a");
    let node = sel.iter().next().unwrap();
    assert_eq!(node.get_attribute("href").as_deref(), Some("/foo"));
    assert_eq!(node.get_attribute("nope"), None);
}

#[test]
fn test_text_content() {
    let html = r#"<html><body><a><b>Hello</b> World</a></body></html>"#;
    let doc = HtmlDocument::new(html).unwrap();
    let sel = doc.select("a");
    let node = sel.iter().next().unwrap();
    assert_eq!(node.text_content().as_deref(), Some("Hello World"));
}

#[test]
fn test_inner_html() {
    let html = r#"<html><body><a><b>Hello</b> World</a></body></html>"#;
    let doc = HtmlDocument::new(html).unwrap();
    let sel = doc.select("a");
    let node = sel.iter().next().unwrap();
    let inner = node.inner_html();
    assert!(inner.contains("<b>Hello</b>"), "got: {inner}");
    assert!(inner.contains("World"), "got: {inner}");
}

#[test]
fn test_no_matches() {
    let html = r#"<html><body><p>Hi</p></body></html>"#;
    let doc = HtmlDocument::new(html).unwrap();
    let sel = doc.select("a");
    assert_eq!(sel.len(), 0);
    assert_eq!(sel.iter().count(), 0);
}

#[test]
fn test_select_compiled_reuse() {
    let sel = CssSelector::compile("a").unwrap();
    let html1 = r#"<html><body><a href="/1">A</a><a href="/2">B</a></body></html>"#;
    let html2 = r#"<html><body><a href="/3">C</a></body></html>"#;

    let doc1 = HtmlDocument::new(html1).unwrap();
    let result1 = doc1.select_compiled(&sel);
    assert_eq!(result1.len(), 2);

    let doc2 = HtmlDocument::new(html2).unwrap();
    let result2 = doc2.select_compiled(&sel);
    assert_eq!(result2.len(), 1);
}

#[test]
fn test_xml_document_parse_and_select() {
    let xml = r#"<root><item id="1">A</item><item id="2">B</item></root>"#;
    let doc = XmlDocument::from_string(xml).unwrap();
    let sel = doc.select("item");
    assert_eq!(sel.len(), 2);
}

#[test]
fn test_xml_document_xpath() {
    let xml = r#"<root><item id="1">A</item><item id="2">B</item></root>"#;
    let doc = XmlDocument::from_string(xml).unwrap();
    let sel = doc.xpath("//item[@id='1']");
    assert_eq!(sel.len(), 1);
    let node = sel.iter().next().unwrap();
    assert_eq!(node.text_content().as_deref(), Some("A"));
}

#[test]
fn test_xml_document_root() {
    let xml = r#"<root><child/></root>"#;
    let doc = XmlDocument::from_string(xml).unwrap();
    let root = doc.root().unwrap();
    assert_eq!(root.text_content().as_deref(), Some(""));
}

#[test]
fn test_xml_malformed() {
    // Not well-formed XML (missing closing tag)
    assert!(XmlDocument::from_string("<root><child>").is_none());
}

#[test]
fn try_select_reports_invalid_css() {
    let doc = HtmlDocument::new("<html></html>").unwrap();
    match doc.try_select("!!invalid!!") {
        Some(Err(e)) => assert!(!e.describe().is_empty()),
        _ => panic!("expected a parse error"),
    }
}

#[test]
fn try_select_matches_select() {
    let html = r#"<html><body><ul><li>A</li><li>B</li></ul></body></html>"#;
    let doc = HtmlDocument::new(html).unwrap();
    let sel = match doc.try_select("ul > li") {
        Some(Ok(sel)) => sel,
        _ => panic!("expected a selection"),
    };
    assert_eq!(sel.len(), 2);
    assert_eq!(doc.select("ul > li").len(), 2);
}

#[test]
fn try_select_empty_is_is_an_error() {
    let doc = HtmlDocument::new("<html><body><p>x</p></body></html>").unwrap();
    match doc.try_select("p:is()") {
        Some(Err(e)) => assert_eq!(e.describe(), "CSS parse error at position 0: :is() holds no selector"),
        _ => panic!("expected an error"),
    }
    assert!(CssSelector::compile("p:is()").is_err());
}

#[test]
fn try_select_nul_in_value_is_refused() {
    let doc = XmlDocument::from_string("<root a='x'/>").unwrap();
    assert!(doc.try_select("root[a=\"\0\"]").is_none());
}

#[test]
fn compiled_and_text_selection_agree() {
    let html = r#"<html><body><a class="x">1</a><a>2</a><a class="x y">3</a></body></html>"#;
    let doc = HtmlDocument::new(html).unwrap();
    let sel = CssSelector::compile("a.x").unwrap();
    assert_eq!(doc.select_compiled(&sel).len(), doc.select("a.x").len());
    assert_eq!(doc.xpath(sel.as_xpath()).len(), 2);
}

#[test]
fn iteration_visits_every_match_in_order() {
    let html = r#"<html><body><ul><li>A</li><li>B</li><li>C</li></ul></body></html>"#;
    let doc = HtmlDocument::new(html).unwrap();
    let sel = doc.select("li");
    assert!(!sel.is_empty());
    assert_eq!(sel.iter().count(), sel.len());
    let mut it = sel.iter();
    let mut seen = Vec::new();
    while let Some(n) = it.next() {
        seen.push(n.text_content().unwrap());
    }
    assert_eq!(seen, vec!["A".to_string(), "B".to_string(), "C".to_string()]);
    assert!(it.next().is_none());
    assert_eq!(it.count(), 0);
}

#[test]
fn count_after_partial_walk() {
    let html = r#"<html><body><p>1</p><p>2</p><p>3</p></body></html>"#;
    let doc = HtmlDocument::new(html).unwrap();
    let sel = doc.select("p");
    let mut it = sel.iter();
    assert!(it.next().is_some());
    assert_eq!(it.count(), 2);
}

#[test]
fn attribute_name_with_nul_is_absent() {
    let doc = HtmlDocument::new(r#"<html><body><a href="/x">L</a></body></html>"#).unwrap();
    let sel = doc.select("a");
    let node = sel.iter().next().unwrap();
    assert_eq!(node.get_attribute("hr\0ef"), None);
    assert_eq!(node.get_attribute("href").as_deref(), Some("/x"));
}

#[test]
fn inner_html_of_leaf_is_empty() {
    let doc = XmlDocument::from_string("<root><leaf/></root>").unwrap();
    let sel = doc.xpath("//leaf");
    let node = sel.iter().next().unwrap();
    assert_eq!(node.inner_html(), "");
}

#[test]
fn inner_html_keeps_children_in_order() {
    let doc = XmlDocument::from_string("<root><a>1</a>text<b/></root>").unwrap();
    let root = doc.root().unwrap();
    assert_eq!(root.inner_html(), "<a>1</a>text<b/>");
}

#[test]
fn html_root_is_html_element() {
    let doc = HtmlDocument::new("<p>hi</p>").unwrap();
    let root = doc.root().unwrap();
    assert_eq!(root.text_content().as_deref(), Some("hi"));
}

#[test]
fn xml_select_with_css_child() {
    let xml = r#"<root><item><name>A</name></item><name>B</name></root>"#;
    let doc = XmlDocument::from_string(xml).unwrap();
    assert_eq!(doc.select("item > name").len(), 1);
    assert_eq!(doc.select("name").len(), 2);
}

#[test]
fn xpath_that_libxml_rejects_selects_nothing() {
    let doc = XmlDocument::from_string("<root/>").unwrap();
    let sel = doc.xpath("//[");
    assert_eq!(sel.len(), 0);
    assert!(sel.is_empty());
}

#[test]
fn attribute_then_descendant() {
    let html = r#"<html><body><a href="/1"><b>x</b></a><b>y</b></body></html>"#;
    let doc = HtmlDocument::new(html).unwrap();
    let sel = doc.select("a[href] b");
    assert_eq!(sel.len(), 1);
    assert_eq!(sel.iter().next().unwrap().text_content().as_deref(), Some("x"));
}

#[test]
fn attribute_then_element_named_i() {
    let html = r#"<html><body><a href="/1"><i>x</i></a><a><i>y</i></a></body></html>"#;
    let doc = HtmlDocument::new(html).unwrap();
    assert_eq!(doc.select("a[href] i").len(), 1);
}

#[test]
fn nth_child_with_negative_offset() {
    let html = r#"<html><body><ul><li>A</li><li>B</li><li>C</li><li>D</li></ul></body></html>"#;
    let doc = HtmlDocument::new(html).unwrap();
    let sel = doc.select("li:nth-child(2n-1)");
    let mut it = sel.iter();
    let mut seen = Vec::new();
    while let Some(n) = it.next() {
        seen.push(n.text_content().unwrap());
    }
    assert_eq!(seen, vec!["A".to_string(), "C".to_string()]);
}

#[test]
fn not_tests_the_element_itself() {
    let html = r#"<html><body><a class="external">1</a><a>2</a><a><span class="external">x</span>3</a></body></html>"#;
    let doc = HtmlDocument::new(html).unwrap();
    let sel = doc.select("a:not(.external)");
    assert_eq!(sel.len(), 2);
}

#[test]
fn is_keeps_own_tag_and_matches_alternatives() {
    let html = r#"<html><body><div><p class="x">1</p><span class="x">2</span></div><p>3</p><em class="x">4</em></body></html>"#;
    let doc = HtmlDocument::new(html).unwrap();
    let sel = doc.select(".x:is(p, span)");
    let mut seen = Vec::new();
    let mut it = sel.iter();
    while let Some(n) = it.next() {
        seen.push(n.text_content().unwrap());
    }
    assert_eq!(seen, vec!["1".to_string(), "2".to_string()]);
}

#[test]
fn is_alternative_chain_requires_ancestor() {
    let html = r#"<html><body><div><p>1</p></div><p>2</p></body></html>"#;
    let doc = HtmlDocument::new(html).unwrap();
    assert_eq!(doc.select("p:is(div p)").len(), 1);
}

#[test]
fn nth_child_negative_coefficient() {
    let html = r#"<html><body><ul><li>A</li><li>B</li><li>C</li><li>D</li></ul></body></html>"#;
    let doc = HtmlDocument::new(html).unwrap();
    let sel = doc.select("li:nth-child(-n+2)");
    let mut seen = Vec::new();
    let mut it = sel.iter();
    while let Some(n) = it.next() {
        seen.push(n.text_content().unwrap());
    }
    assert_eq!(seen, vec!["A".to_string(), "B".to_string()]);
}

#[test]
fn has_matches_elements_with_a_matching_descendant() {
    let html = r#"<html><body><div id="a"><p>x</p></div><div id="b"><span>y</span></div><div id="c"><em><p>z</p></em></div></body></html>"#;
    let doc = HtmlDocument::new(html).unwrap();
    let sel = doc.select("div:has(p)");
    let mut ids = Vec::new();
    let mut it = sel.iter();
    while let Some(n) = it.next() {
        ids.push(n.get_attribute("id").unwrap());
    }
    assert_eq!(ids, vec!["a".to_string(), "c".to_string()]);
}

#[test]
fn not_first_child_selects_later_children() {
    let html = r#"<html><body><ul><li>A</li><li>B</li><li>C</li></ul></body></html>"#;
    let doc = HtmlDocument::new(html).unwrap();
    let sel = doc.select("li:not(:first-child)");
    let mut seen = Vec::new();
    let mut it = sel.iter();
    while let Some(n) = it.next() {
        seen.push(n.text_content().unwrap());
    }
    assert_eq!(seen, vec!["B".to_string(), "C".to_string()]);
}

#[test]
fn size_hint_counts_what_is_left() {
    let html = r#"<html><body><p>1</p><p>2</p><p>3</p></body></html>"#;
    let doc = HtmlDocument::new(html).unwrap();
    let sel = doc.select("p");
    let mut it = sel.iter();
    assert_eq!(it.size_hint(), (3, Some(3)));
    it.next();
    assert_eq!(it.size_hint(), (2, Some(2)));
}

#[test]
fn xpath_namespace_nodes_stay_usable() {
    let doc = XmlDocument::from_string(r#"<r xmlns:x="urn:x"><a/></r>"#).unwrap();
    let sel = doc.xpath("//a/namespace::*");
    assert!(sel.len() >= 1);
    let mut it = sel.iter();
    while let Some(n) = it.next() {
        assert!(n.text_content().is_some());
    }
}

#[test]
fn malformed_html_root_and_empty_text() {
    assert!(HtmlDocument::new("").is_none());
}

#[test]
fn select_gives_the_nodes_of_its_compiled_xpath() {
    let html = r#"<html><body><div><p class="x">1</p><p>2</p></div><p class="x">3</p></body></html>"#;
    let doc = HtmlDocument::new(html).unwrap();
    let sel = CssSelector::compile("div > p, p.x").unwrap();
    let a = doc.select("div > p, p.x");
    let b = doc.xpath(sel.as_xpath());
    assert_eq!(a.len(), b.len());
    let (mut ia, mut ib) = (a.iter(), b.iter());
    while let Some(na) = ia.next() {
        let nb = ib.next().unwrap();
        assert_eq!(na.text_content(), nb.text_content());
        assert_eq!(na.inner_html(), nb.inner_html());
    }
    assert!(ib.next().is_none());
}

#[test]
fn unparsable_xpath_selects_nothing() {
    let doc = HtmlDocument::new("<html><body><p>x</p></body></html>").unwrap();
    let sel = doc.xpath("//(");
    assert_eq!(sel.len(), 0);
    assert!(sel.iter().next().is_none());
}
