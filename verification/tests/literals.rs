use rlibxml::css::CssSelector;

fn compiled(css: &str) -> String {
    CssSelector::compile(css).unwrap().as_xpath().to_string()
}

#[test]
fn plain_value_is_single_quoted() {
    assert_eq!(compiled("a[title=\"x y\"]"), "//a[@title='x y']");
}

#[test]
fn value_with_single_quote_becomes_concat() {
    assert_eq!(compiled("a[title=\"it's\"]"), "//a[@title=concat('it', \"'\", 's')]");
}

#[test]
fn value_of_only_a_quote_is_one_literal() {
    assert_eq!(compiled("a[title=\"'\"]"), "//a[@title=\"'\"]");
}

#[test]
fn quoted_value_selects_in_document() {
    let doc = rlibxml::XmlDocument::from_string(r#"<r><a title="it's">1</a><a title="its">2</a></r>"#).unwrap();
    let sel = doc.select("a[title=\"it's\"]");
    assert_eq!(sel.len(), 1);
    assert_eq!(sel.iter().next().unwrap().text_content().as_deref(), Some("1"));
}

#[test]
fn fast_path_escape_keeps_plain_text() {
    assert_eq!(rlibxml::css::fast::escape_xpath_str("abc"), "abc");
}

#[test]
fn mixed_quotes_keep_all_text() {
    assert_eq!(
        rlibxml::css::xpath::xpath_string_of("a'b\"c"),
        "concat('a', \"'\", 'b', '\"', 'c')"
    );
}

#[test]
fn mixed_quotes_select_in_document() {
    let doc = rlibxml::XmlDocument::from_string(r#"<r><a t="x'y&quot;z">1</a><a t="xy">2</a></r>"#).unwrap();
    let expr = format!("//a[@t={}]", rlibxml::css::xpath::xpath_string_of("x'y\"z"));
    let sel = doc.xpath(&expr);
    assert_eq!(sel.len(), 1);
    assert_eq!(sel.iter().next().unwrap().text_content().as_deref(), Some("1"));
}

#[test]
fn escape_for_single_quoted_literal_keeps_text() {
    assert_eq!(rlibxml::css::fast::escape_xpath_str("my-id_2"), "my-id_2");
}

#[test]
fn parse_error_text_names_position() {
    let e = CssSelector::compile("a[").err().unwrap();
    let text = e.describe();
    assert!(text.starts_with("CSS parse error at position "), "got: {text}");
}
