use rlibxml::css::CssSelector;

#[test]
fn test_bare_tag_fastpath() {
    let sel = CssSelector::compile("a").unwrap();
    assert_eq!(sel.as_xpath(), "//a");
}

#[test]
fn test_complex_selector() {
    let sel = CssSelector::compile("div#main.content > a[href^=\"https\"]").unwrap();
    let xpath = sel.as_xpath();
    assert!(xpath.starts_with("//div"));
    assert!(xpath.contains("@id='main'"));
    assert!(xpath.contains("content"));
    assert!(xpath.contains("/a"));
    assert!(xpath.contains("starts-with(@href, 'https')"));
}

#[test]
fn test_invalid_selector() {
    assert!(CssSelector::compile("").is_err());
    assert!(CssSelector::compile("[=]").is_err());
}

#[test]
fn mod_test_grouping() {
    let sel = CssSelector::compile("a, b, c").unwrap();
    assert_eq!(sel.as_xpath(), "//a | //b | //c");
}
