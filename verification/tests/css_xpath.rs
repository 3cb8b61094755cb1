use rlibxml::css::parser::parse_selector_list;
use rlibxml::css::xpath::compile_xpath;

fn xpath(css: &str) -> String {
    let list = parse_selector_list(css).expect("parse failed");
    compile_xpath(&list)
}

#[test]
fn xpath_test_bare_tag() {
    assert_eq!(xpath("a"), "//a");
}

#[test]
fn xpath_test_universal() {
    assert_eq!(xpath("*"), "//node()");
}

#[test]
fn test_id() {
    assert_eq!(xpath("#foo"), "//*[@id='foo']");
}

#[test]
fn test_class() {
    assert_eq!(
        xpath(".bar"),
        "//*[contains(concat(' ', normalize-space(@class), ' '), ' bar ')]"
    );
}

#[test]
fn xpath_test_tag_with_id_and_class() {
    let result = xpath("div#main.content");
    assert!(result.contains("//div"));
    assert!(result.contains("@id='main'"));
    assert!(result.contains("' content '"));
    // Order of predicates is: id first, then classes, then attrs, then pseudo-classes
    assert!(result.find("@id").unwrap() < result.find("contains").unwrap());
}

#[test]
fn xpath_test_descendant() {
    assert_eq!(xpath("div a"), "//div//a");
}

#[test]
fn xpath_test_child() {
    assert_eq!(xpath("div > a"), "//div/a");
}

#[test]
fn xpath_test_adjacent() {
    assert_eq!(xpath("h1 + p"), "//h1/following-sibling::*[1]/self::p");
}

#[test]
fn xpath_test_sibling() {
    assert_eq!(xpath("h1 ~ p"), "//h1/following-sibling::p");
}

#[test]
fn xpath_test_attr_present() {
    assert_eq!(xpath("a[href]"), "//a[@href]");
}

#[test]
fn xpath_test_attr_exact() {
    assert_eq!(xpath("a[href=\"/foo\"]"), "//a[@href='/foo']");
}

#[test]
fn xpath_test_attr_prefix() {
    assert_eq!(xpath("a[href^=\"https\"]"), "//a[starts-with(@href, 'https')]");
}

#[test]
fn xpath_test_attr_suffix() {
    let result = xpath("a[href$=\".pdf\"]");
    assert!(result.contains("substring(@href,"));
    assert!(result.contains(") = '.pdf'"));
}

#[test]
fn xpath_test_attr_substring() {
    assert_eq!(xpath("a[href*=\"example\"]"), "//a[contains(@href, 'example')]");
}

#[test]
fn xpath_test_pseudo_first_child() {
    assert_eq!(xpath("li:first-child"), "//li[position() = 1]");
}

#[test]
fn xpath_test_pseudo_last_child() {
    assert_eq!(xpath("li:last-child"), "//li[position() = last()]");
}

#[test]
fn test_pseudo_only_child() {
    assert_eq!(xpath("li:only-child"), "//li[count(../*) = 1]");
}

#[test]
fn xpath_test_pseudo_not() {
    let result = xpath("a:not(.external)");
    assert!(result.contains("//a[not("));
    assert!(result.contains("contains"));
    assert!(result.contains(" external "));
}

#[test]
fn xpath_test_nth_child_odd() {
    let result = xpath("li:nth-child(odd)");
    assert!(result.contains("count(preceding-sibling::*) + 1"));
    assert!(result.contains("mod 2"));
}

#[test]
fn test_nth_child_formula() {
    let result = xpath("li:nth-child(2n+1)");
    assert!(result.contains("count(preceding-sibling::*) + 1"));
    assert!(result.contains("mod 2 = 0"));
}

#[test]
fn xpath_test_complex() {
    let result = xpath("div.content > a[href^=\"https\"]:first-child");
    assert!(result.starts_with("//div"));
    assert!(result.contains("contains"));
    assert!(result.contains("/a"));
    assert!(result.contains("starts-with(@href, 'https')"));
    assert!(result.contains("position() = 1"));
}

#[test]
fn xpath_test_grouping() {
    let result = xpath("a, b, c");
    assert_eq!(result, "//a | //b | //c");
}

#[test]
fn test_string_with_single_quote() {
    let result = xpath("a[title=\"it's\"]");
    assert!(result.contains("concat("));
    assert!(result.contains("\"'\""));
}

#[test]
fn not_compiles_to_self_test() {
    assert_eq!(
        xpath("a:not(.external)"),
        "//a[not((contains(concat(' ', normalize-space(@class), ' '), ' external ')))]"
    );
}

#[test]
fn is_compiles_to_predicate_on_own_step() {
    assert_eq!(xpath("p:is(div a, span)"), "//p[self::a[ancestor::div] or self::span]");
}

#[test]
fn negative_coefficient_bounds_from_above() {
    assert_eq!(
        xpath("li:nth-child(-n+3)"),
        "//li[count(preceding-sibling::*) + 1 <= 3 and (count(preceding-sibling::*) + 1 - 3) mod 1 = 0]"
    );
}

#[test]
fn has_compiles_to_descendant_paths() {
    assert_eq!(xpath("div:has(p, em span)"), "//div[.//p or .//em//span]");
}

#[test]
fn not_positional_stays_on_the_element() {
    assert_eq!(xpath("li:not(:first-child)"), "//li[not((position() = 1))]");
    assert_eq!(xpath("p:not(div)"), "//p[not(self::div)]");
}

#[test]
fn one_selector_compiles_to_its_path() {
    let list = parse_selector_list("div > a + p ~ span em").unwrap();
    assert_eq!(
        rlibxml::css::xpath::compile_selector_exec(&list.selectors[0]),
        "//div/a/following-sibling::*[1]/self::p/following-sibling::span//em"
    );
}
