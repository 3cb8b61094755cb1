//! CSS selector engine.
//!
//! Parses CSS selector strings and compiles them into XPath 1.0 expressions
//! for evaluation by an XPath engine.
//!
//! ## Supported selectors
//!
//! | Syntax | Example | Notes |
//! |--------|---------|-------|
//! | Tag name | `a`, `div` | Also universal `*` |
//! | ID | `#my-id` | |
//! | Class | `.my-class` | Multiple: `.a.b` |
//! | Descendant | `main a` | Whitespace combinator |
//! | Child | `main > a` | Direct child only |
//! | Adjacent sibling | `h1 + p` | Immediately following |
//! | General sibling | `h1 ~ p` | All following |
//! | Attribute present | `a[href]` | |
//! | Attribute exact | `a[href="/url"]` | |
//! | Attribute prefix | `a[href^="https"]` | |
//! | Attribute suffix | `a[href$=".pdf"]` | |
//! | Attribute substring | `a[href*="example"]` | |
//! | Attribute word | `a[class~="foo"]` | Whitespace-separated |
//! | Attribute dash | `a[hreflang\|="en"]` | Hyphen-separated prefix |
//! | `:first-child`, `:last-child`, `:only-child` | `li:first-child` | |
//! | `:first-of-type`, `:last-of-type`, `:only-of-type` | `li:first-of-type` | |
//! | `:empty`, `:root` | `div:empty` | |
//! | `:nth-child(an+b)` and relatives | `li:nth-child(2n+1)` | odd/even/an+b |
//! | `:not(sel)` | `a:not(.external)` | Negation |
//! | `:lang(en)` | `p:lang(en)` | |
//! | `:is(sel, ...)` | `p:is(.a, div .b)` | Any alternative matches the element |
//! | `:has(sel, ...)` | `div:has(p)` | A descendant matches an alternative; combinators inside are read as descendant |
//! | Grouping | `a, b, c` | Comma-separated union |
pub mod ast;
pub mod fast;
pub mod literal;
pub mod nth;
pub mod parser;
pub mod syntax;
pub mod text;
pub mod tokenizer;
pub mod xpath;
pub mod xpath_model;
pub mod xpath_spec;

use vstd::prelude::*;

use self::ast::SpecParseError;
use self::fast::{fast_path, fast_path_compile, lemma_fast_path};
pub use self::parser::{parse_selector_list, ParseError, SelectorList};
use self::syntax::spec_parse;
use self::xpath::{compile_xpath, part_step_some};
use self::xpath_spec::{compile_list, list_compiles};

verus! {

/// The error for a selector list that parses but holds an `:is()` without
/// any selector inside, which has no XPath form.
pub open spec fn empty_is_error() -> SpecParseError {
    SpecParseError { message: ":is() holds no selector"@, position: 0 }
}

/// What compiling CSS selector text gives: the XPath expression of its
/// selector list, the parse error, or [`empty_is_error`] for a list with an
/// `:is()` that holds no selector.
pub open spec fn spec_compile(css: Seq<char>) -> Result<Seq<char>, SpecParseError> {
    match spec_parse(css) {
        Ok(list) => if list_compiles(list) {
            Ok(compile_list(list))
        } else {
            Err(empty_is_error())
        },
        Err(e) => Err(e),
    }
}

/// A compiled CSS selector, backed by its XPath 1.0 expression.
pub struct CssSelector {
    /// The CSS selector text
    css: String,
    /// Compiled XPath 1.0 expression
    xpath: String,
}

impl Clone for CssSelector {
    fn clone(&self) -> (r: Self)
        ensures
            r@ == self@,
    {
        CssSelector { css: self.css.clone(), xpath: self.xpath.clone() }
    }
}

impl View for CssSelector {
    /// The selector text and its XPath expression.
    type V = (Seq<char>, Seq<char>);

    closed spec fn view(&self) -> (Seq<char>, Seq<char>) {
        (self.css@, self.xpath@)
    }
}

impl CssSelector {
    /// Parse and compile a CSS selector string into an XPath expression.
    ///
    /// Returns an error if the CSS selector is malformed.
    pub fn compile(css: &str) -> (r: Result<Self, ParseError>)
        ensures
            match r {
                Ok(sel) => spec_compile(css@) == Ok::<Seq<char>, SpecParseError>(sel@.1) && sel@.0
                    == css@,
                Err(e) => spec_compile(css@) == Err::<Seq<char>, SpecParseError>(e@),
            },
    {
        // Fast-path for common selectors — avoids parser overhead
        if let Some(xpath) = fast_path_compile(css) {
            proof {
                lemma_fast_path(css@);
            }
            return Ok(CssSelector { css: String::from_str(css), xpath });
        }
        let list = match parse_selector_list(css) {
            Ok(l) => l,
            Err(e) => {
                return Err(e);
            },
        };
        if !list_compiles_exec(&list) {
            let e = ParseError { message: String::from_str(":is() holds no selector"), position: 0 };
            return Err(e);
        }
        let xpath = compile_xpath(&list);
        Ok(CssSelector { css: String::from_str(css), xpath })
    }

    /// The CSS selector text it was compiled from.
    pub fn css(&self) -> (r: &str)
        ensures
            r@ == self@.0,
    {
        self.css.as_str()
    }

    /// The compiled XPath 1.0 expression.
    pub fn as_xpath(&self) -> (r: &str)
        ensures
            r@ == self@.1,
    {
        self.xpath.as_str()
    }

    /// The selector as text: its XPath expression.
    pub fn describe(&self) -> (r: String)
        ensures
            r@ == self@.1,
    {
        self.xpath.clone()
    }
}

/// Whether every part of every selector of the list has an XPath step.
pub fn list_compiles_exec(list: &SelectorList) -> (r: bool)
    ensures
        r == list_compiles(list@),
{
    let mut i: usize = 0;
    while i < list.selectors.len()
        invariant
            i <= list.selectors.len(),
            forall|k: int|
                0 <= k < i ==> xpath_spec::selector_compiles(#[trigger] list@.selectors[k]),
        decreases list.selectors.len() - i,
    {
        let sel = &list.selectors[i];
        assert(list@.selectors[i as int] == sel@);
        let mut j: usize = 0;
        while j < sel.parts.len()
            invariant
                j <= sel.parts.len(),
                i < list.selectors.len(),
                list@.selectors[i as int] == sel@,
                forall|k: int|
                    0 <= k < j ==> (#[trigger] xpath_spec::part_step(sel@.parts[k].1)) is Some,
            decreases sel.parts.len() - j,
        {
            assert(sel@.parts[j as int].1 == sel.parts@[j as int].1@);
            if !part_step_some(&sel.parts[j].1) {
                assert(!xpath_spec::selector_compiles(list@.selectors[i as int]));
                return false;
            }
            j += 1;
        }
        i += 1;
    }
    true
}

} // verus!
