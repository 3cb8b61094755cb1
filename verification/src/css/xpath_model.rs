//! What the XPath predicates built for selectors mean.
//!
//! A small model of XPath 1.0: expressions of the forms the compiler emits,
//! their concrete syntax ([`render`]) and what they say of the element they
//! are tested on ([`holds`]). The laws here state, for each selector form,
//! that the compiled predicate is the text of an expression that holds of an
//! element exactly when the element is what the CSS selector asks for.
use vstd::prelude::*;

use super::ast::{SpecAttr, SpecPseudo};
use super::literal::{denotes, is_literal, lemma_xpath_string_denotes, literal_value};
use super::nth::{lemma_nth_selects_witness, nth_selects};
use super::parser::AttrOp;
use super::syntax::attr_op_of;
use super::text::{ascii_lower, int_text};
use super::tokenizer::{next_token, SpecToken};
use super::xpath_spec::{abs_wrap, class_pred, compile_attr, id_pred, join, nth_type_to_xpath, translate_lower, compile_pseudo_class, nth_bound, nth_to_xpath, xpath_string};

verus! {

/// A child node of an element, by kind.
pub enum ChildKind {
    Element(Seq<char>),
    Text,
    Comment,
    Instruction,
}

/// What an XPath predicate can see of the element it is tested on.
pub struct Element {
    /// Its attributes, by name.
    pub attrs: Map<Seq<char>, Seq<char>>,
    /// Its child nodes, in order.
    pub children: Seq<ChildKind>,
    /// Its position in the node list of the step (`position()`).
    pub position: int,
    /// The size of that node list (`last()`).
    pub last: int,
    /// Whether its parent is an element (it is not the document's root).
    pub has_parent_element: bool,
    /// How many element siblings come before it.
    pub preceding_elements: nat,
    /// How many element siblings come after it.
    pub following_elements: nat,
    /// How many element siblings of each name come before it.
    pub preceding_named: Map<Seq<char>, nat>,
    /// How many element siblings of each name come after it.
    pub following_named: Map<Seq<char>, nat>,
}

/// XPath expressions of the forms the compiler emits.
pub enum XExpr {
    /// A string expression (`text`) that stands for the string `value`.
    Str(Seq<char>, Seq<char>),
    /// A number.
    Num(int),
    /// `@name`: the named attribute.
    Attr(Seq<char>),
    /// `node()`: the child nodes of any kind.
    ChildNodes,
    /// `*`: the child elements.
    ChildElements,
    /// `parent::*`: the parent, if it is an element.
    ParentElement,
    /// `position()`.
    Position,
    /// `last()`.
    Last,
    /// `count(preceding-sibling::*)`.
    PrecedingCount,
    /// `count(following-sibling::*)`.
    FollowingCount,
    /// `count(../*)`: the element children of the parent.
    SiblingCount,
    /// `preceding-sibling::tag`.
    PrecedingNamed(Seq<char>),
    /// `following-sibling::tag`.
    FollowingNamed(Seq<char>),
    /// `count(preceding-sibling::tag)`.
    CountPrecedingNamed(Seq<char>),
    /// `count(following-sibling::tag)`.
    CountFollowingNamed(Seq<char>),
    /// `string-length(a)`.
    StringLength(Box<XExpr>),
    /// `normalize-space(a)`.
    NormalizeSpace(Box<XExpr>),
    /// `concat(a, b, c)`.
    Concat3(Box<XExpr>, Box<XExpr>, Box<XExpr>),
    /// `substring(a, start)`.
    SubstringFrom(Box<XExpr>, Box<XExpr>),
    /// `translate(a, 'ABCDEFGHIJKLMNOPQRSTUVWXYZ', 'abcdefghijklmnopqrstuvwxyz')`:
    /// `a` with its ASCII capitals lower-cased.
    LowerAscii(Box<XExpr>),
    /// `a + b`.
    Plus(Box<XExpr>, Box<XExpr>),
    /// `a - b`.
    Minus(Box<XExpr>, Box<XExpr>),
    /// `a mod b`.
    Mod(Box<XExpr>, Box<XExpr>),
    /// `a >= b`.
    AtLeast(Box<XExpr>, Box<XExpr>),
    /// `a <= b`.
    AtMost(Box<XExpr>, Box<XExpr>),
    /// `a and b`.
    And(Box<XExpr>, Box<XExpr>),
    /// `concat(a, b)`.
    Concat(Box<XExpr>, Box<XExpr>),
    /// `a=b`, or `a = b` when the flag is set.
    Equals(Box<XExpr>, Box<XExpr>, bool),
    /// `starts-with(a, b)`.
    StartsWith(Box<XExpr>, Box<XExpr>),
    /// `contains(a, b)`.
    Contains(Box<XExpr>, Box<XExpr>),
    /// `a or b`.
    Or(Box<XExpr>, Box<XExpr>),
    /// `not(a)`.
    Not(Box<XExpr>),
    /// `(a)`.
    Paren(Box<XExpr>),
}

/// The concrete XPath syntax of an expression.
pub open spec fn render(e: XExpr) -> Seq<char>
    decreases e,
{
    match e {
        XExpr::Str(text, _) => text,
        XExpr::Num(n) => int_text(n),
        XExpr::Attr(name) => "@"@ + name,
        XExpr::ChildNodes => "node()"@,
        XExpr::ChildElements => "*"@,
        XExpr::ParentElement => "parent::*"@,
        XExpr::Position => "position()"@,
        XExpr::Last => "last()"@,
        XExpr::PrecedingCount => "count(preceding-sibling::*)"@,
        XExpr::FollowingCount => "count(following-sibling::*)"@,
        XExpr::SiblingCount => "count(../*)"@,
        XExpr::PrecedingNamed(tag) => "preceding-sibling::"@ + tag,
        XExpr::FollowingNamed(tag) => "following-sibling::"@ + tag,
        XExpr::CountPrecedingNamed(tag) => "count(preceding-sibling::"@ + tag + ")"@,
        XExpr::CountFollowingNamed(tag) => "count(following-sibling::"@ + tag + ")"@,
        XExpr::StringLength(a) => "string-length("@ + render(*a) + ")"@,
        XExpr::NormalizeSpace(a) => "normalize-space("@ + render(*a) + ")"@,
        XExpr::Concat3(a, b, c) => "concat("@ + render(*a) + ", "@ + render(*b) + ", "@ + render(*c)
            + ")"@,
        XExpr::SubstringFrom(a, b) => "substring("@ + render(*a) + ", "@ + render(*b) + ")"@,
        XExpr::LowerAscii(a) => translate_lower(render(*a)),
        XExpr::Plus(a, b) => render(*a) + " + "@ + render(*b),
        XExpr::Minus(a, b) => render(*a) + " - "@ + render(*b),
        XExpr::Mod(a, b) => render(*a) + " mod "@ + render(*b),
        XExpr::AtLeast(a, b) => render(*a) + " >= "@ + render(*b),
        XExpr::AtMost(a, b) => render(*a) + " <= "@ + render(*b),
        XExpr::And(a, b) => render(*a) + " and "@ + render(*b),
        XExpr::Concat(a, b) => "concat("@ + render(*a) + ", "@ + render(*b) + ")"@,
        XExpr::Equals(a, b, spaced) => render(*a) + (if spaced {
            " = "@
        } else {
            "="@
        }) + render(*b),
        XExpr::StartsWith(a, b) => "starts-with("@ + render(*a) + ", "@ + render(*b) + ")"@,
        XExpr::Contains(a, b) => "contains("@ + render(*a) + ", "@ + render(*b) + ")"@,
        XExpr::Or(a, b) => render(*a) + " or "@ + render(*b),
        XExpr::Not(a) => "not("@ + render(*a) + ")"@,
        XExpr::Paren(a) => "("@ + render(*a) + ")"@,
    }
}

/// Whether every string expression in `e` is XPath text that stands for its
/// string (a literal, or `concat()` of literals).
pub open spec fn well_formed(e: XExpr) -> bool
    decreases e,
{
    match e {
        XExpr::Str(text, value) => denotes(text, value),
        XExpr::Concat(a, b) => well_formed(*a) && well_formed(*b),
        XExpr::Equals(a, b, _) => well_formed(*a) && well_formed(*b),
        XExpr::StartsWith(a, b) => well_formed(*a) && well_formed(*b),
        XExpr::Contains(a, b) => well_formed(*a) && well_formed(*b),
        XExpr::Or(a, b) => well_formed(*a) && well_formed(*b),
        XExpr::StringLength(a) => well_formed(*a),
        XExpr::NormalizeSpace(a) => well_formed(*a),
        XExpr::Concat3(a, b, c) => well_formed(*a) && well_formed(*b) && well_formed(*c),
        XExpr::LowerAscii(a) => well_formed(*a),
        XExpr::SubstringFrom(a, b) => well_formed(*a) && well_formed(*b),
        XExpr::Plus(a, b) => well_formed(*a) && well_formed(*b),
        XExpr::Minus(a, b) => well_formed(*a) && well_formed(*b),
        XExpr::Mod(a, b) => well_formed(*a) && well_formed(*b),
        XExpr::AtLeast(a, b) => well_formed(*a) && well_formed(*b),
        XExpr::AtMost(a, b) => well_formed(*a) && well_formed(*b),
        XExpr::And(a, b) => well_formed(*a) && well_formed(*b),
        XExpr::Not(a) => well_formed(*a),
        XExpr::Paren(a) => well_formed(*a),
        _ => true,
    }
}

/// The text of the named attribute, empty when the element has none.
pub open spec fn attr_text(el: Element, name: Seq<char>) -> Seq<char> {
    if el.attrs.contains_key(name) {
        el.attrs[name]
    } else {
        seq![]
    }
}

/// The text with its ASCII capitals lower-cased.
pub open spec fn lower(s: Seq<char>) -> Seq<char> {
    s.map_values(|c: char| ascii_lower(c))
}

/// XML whitespace: space, tab, line feed, carriage return.
pub open spec fn xml_space(c: char) -> bool {
    c == ' ' || c == '\t' || c == '\n' || c == '\r'
}

/// The words of `s` after the word `cur` read so far, added to `acc`: the
/// maximal runs of characters that are not XML whitespace.
pub open spec fn words_fold(s: Seq<char>, cur: Seq<char>, acc: Seq<Seq<char>>) -> Seq<Seq<char>>
    decreases s.len(),
{
    if s.len() == 0 {
        if cur.len() > 0 {
            acc.push(cur)
        } else {
            acc
        }
    } else if xml_space(s[0]) {
        words_fold(
            s.drop_first(),
            seq![],
            if cur.len() > 0 {
                acc.push(cur)
            } else {
                acc
            },
        )
    } else {
        words_fold(s.drop_first(), cur.push(s[0]), acc)
    }
}

/// The whitespace-separated words of `s`, in order.
pub open spec fn words(s: Seq<char>) -> Seq<Seq<char>> {
    words_fold(s, seq![], seq![])
}

/// XPath's `normalize-space(s)`: the words of `s` with one space between
/// each two.
pub open spec fn normalize_space(s: Seq<char>) -> Seq<char> {
    join(words(s), " "@)
}

/// Whether the text holds no XML whitespace.
pub open spec fn no_space(s: Seq<char>) -> bool {
    forall|i: int| 0 <= i < s.len() ==> !xml_space(#[trigger] s[i])
}

/// XPath's `substring(s, k)` for an integer `k`: the characters of `s` from
/// the 1-based position `k` on (all of `s` when `k <= 1`).
pub open spec fn substring_from(s: Seq<char>, k: int) -> Seq<char> {
    if k <= 1 {
        s
    } else if k - 1 >= s.len() {
        seq![]
    } else {
        s.subrange(k - 1, s.len() as int)
    }
}

/// The string value of an expression on the element.
pub open spec fn string_of(e: XExpr, el: Element) -> Seq<char>
    decreases e, 0int,
{
    match e {
        XExpr::Str(_, value) => value,
        XExpr::Attr(name) => attr_text(el, name),
        XExpr::Concat(a, b) => string_of(*a, el) + string_of(*b, el),
        XExpr::SubstringFrom(a, b) => substring_from(string_of(*a, el), number_of(*b, el)),
        XExpr::LowerAscii(a) => lower(string_of(*a, el)),
        XExpr::NormalizeSpace(a) => normalize_space(string_of(*a, el)),
        XExpr::Concat3(a, b, c) => string_of(*a, el) + string_of(*b, el) + string_of(*c, el),
        XExpr::Paren(a) => string_of(*a, el),
        _ => seq![],
    }
}

/// XPath's `x mod m` for `m != 0`: the remainder of truncating division,
/// with the sign of `x`.
pub open spec fn truncated_mod(x: int, m: int) -> int {
    let d = if m < 0 {
        -m
    } else {
        m
    };
    if x >= 0 {
        x % d
    } else {
        -((-x) % d)
    }
}

/// Whether an expression is a number expression.
pub open spec fn is_number(e: XExpr) -> bool
    decreases e,
{
    match e {
        XExpr::Num(_) | XExpr::Position | XExpr::Last | XExpr::PrecedingCount
        | XExpr::FollowingCount | XExpr::SiblingCount | XExpr::StringLength(_)
        | XExpr::CountPrecedingNamed(_) | XExpr::CountFollowingNamed(_)
        | XExpr::Plus(_, _) | XExpr::Minus(_, _) | XExpr::Mod(_, _) => true,
        XExpr::Paren(a) => is_number(*a),
        _ => false,
    }
}

/// The number value of an expression on the element (`x mod 0`, which XPath
/// makes NaN, is taken as 1, so that it equals no integer that a predicate
/// here compares it with, 0).
pub open spec fn number_of(e: XExpr, el: Element) -> int
    decreases e, 1int,
{
    match e {
        XExpr::Num(n) => n,
        XExpr::Position => el.position,
        XExpr::Last => el.last,
        XExpr::PrecedingCount => el.preceding_elements as int,
        XExpr::FollowingCount => el.following_elements as int,
        XExpr::SiblingCount => (el.preceding_elements + el.following_elements + 1) as int,
        XExpr::StringLength(a) => string_of(*a, el).len() as int,
        XExpr::CountPrecedingNamed(tag) => preceding_of_type(el, tag),
        XExpr::CountFollowingNamed(tag) => following_of_type(el, tag),
        XExpr::Plus(a, b) => number_of(*a, el) + number_of(*b, el),
        XExpr::Minus(a, b) => number_of(*a, el) - number_of(*b, el),
        XExpr::Mod(a, b) => if number_of(*b, el) == 0 {
            1
        } else {
            truncated_mod(number_of(*a, el), number_of(*b, el))
        },
        XExpr::Paren(a) => number_of(*a, el),
        _ => 0,
    }
}

/// How many element siblings named `tag` (any element for `*`) come before
/// the element.
pub open spec fn preceding_of_type(el: Element, tag: Seq<char>) -> int {
    if tag == "*"@ {
        el.preceding_elements as int
    } else if el.preceding_named.contains_key(tag) {
        el.preceding_named[tag] as int
    } else {
        0
    }
}

/// How many element siblings named `tag` (any element for `*`) come after
/// the element.
pub open spec fn following_of_type(el: Element, tag: Seq<char>) -> int {
    if tag == "*"@ {
        el.following_elements as int
    } else if el.following_named.contains_key(tag) {
        el.following_named[tag] as int
    } else {
        0
    }
}

/// Whether `b` occurs in `a`.
pub open spec fn occurs_in(b: Seq<char>, a: Seq<char>) -> bool {
    exists|k: int| 0 <= k && k + b.len() <= a.len() && #[trigger] a.subrange(k, k + b.len()) == b
}

/// Whether an expression, used as a predicate, holds of the element: a
/// node-set holds when it is not empty, a comparison of an attribute with a
/// string when the element has the attribute with that text, a comparison
/// of numbers when they are equal.
pub open spec fn holds(e: XExpr, el: Element) -> bool
    decreases e,
{
    match e {
        XExpr::Attr(name) => el.attrs.contains_key(name),
        XExpr::ChildNodes => el.children.len() > 0,
        XExpr::ChildElements => exists|i: int|
            0 <= i < el.children.len() && #[trigger] el.children[i] is Element,
        XExpr::ParentElement => el.has_parent_element,
        XExpr::PrecedingNamed(tag) => preceding_of_type(el, tag) > 0,
        XExpr::FollowingNamed(tag) => following_of_type(el, tag) > 0,
        XExpr::Equals(a, b, _) => match *a {
            XExpr::Attr(name) => el.attrs.contains_key(name) && el.attrs[name] == string_of(*b, el),
            _ => if is_number(*a) {
                number_of(*a, el) == number_of(*b, el)
            } else {
                string_of(*a, el) == string_of(*b, el)
            },
        },
        XExpr::AtLeast(a, b) => number_of(*a, el) >= number_of(*b, el),
        XExpr::AtMost(a, b) => number_of(*a, el) <= number_of(*b, el),
        XExpr::And(a, b) => holds(*a, el) && holds(*b, el),
        XExpr::StartsWith(a, b) => string_of(*b, el).is_prefix_of(string_of(*a, el)),
        XExpr::Contains(a, b) => occurs_in(string_of(*b, el), string_of(*a, el)),
        XExpr::Or(a, b) => holds(*a, el) || holds(*b, el),
        XExpr::Not(a) => !holds(*a, el),
        XExpr::Paren(a) => holds(*a, el),
        _ => false,
    }
}

/// An element with no child node of any kind (`:empty`).
pub open spec fn has_no_children(el: Element) -> bool {
    el.children.len() == 0
}

/// `:empty` holds of an element exactly when it has no child node of any
/// kind; an element holding only text is not empty.
pub proof fn lemma_empty_means_no_children(tag: Seq<char>)
    ensures
        exists|e: XExpr|
            #![trigger render(e)]
            well_formed(e) && compile_pseudo_class(SpecPseudo::Empty, tag) == Some(render(e))
                && forall|el: Element| holds(e, el) == has_no_children(el),
{
    reveal_strlit("not(node())");
    reveal_strlit("not(");
    reveal_strlit("node()");
    reveal_strlit(")");
    let e = XExpr::Not(Box::new(XExpr::ChildNodes));
    assert(well_formed(XExpr::ChildNodes));
    assert(render(XExpr::ChildNodes) == "node()"@);
    assert(render(e) == "not("@ + "node()"@ + ")"@);
    assert(render(e) =~= "not(node())"@);
    assert forall|el: Element| holds(e, el) == has_no_children(el) by {
        assert(holds(XExpr::ChildNodes, el) == (el.children.len() > 0));
    }
    assert(well_formed(e) && compile_pseudo_class(SpecPseudo::Empty, tag) == Some(render(e)));
}

/// Whether the compiled predicate of the pseudo-class is the text of an
/// expression that holds of an element exactly when the element has the
/// named attribute (or, when `present` is false, exactly when it has not).
pub open spec fn tests_attribute(pc: SpecPseudo, name: Seq<char>, present: bool) -> bool {
    exists|e: XExpr|
        #![trigger render(e)]
        well_formed(e) && compile_pseudo_class(pc, seq![]) == Some(render(e)) && forall|el: Element|
            holds(e, el) == (el.attrs.contains_key(name) == present)
}

proof fn lemma_attr_expr(name: Seq<char>)
    ensures
        well_formed(XExpr::Attr(name)),
        render(XExpr::Attr(name)) == "@"@ + name,
        forall|el: Element| holds(XExpr::Attr(name), el) == el.attrs.contains_key(name),
{
}

proof fn lemma_attribute_presence(pc: SpecPseudo, name: Seq<char>)
    requires
        compile_pseudo_class(pc, seq![]) == Some("@"@ + name),
    ensures
        tests_attribute(pc, name, true),
{
    lemma_attr_expr(name);
    let e = XExpr::Attr(name);
    assert(well_formed(e) && compile_pseudo_class(pc, seq![]) == Some(render(e)));
}

proof fn lemma_attribute_absence(pc: SpecPseudo, name: Seq<char>)
    requires
        compile_pseudo_class(pc, seq![]) == Some("not(@"@ + name + ")"@),
    ensures
        tests_attribute(pc, name, false),
{
    reveal_strlit("not(@");
    reveal_strlit("not(");
    reveal_strlit("@");
    lemma_attr_expr(name);
    let e = XExpr::Not(Box::new(XExpr::Attr(name)));
    assert(render(e) == "not("@ + ("@"@ + name) + ")"@);
    assert(render(e) =~= "not(@"@ + name + ")"@);
    assert forall|el: Element| holds(e, el) == (el.attrs.contains_key(name) == false) by {
        assert(holds(XExpr::Attr(name), el) == el.attrs.contains_key(name));
    }
    assert(well_formed(e) && compile_pseudo_class(pc, seq![]) == Some(render(e)));
}

/// The form and state pseudo-classes test the element's attributes:
/// `:enabled` holds exactly when it has no `disabled` attribute, `:disabled`
/// when it has one; `:indeterminate`, `:required`, `:read-only` and
/// `:invalid` when it has the attribute `indeterminate`, `required`,
/// `readonly` and `aria-invalid`; `:optional`, `:read-write` and `:valid`
/// when it has no `required`, `readonly` and `aria-invalid` attribute.
pub proof fn lemma_state_pseudo_classes()
    ensures
        tests_attribute(SpecPseudo::Enabled, "disabled"@, false),
        tests_attribute(SpecPseudo::Disabled, "disabled"@, true),
        tests_attribute(SpecPseudo::Indeterminate, "indeterminate"@, true),
        tests_attribute(SpecPseudo::Required, "required"@, true),
        tests_attribute(SpecPseudo::Optional, "required"@, false),
        tests_attribute(SpecPseudo::ReadOnly, "readonly"@, true),
        tests_attribute(SpecPseudo::ReadWrite, "readonly"@, false),
        tests_attribute(SpecPseudo::Valid, "aria-invalid"@, false),
        tests_attribute(SpecPseudo::Invalid, "aria-invalid"@, true),
{
    reveal_strlit("not(@");
    reveal_strlit(")");
    reveal_strlit("@");
    reveal_strlit("disabled");
    reveal_strlit("indeterminate");
    reveal_strlit("required");
    reveal_strlit("readonly");
    reveal_strlit("aria-invalid");
    reveal_strlit("not(@disabled)");
    reveal_strlit("@disabled");
    reveal_strlit("@indeterminate");
    reveal_strlit("@required");
    reveal_strlit("not(@required)");
    reveal_strlit("@readonly");
    reveal_strlit("not(@readonly)");
    reveal_strlit("not(@aria-invalid)");
    reveal_strlit("@aria-invalid");
    assert("not(@disabled)"@ =~= "not(@"@ + "disabled"@ + ")"@);
    lemma_attribute_absence(SpecPseudo::Enabled, "disabled"@);
    assert("@disabled"@ =~= "@"@ + "disabled"@);
    lemma_attribute_presence(SpecPseudo::Disabled, "disabled"@);
    assert("@indeterminate"@ =~= "@"@ + "indeterminate"@);
    lemma_attribute_presence(SpecPseudo::Indeterminate, "indeterminate"@);
    assert("@required"@ =~= "@"@ + "required"@);
    lemma_attribute_presence(SpecPseudo::Required, "required"@);
    assert("not(@required)"@ =~= "not(@"@ + "required"@ + ")"@);
    lemma_attribute_absence(SpecPseudo::Optional, "required"@);
    assert("@readonly"@ =~= "@"@ + "readonly"@);
    lemma_attribute_presence(SpecPseudo::ReadOnly, "readonly"@);
    assert("not(@readonly)"@ =~= "not(@"@ + "readonly"@ + ")"@);
    lemma_attribute_absence(SpecPseudo::ReadWrite, "readonly"@);
    assert("not(@aria-invalid)"@ =~= "not(@"@ + "aria-invalid"@ + ")"@);
    lemma_attribute_absence(SpecPseudo::Valid, "aria-invalid"@);
    assert("@aria-invalid"@ =~= "@"@ + "aria-invalid"@);
    lemma_attribute_presence(SpecPseudo::Invalid, "aria-invalid"@);
}

/// `:checked` holds of an element exactly when it has a `checked` or a
/// `selected` attribute (a selected option is checked).
pub proof fn lemma_checked_means_checked_or_selected()
    ensures
        exists|e: XExpr|
            #![trigger render(e)]
            well_formed(e) && compile_pseudo_class(SpecPseudo::Checked, seq![]) == Some(render(e))
                && forall|el: Element|
                holds(e, el) == (el.attrs.contains_key("checked"@) || el.attrs.contains_key(
                    "selected"@,
                )),
{
    reveal_strlit("(@checked or @selected)");
    reveal_strlit("(");
    reveal_strlit(")");
    reveal_strlit("@");
    reveal_strlit(" or ");
    reveal_strlit("checked");
    reveal_strlit("selected");
    lemma_attr_expr("checked"@);
    lemma_attr_expr("selected"@);
    let or = XExpr::Or(Box::new(XExpr::Attr("checked"@)), Box::new(XExpr::Attr("selected"@)));
    let e = XExpr::Paren(Box::new(or));
    assert(render(or) == ("@"@ + "checked"@) + " or "@ + ("@"@ + "selected"@));
    assert(render(e) == "("@ + render(or) + ")"@);
    assert(render(e) =~= "(@checked or @selected)"@);
    assert(well_formed(or));
    assert forall|el: Element|
        holds(e, el) == (el.attrs.contains_key("checked"@) || el.attrs.contains_key(
            "selected"@,
        )) by {
        assert(holds(or, el) == (holds(XExpr::Attr("checked"@), el) || holds(
            XExpr::Attr("selected"@),
            el,
        )));
    }
    assert(well_formed(e) && compile_pseudo_class(SpecPseudo::Checked, seq![]) == Some(render(e)));
}

/// `:root` holds exactly of an element whose parent is not an element, and
/// `:last-child` exactly of the element at the last position of its step's
/// node list; `:first-child` exactly of the element at the first position.
pub proof fn lemma_position_pseudo_classes(tag: Seq<char>)
    ensures
        exists|e: XExpr|
            #![trigger render(e)]
            well_formed(e) && compile_pseudo_class(SpecPseudo::Root, tag) == Some(render(e))
                && forall|el: Element| holds(e, el) == !el.has_parent_element,
        exists|e: XExpr|
            #![trigger render(e)]
            well_formed(e) && compile_pseudo_class(SpecPseudo::FirstChild, tag) == Some(render(e))
                && forall|el: Element| holds(e, el) == (el.position == 1),
        exists|e: XExpr|
            #![trigger render(e)]
            well_formed(e) && compile_pseudo_class(SpecPseudo::LastChild, tag) == Some(render(e))
                && forall|el: Element| holds(e, el) == (el.position == el.last),
{
    reveal_strlit("not(parent::*)");
    reveal_strlit("not(");
    reveal_strlit("parent::*");
    reveal_strlit(")");
    let root = XExpr::Not(Box::new(XExpr::ParentElement));
    assert(render(XExpr::ParentElement) == "parent::*"@);
    assert(render(root) =~= "not(parent::*)"@);
    assert(well_formed(XExpr::ParentElement));
    assert forall|el: Element| holds(root, el) == !el.has_parent_element by {
        assert(holds(XExpr::ParentElement, el) == el.has_parent_element);
    }
    assert(well_formed(root) && compile_pseudo_class(SpecPseudo::Root, tag) == Some(render(root)));
    reveal_strlit("position() = 1");
    reveal_strlit("position()");
    reveal_strlit(" = ");
    reveal_strlit("1");
    let first = XExpr::Equals(Box::new(XExpr::Position), Box::new(XExpr::Num(1)), true);
    assert(int_text(1) =~= "1"@);
    assert(render(XExpr::Num(1)) == "1"@);
    assert(render(XExpr::Position) == "position()"@);
    assert(render(first) =~= "position() = 1"@);
    assert(well_formed(XExpr::Position) && well_formed(XExpr::Num(1)));
    assert(well_formed(first) && compile_pseudo_class(SpecPseudo::FirstChild, tag) == Some(
        render(first),
    ));
    assert forall|el: Element| holds(first, el) == (el.position == 1) by {
        assert(number_of(XExpr::Num(1), el) == 1);
    }
    reveal_strlit("position() = last()");
    reveal_strlit("last()");
    let last = XExpr::Equals(Box::new(XExpr::Position), Box::new(XExpr::Last), true);
    assert(render(XExpr::Last) == "last()"@);
    assert(render(last) =~= "position() = last()"@);
    assert(well_formed(XExpr::Last));
    assert(well_formed(last) && compile_pseudo_class(SpecPseudo::LastChild, tag) == Some(
        render(last),
    ));
    assert forall|el: Element| holds(last, el) == (el.position == el.last) by {
        assert(number_of(XExpr::Last, el) == el.last);
    }
}

/// An attribute selector without the case flag.
pub open spec fn plain_attr(name: Seq<char>, op: AttrOp, value: Seq<char>) -> SpecAttr {
    SpecAttr { name, op, value, case_insensitive: false }
}

proof fn lemma_value_expr(value: Seq<char>)
    ensures
        well_formed(XExpr::Str(xpath_string(value), value)),
        render(XExpr::Str(xpath_string(value), value)) == xpath_string(value),
        forall|el: Element| string_of(XExpr::Str(xpath_string(value), value), el) == value,
{
    lemma_xpath_string_denotes(value);
}

/// `[name]` holds of an element exactly when it has the attribute, and
/// `[name="v"]` exactly when it has it with the text `v`.
pub proof fn lemma_attribute_present_and_exact(name: Seq<char>, value: Seq<char>)
    ensures
        exists|e: XExpr|
            #![trigger render(e)]
            well_formed(e) && compile_attr(plain_attr(name, AttrOp::Present, value)) == render(e)
                && forall|el: Element| holds(e, el) == el.attrs.contains_key(name),
        exists|e: XExpr|
            #![trigger render(e)]
            well_formed(e) && compile_attr(plain_attr(name, AttrOp::Exact, value)) == render(e)
                && forall|el: Element|
                holds(e, el) == (el.attrs.contains_key(name) && el.attrs[name] == value),
{
    lemma_attr_expr(name);
    lemma_value_expr(value);
    let at = XExpr::Attr(name);
    assert(well_formed(at) && compile_attr(plain_attr(name, AttrOp::Present, value)) == render(at));
    let v = XExpr::Str(xpath_string(value), value);
    let eq = XExpr::Equals(Box::new(at), Box::new(v), false);
    assert(render(eq) == render(at) + "="@ + render(v));
    assert(well_formed(eq) && compile_attr(plain_attr(name, AttrOp::Exact, value)) == render(eq));
    assert forall|el: Element|
        holds(eq, el) == (el.attrs.contains_key(name) && el.attrs[name] == value) by {
        assert(string_of(v, el) == value);
    }
}

/// For a non-empty `v`, `[name^="v"]` holds of an element exactly when it
/// has the attribute and its text starts with `v`, and `[name*="v"]` exactly
/// when it has the attribute and `v` occurs in its text.
#[verifier::spinoff_prover]
#[verifier::rlimit(50)]
pub proof fn lemma_attribute_prefix_and_substring(name: Seq<char>, value: Seq<char>)
    requires
        value.len() > 0,
    ensures
        exists|e: XExpr|
            #![trigger render(e)]
            well_formed(e) && compile_attr(plain_attr(name, AttrOp::Prefix, value)) == render(e)
                && forall|el: Element|
                holds(e, el) == (el.attrs.contains_key(name) && value.is_prefix_of(el.attrs[name])),
        exists|e: XExpr|
            #![trigger render(e)]
            well_formed(e) && compile_attr(plain_attr(name, AttrOp::Substring, value)) == render(e)
                && forall|el: Element|
                holds(e, el) == (el.attrs.contains_key(name) && occurs_in(value, el.attrs[name])),
{
    lemma_attr_expr(name);
    lemma_value_expr(value);
    let at = XExpr::Attr(name);
    let v = XExpr::Str(xpath_string(value), value);
    let pre = XExpr::StartsWith(Box::new(at), Box::new(v));
    assert(render(pre) == "starts-with("@ + render(at) + ", "@ + render(v) + ")"@);
    assert(well_formed(pre) && compile_attr(plain_attr(name, AttrOp::Prefix, value)) == render(pre));
    assert forall|el: Element|
        holds(pre, el) == (el.attrs.contains_key(name) && value.is_prefix_of(el.attrs[name])) by {
        assert(string_of(v, el) == value);
        assert(string_of(at, el) == attr_text(el, name));
    }
    let sub = XExpr::Contains(Box::new(at), Box::new(v));
    assert(render(sub) == "contains("@ + render(at) + ", "@ + render(v) + ")"@);
    assert(well_formed(sub) && compile_attr(plain_attr(name, AttrOp::Substring, value)) == render(
        sub,
    ));
    assert forall|el: Element|
        holds(sub, el) == (el.attrs.contains_key(name) && occurs_in(value, el.attrs[name])) by {
        assert(string_of(v, el) == value);
        assert(string_of(at, el) == attr_text(el, name));
        if !el.attrs.contains_key(name) && occurs_in(value, attr_text(el, name)) {
            let k = choose|k: int|
                0 <= k && k + value.len() <= attr_text(el, name).len() && #[trigger] attr_text(
                    el,
                    name,
                ).subrange(k, k + value.len()) == value;
            assert(attr_text(el, name).len() == 0);
        }
    }
}

/// `[name|="v"]` holds of an element exactly when it has the attribute and
/// its text is `v` or starts with `v` followed by `-` (so `en-US` is accepted
/// for `en`).
#[verifier::spinoff_prover]
#[verifier::rlimit(50)]
pub proof fn lemma_attribute_dash(name: Seq<char>, value: Seq<char>)
    ensures
        exists|e: XExpr|
            #![trigger render(e)]
            well_formed(e) && compile_attr(plain_attr(name, AttrOp::Dash, value)) == render(e)
                && forall|el: Element|
                holds(e, el) == (el.attrs.contains_key(name) && (el.attrs[name] == value || (value
                    + seq!['-']).is_prefix_of(el.attrs[name]))),
{
    lemma_attr_expr(name);
    lemma_value_expr(value);
    reveal_strlit("'-'");
    reveal_strlit("-");
    let hyphen = XExpr::Str("'-'"@, "-"@);
    assert("'-'"@.subrange(1, 2) =~= "-"@);
    assert(is_literal("'-'"@) && literal_value("'-'"@) == "-"@);
    assert(well_formed(hyphen));
    let at = XExpr::Attr(name);
    let v = XExpr::Str(xpath_string(value), value);
    let eq = XExpr::Equals(Box::new(at), Box::new(v), false);
    let cat = XExpr::Concat(Box::new(v), Box::new(hyphen));
    let pre = XExpr::StartsWith(Box::new(at), Box::new(cat));
    let e = XExpr::Or(Box::new(eq), Box::new(pre));
    reveal_strlit(" or starts-with(");
    reveal_strlit(" or ");
    reveal_strlit("starts-with(");
    reveal_strlit(", concat(");
    reveal_strlit(", ");
    reveal_strlit("concat(");
    reveal_strlit(", '-'))");
    reveal_strlit(")");
    reveal_strlit("=");
    let a = "@"@ + name;
    let x = xpath_string(value);
    assert(render(at) == a);
    assert(render(v) == x);
    assert(render(hyphen) == "'-'"@);
    assert(render(eq) == a + "="@ + x);
    assert(render(cat) == "concat("@ + x + ", "@ + "'-'"@ + ")"@);
    assert(render(pre) == "starts-with("@ + a + ", "@ + render(cat) + ")"@);
    assert(render(e) == render(eq) + " or "@ + render(pre));
    assert(render(e) =~= a + "="@ + x + " or starts-with("@ + a + ", concat("@ + x + ", '-'))"@);
    assert(well_formed(at) && well_formed(v));
    assert(well_formed(eq));
    assert(well_formed(cat));
    assert(well_formed(pre));
    assert(well_formed(e) && compile_attr(plain_attr(name, AttrOp::Dash, value)) == render(e));
    assert forall|el: Element|
        holds(e, el) == (el.attrs.contains_key(name) && (el.attrs[name] == value || (value
            + seq!['-']).is_prefix_of(el.attrs[name]))) by {
        assert(string_of(v, el) == value);
        assert(string_of(hyphen, el) == "-"@);
        assert(string_of(cat, el) == value + "-"@);
        assert("-"@ =~= seq!['-']);
        assert(string_of(at, el) == attr_text(el, name));
        assert(holds(eq, el) == (el.attrs.contains_key(name) && el.attrs[name] == value));
        assert(holds(pre, el) == (value + seq!['-']).is_prefix_of(attr_text(el, name)));
    }
}

/// The 1-based index of the element among its element siblings, counted
/// from the first or (`from_end`) from the last.
pub open spec fn sibling_index(el: Element, from_end: bool) -> int {
    if from_end {
        el.following_elements + 1int
    } else {
        el.preceding_elements + 1int
    }
}

proof fn lemma_multiple(d: int, m: int)
    requires
        m > 0,
        d >= 0,
    ensures
        (d % m == 0) <==> (exists|n: int| n >= 0 && #[trigger] (m * n) == d),
{
    if d % m == 0 {
        vstd::arithmetic::div_mod::lemma_fundamental_div_mod(d, m);
        let n = d / m;
        assert(m * n == d);
        assert(n >= 0) by (nonlinear_arith)
            requires
                m > 0,
                m * n == d,
                d >= 0,
        ;
    }
    if exists|n: int| n >= 0 && #[trigger] (m * n) == d {
        let n = choose|n: int| n >= 0 && #[trigger] (m * n) == d;
        vstd::arithmetic::div_mod::lemma_mod_multiples_basic(n, m);
        assert(n * m == m * n) by (nonlinear_arith);
    }
}

/// The text of an `an+b` test on the 1-based index written `count`, with
/// the modulus written `modulus`.
pub open spec fn nth_text(a: i32, b: i32, count: Seq<char>, modulus: Seq<char>) -> Seq<char> {
    if a == 0 {
        count + " = "@ + int_text(b as int)
    } else {
        count + nth_bound(a) + int_text(b as int) + " and ("@ + count + " - "@ + int_text(b as int)
            + ") mod "@ + modulus + " = 0"@
    }
}

/// The `an+b` test on `base + 1`, as an expression.
#[verifier::spinoff_prover]
#[verifier::rlimit(50)]
proof fn lemma_counted_nth(a: i32, b: i32, base: XExpr, modulus: int) -> (e: XExpr)
    requires
        a != i32::MIN,
        modulus == a || modulus == -a,
        well_formed(base),
        is_number(base),
    ensures
        well_formed(e),
        render(e) == nth_text(a, b, render(base) + " + 1"@, int_text(modulus)),
        forall|el: Element| holds(e, el) == nth_selects((a, b), number_of(base, el) + 1),
{
    reveal_strlit(" + 1");
    reveal_strlit(" + ");
    reveal_strlit("1");
    reveal_strlit(" = ");
    reveal_strlit(" <= ");
    reveal_strlit(" >= ");
    reveal_strlit(" and (");
    reveal_strlit(" and ");
    reveal_strlit("(");
    reveal_strlit(" - ");
    reveal_strlit(") mod ");
    reveal_strlit(")");
    reveal_strlit(" mod ");
    reveal_strlit(" = 0");
    reveal_strlit("0");
    let cnt = XExpr::Plus(Box::new(base), Box::new(XExpr::Num(1)));
    let count_text = render(base) + " + 1"@;
    assert(int_text(1) =~= "1"@);
    assert(int_text(0) =~= "0"@);
    assert(render(XExpr::Num(1)) == "1"@);
    assert(render(cnt) == render(base) + " + "@ + "1"@);
    assert(render(cnt) =~= count_text);
    assert(well_formed(XExpr::Num(1)) && well_formed(XExpr::Num(b as int)));
    assert(well_formed(cnt));
    assert(is_number(cnt));
    let bt = int_text(b as int);
    assert(render(XExpr::Num(b as int)) == bt);
    assert forall|el: Element| number_of(cnt, el) == number_of(base, el) + 1 by {
        assert(number_of(XExpr::Num(1), el) == 1);
    }
    if a == 0 {
        let e = XExpr::Equals(Box::new(cnt), Box::new(XExpr::Num(b as int)), true);
        assert(render(e) == render(cnt) + " = "@ + bt);
        assert forall|el: Element| holds(e, el) == nth_selects((a, b), number_of(base, el) + 1) by {
            let x = number_of(base, el) + 1;
            assert(number_of(XExpr::Num(b as int), el) == b);
            assert(number_of(cnt, el) == x);
            assert(holds(e, el) == (number_of(cnt, el) == number_of(XExpr::Num(b as int), el)));
            assert(holds(e, el) == (x == b));
            if x == b {
                lemma_nth_selects_witness((a, b), x, 0);
            }
            if nth_selects((a, b), x) {
                let n = choose|n: int| n >= 0 && #[trigger] (a * n) + b == x;
                assert(a * n == 0);
            }
        }
        e
    } else {
        let m: int = if a < 0 {
            -(a as int)
        } else {
            a as int
        };
        let bound = if a < 0 {
            XExpr::AtMost(Box::new(cnt), Box::new(XExpr::Num(b as int)))
        } else {
            XExpr::AtLeast(Box::new(cnt), Box::new(XExpr::Num(b as int)))
        };
        assert(render(bound) == render(cnt) + nth_bound(a) + bt);
        let minus = XExpr::Minus(Box::new(cnt), Box::new(XExpr::Num(b as int)));
        let diff = XExpr::Paren(Box::new(minus));
        let modx = XExpr::Mod(Box::new(diff), Box::new(XExpr::Num(modulus)));
        let test = XExpr::Equals(Box::new(modx), Box::new(XExpr::Num(0)), true);
        let e = XExpr::And(Box::new(bound), Box::new(test));
        assert(render(XExpr::Num(modulus)) == int_text(modulus));
        assert(render(minus) == render(cnt) + " - "@ + bt);
        assert(render(diff) == "("@ + (render(cnt) + " - "@ + bt) + ")"@);
        assert(render(modx) == render(diff) + " mod "@ + int_text(modulus));
        assert(render(XExpr::Num(0)) == "0"@);
        assert(render(test) == render(modx) + " = "@ + "0"@);
        assert(render(e) == render(bound) + " and "@ + render(test));
        assert(render(e) =~= nth_text(a, b, count_text, int_text(modulus)));
        assert(well_formed(XExpr::Num(modulus)) && well_formed(XExpr::Num(0)));
        assert(well_formed(bound));
        assert(well_formed(minus));
        assert(well_formed(diff));
        assert(well_formed(modx));
        assert(well_formed(test));
        assert forall|el: Element| holds(e, el) == nth_selects((a, b), number_of(base, el) + 1) by {
            let x = number_of(base, el) + 1;
            assert(number_of(XExpr::Num(b as int), el) == b);
            assert(number_of(XExpr::Num(modulus), el) == modulus);
            assert(number_of(cnt, el) == x);
            assert(number_of(minus, el) == x - b);
            assert(number_of(diff, el) == x - b);
            assert(truncated_mod(x - b, modulus) == truncated_mod(x - b, m));
            assert(number_of(modx, el) == truncated_mod(x - b, m));
            assert(is_number(modx));
            assert(holds(test, el) == (truncated_mod(x - b, m) == 0));
            if a > 0 {
                assert(holds(bound, el) == (x >= b));
                if x >= b {
                    lemma_multiple(x - b, m);
                }
                if holds(e, el) {
                    let n = choose|n: int| n >= 0 && #[trigger] (m * n) == x - b;
                    lemma_nth_selects_witness((a, b), x, n);
                }
                if nth_selects((a, b), x) {
                    let n = choose|n: int| n >= 0 && #[trigger] (a * n) + b == x;
                    assert(m * n >= 0) by (nonlinear_arith)
                        requires
                            m > 0,
                            n >= 0,
                    ;
                    assert(m * n == x - b);
                    lemma_multiple(x - b, m);
                }
            } else {
                assert(holds(bound, el) == (x <= b));
                if x <= b {
                    lemma_multiple(b - x, m);
                    assert(truncated_mod(x - b, m) == 0 <==> (b - x) % m == 0);
                }
                if holds(e, el) {
                    let n = choose|n: int| n >= 0 && #[trigger] (m * n) == b - x;
                    assert((a * n) + b == x) by (nonlinear_arith)
                        requires
                            m == -a,
                            m * n == b - x,
                    ;
                    lemma_nth_selects_witness((a, b), x, n);
                }
                if nth_selects((a, b), x) {
                    let n = choose|n: int| n >= 0 && #[trigger] (a * n) + b == x;
                    assert(m * n >= 0 && m * n == b - x) by (nonlinear_arith)
                        requires
                            m == -a,
                            m > 0,
                            n >= 0,
                            a * n + b == x,
                    ;
                    lemma_multiple(b - x, m);
                }
            }
        }
        e
    }
}

/// The predicate built for `:nth-child(an+b)` and `:nth-last-child(an+b)`,
/// as an expression over the sibling index.
proof fn lemma_nth_expr(a: i32, b: i32, from_end: bool) -> (e: XExpr)
    requires
        a != i32::MIN,
    ensures
        well_formed(e),
        render(e) == nth_to_xpath(a, b, from_end),
        forall|el: Element| holds(e, el) == nth_selects((a, b), sibling_index(el, from_end)),
{
    reveal_strlit("count(following-sibling::*) + 1");
    reveal_strlit("count(preceding-sibling::*) + 1");
    reveal_strlit("count(following-sibling::*)");
    reveal_strlit("count(preceding-sibling::*)");
    reveal_strlit(" + 1");
    let base = if from_end {
        XExpr::FollowingCount
    } else {
        XExpr::PrecedingCount
    };
    assert(well_formed(base) && is_number(base));
    let m: int = if a < 0 {
        -(a as int)
    } else {
        a as int
    };
    assert(abs_wrap(a) as int == m);
    let e = lemma_counted_nth(a, b, base, m);
    let count_text = if from_end {
        "count(following-sibling::*) + 1"@
    } else {
        "count(preceding-sibling::*) + 1"@
    };
    assert(render(base) + " + 1"@ =~= count_text);
    assert(nth_text(a, b, count_text, int_text(m)) =~= nth_to_xpath(a, b, from_end));
    assert forall|el: Element| number_of(base, el) + 1 == sibling_index(el, from_end) by {}
    e
}

/// `:nth-child(an+b)` holds of exactly the elements whose 1-based index
/// among their element siblings is `a*n + b` for some `n >= 0`, and
/// `:nth-last-child(an+b)` likewise with the index counted from the last
/// sibling.
pub proof fn lemma_nth_child_positions(a: i32, b: i32, tag: Seq<char>)
    requires
        a != i32::MIN,
    ensures
        exists|e: XExpr|
            #![trigger render(e)]
            well_formed(e) && compile_pseudo_class(SpecPseudo::NthChild { a, b }, tag) == Some(
                render(e),
            ) && forall|el: Element| holds(e, el) == nth_selects((a, b), sibling_index(el, false)),
        exists|e: XExpr|
            #![trigger render(e)]
            well_formed(e) && compile_pseudo_class(SpecPseudo::NthLastChild { a, b }, tag) == Some(
                render(e),
            ) && forall|el: Element| holds(e, el) == nth_selects((a, b), sibling_index(el, true)),
{
    let e1 = lemma_nth_expr(a, b, false);
    assert(well_formed(e1) && compile_pseudo_class(SpecPseudo::NthChild { a, b }, tag) == Some(
        render(e1),
    ));
    let e2 = lemma_nth_expr(a, b, true);
    assert(well_formed(e2) && compile_pseudo_class(SpecPseudo::NthLastChild { a, b }, tag) == Some(
        render(e2),
    ));
}

/// `:only-child` holds exactly of an element with no element sibling.
pub proof fn lemma_only_child(tag: Seq<char>)
    ensures
        exists|e: XExpr|
            #![trigger render(e)]
            well_formed(e) && compile_pseudo_class(SpecPseudo::OnlyChild, tag) == Some(render(e))
                && forall|el: Element|
                holds(e, el) == (el.preceding_elements == 0 && el.following_elements == 0),
{
    reveal_strlit("count(../*) = 1");
    reveal_strlit("count(../*)");
    reveal_strlit(" = ");
    reveal_strlit("1");
    let e = XExpr::Equals(Box::new(XExpr::SiblingCount), Box::new(XExpr::Num(1)), true);
    assert(int_text(1) =~= "1"@);
    assert(render(XExpr::Num(1)) == "1"@);
    assert(render(XExpr::SiblingCount) == "count(../*)"@);
    assert(render(e) =~= "count(../*) = 1"@);
    assert(well_formed(XExpr::SiblingCount) && well_formed(XExpr::Num(1)));
    assert(well_formed(e) && compile_pseudo_class(SpecPseudo::OnlyChild, tag) == Some(render(e)));
    assert forall|el: Element|
        holds(e, el) == (el.preceding_elements == 0 && el.following_elements == 0) by {
        assert(is_number(XExpr::SiblingCount));
        assert(number_of(XExpr::SiblingCount, el) == el.preceding_elements + el.following_elements
            + 1);
        assert(number_of(XExpr::Num(1), el) == 1);
    }
}

/// `:first-of-type` holds exactly of an element with no earlier sibling of
/// its type (named `tag`; any element for `*`), and `:last-of-type` exactly
/// of one with no later sibling of its type.
pub proof fn lemma_first_and_last_of_type(tag: Seq<char>)
    ensures
        exists|e: XExpr|
            #![trigger render(e)]
            well_formed(e) && compile_pseudo_class(SpecPseudo::FirstOfType, tag) == Some(render(e))
                && forall|el: Element| holds(e, el) == (preceding_of_type(el, tag) == 0),
        exists|e: XExpr|
            #![trigger render(e)]
            well_formed(e) && compile_pseudo_class(SpecPseudo::LastOfType, tag) == Some(render(e))
                && forall|el: Element| holds(e, el) == (following_of_type(el, tag) == 0),
{
    reveal_strlit("not(preceding-sibling::");
    reveal_strlit("not(following-sibling::");
    reveal_strlit("not(");
    reveal_strlit("preceding-sibling::");
    reveal_strlit("following-sibling::");
    reveal_strlit(")");
    let p = XExpr::PrecedingNamed(tag);
    let first = XExpr::Not(Box::new(p));
    assert(render(p) == "preceding-sibling::"@ + tag);
    assert(render(first) =~= "not(preceding-sibling::"@ + tag + ")"@);
    assert(well_formed(p));
    assert(well_formed(first) && compile_pseudo_class(SpecPseudo::FirstOfType, tag) == Some(
        render(first),
    ));
    assert forall|el: Element| holds(first, el) == (preceding_of_type(el, tag) == 0) by {
        assert(holds(p, el) == (preceding_of_type(el, tag) > 0));
        assert(preceding_of_type(el, tag) >= 0);
    }
    let f = XExpr::FollowingNamed(tag);
    let last = XExpr::Not(Box::new(f));
    assert(render(f) == "following-sibling::"@ + tag);
    assert(render(last) =~= "not(following-sibling::"@ + tag + ")"@);
    assert(well_formed(f));
    assert(well_formed(last) && compile_pseudo_class(SpecPseudo::LastOfType, tag) == Some(
        render(last),
    ));
    assert forall|el: Element| holds(last, el) == (following_of_type(el, tag) == 0) by {
        assert(holds(f, el) == (following_of_type(el, tag) > 0));
        assert(following_of_type(el, tag) >= 0);
    }
}

/// The predicate for an id holds exactly of an element whose `id` attribute
/// is that id.
pub proof fn lemma_id_predicate(id: Seq<char>)
    ensures
        exists|e: XExpr|
            #![trigger render(e)]
            well_formed(e) && id_pred(id) == render(e) && forall|el: Element|
                holds(e, el) == (el.attrs.contains_key("id"@) && el.attrs["id"@] == id),
{
    reveal_strlit("@id=");
    reveal_strlit("@");
    reveal_strlit("id");
    reveal_strlit("=");
    lemma_attr_expr("id"@);
    lemma_value_expr(id);
    let at = XExpr::Attr("id"@);
    let v = XExpr::Str(xpath_string(id), id);
    let e = XExpr::Equals(Box::new(at), Box::new(v), false);
    assert(render(e) == ("@"@ + "id"@) + "="@ + xpath_string(id));
    assert(render(e) =~= "@id="@ + xpath_string(id));
    assert(well_formed(e));
    assert forall|el: Element| holds(e, el) == (el.attrs.contains_key("id"@) && el.attrs["id"@] == id) by {
        assert(string_of(v, el) == id);
    }
}

/// Whether `v` is a suffix of `w`.
pub open spec fn ends_with(w: Seq<char>, v: Seq<char>) -> bool {
    v.len() <= w.len() && w.subrange(w.len() - v.len(), w.len() as int) == v
}

/// For a non-empty `v`, `[name$="v"]` holds of an element exactly when it
/// has the attribute and its text ends with `v`.
#[verifier::spinoff_prover]
#[verifier::rlimit(50)]
pub proof fn lemma_attribute_suffix(name: Seq<char>, value: Seq<char>)
    requires
        value.len() > 0,
    ensures
        exists|e: XExpr|
            #![trigger render(e)]
            well_formed(e) && compile_attr(plain_attr(name, AttrOp::Suffix, value)) == render(e)
                && forall|el: Element|
                holds(e, el) == (el.attrs.contains_key(name) && ends_with(el.attrs[name], value)),
{
    lemma_attr_expr(name);
    lemma_value_expr(value);
    reveal_strlit("substring(");
    reveal_strlit(", string-length(");
    reveal_strlit(", ");
    reveal_strlit("string-length(");
    reveal_strlit(") - string-length(");
    reveal_strlit(")");
    reveal_strlit(" - ");
    reveal_strlit(") + 1) = ");
    reveal_strlit(" + ");
    reveal_strlit("1");
    reveal_strlit(" = ");
    let at = XExpr::Attr(name);
    let v = XExpr::Str(xpath_string(value), value);
    let la = XExpr::StringLength(Box::new(at));
    let lv = XExpr::StringLength(Box::new(v));
    let start = XExpr::Plus(Box::new(XExpr::Minus(Box::new(la), Box::new(lv))), Box::new(XExpr::Num(1)));
    let sub = XExpr::SubstringFrom(Box::new(at), Box::new(start));
    let e = XExpr::Equals(Box::new(sub), Box::new(v), true);
    let a = "@"@ + name;
    let x = xpath_string(value);
    assert(int_text(1) =~= "1"@);
    assert(render(XExpr::Num(1)) == "1"@);
    assert(render(la) == "string-length("@ + a + ")"@);
    assert(render(lv) == "string-length("@ + x + ")"@);
    assert(render(XExpr::Minus(Box::new(la), Box::new(lv))) == render(la) + " - "@ + render(lv));
    assert(render(start) == render(XExpr::Minus(Box::new(la), Box::new(lv))) + " + "@ + "1"@);
    assert(render(sub) == "substring("@ + a + ", "@ + render(start) + ")"@);
    assert(render(e) == render(sub) + " = "@ + x);
    assert(render(e) =~= "substring("@ + a + ", string-length("@ + a + ") - string-length("@ + x
        + ") + 1) = "@ + x);
    assert(well_formed(at) && well_formed(v) && well_formed(XExpr::Num(1)));
    assert(well_formed(la) && well_formed(lv));
    assert(well_formed(XExpr::Minus(Box::new(la), Box::new(lv))));
    assert(well_formed(start));
    assert(well_formed(sub));
    assert(well_formed(e) && compile_attr(plain_attr(name, AttrOp::Suffix, value)) == render(e));
    assert forall|el: Element|
        holds(e, el) == (el.attrs.contains_key(name) && ends_with(el.attrs[name], value)) by {
        let w = attr_text(el, name);
        assert(string_of(v, el) == value);
        assert(string_of(at, el) == w);
        assert(number_of(la, el) == w.len());
        assert(number_of(lv, el) == value.len());
        assert(number_of(XExpr::Minus(Box::new(la), Box::new(lv)), el) == w.len() - value.len());
        assert(number_of(XExpr::Num(1), el) == 1);
        let k = w.len() - value.len() + 1;
        assert(number_of(start, el) == k);
        assert(string_of(sub, el) == substring_from(w, k));
        assert(!is_number(sub));
        assert(holds(e, el) == (substring_from(w, k) == value));
        if value.len() > w.len() {
            assert(substring_from(w, k) == w);
            assert(w != value);
        } else {
            assert(substring_from(w, k) =~= w.subrange(w.len() - value.len(), w.len() as int));
        }
        if !el.attrs.contains_key(name) {
            assert(w.len() == 0);
        }
    }
}

/// An attribute selector with the case flag `i`.
pub open spec fn folded_attr(name: Seq<char>, op: AttrOp, value: Seq<char>) -> SpecAttr {
    SpecAttr { name, op, value, case_insensitive: true }
}

/// With the case flag `i` and a non-empty `v`, the comparisons ignore ASCII
/// case: `[name="v" i]` holds exactly when the element has the attribute
/// and its text equals `v` once both are lower-cased, `[name^="v" i]` when
/// the lower-cased text starts with the lower-cased `v`, `[name*="v" i]`
/// when the lower-cased `v` occurs in it, and `[name|="v" i]` when it is the
/// lower-cased `v` or starts with it followed by `-`.
#[verifier::spinoff_prover]
#[verifier::rlimit(50)]
pub proof fn lemma_attribute_ignoring_case(name: Seq<char>, value: Seq<char>)
    requires
        value.len() > 0,
    ensures
        exists|e: XExpr|
            #![trigger render(e)]
            well_formed(e) && compile_attr(folded_attr(name, AttrOp::Exact, value)) == render(e)
                && forall|el: Element|
                holds(e, el) == (el.attrs.contains_key(name) && lower(el.attrs[name]) == lower(
                    value,
                )),
        exists|e: XExpr|
            #![trigger render(e)]
            well_formed(e) && compile_attr(folded_attr(name, AttrOp::Prefix, value)) == render(e)
                && forall|el: Element|
                holds(e, el) == (el.attrs.contains_key(name) && lower(value).is_prefix_of(
                    lower(el.attrs[name]),
                )),
        exists|e: XExpr|
            #![trigger render(e)]
            well_formed(e) && compile_attr(folded_attr(name, AttrOp::Substring, value)) == render(e)
                && forall|el: Element|
                holds(e, el) == (el.attrs.contains_key(name) && occurs_in(
                    lower(value),
                    lower(el.attrs[name]),
                )),
        exists|e: XExpr|
            #![trigger render(e)]
            well_formed(e) && compile_attr(folded_attr(name, AttrOp::Dash, value)) == render(e)
                && forall|el: Element|
                holds(e, el) == (el.attrs.contains_key(name) && (lower(el.attrs[name]) == lower(
                    value,
                ) || (lower(value) + seq!['-']).is_prefix_of(lower(el.attrs[name])))),
{
    lemma_attr_expr(name);
    lemma_value_expr(value);
    let at = XExpr::Attr(name);
    let v = XExpr::Str(xpath_string(value), value);
    let ta = XExpr::LowerAscii(Box::new(at));
    let tv = XExpr::LowerAscii(Box::new(v));
    assert(well_formed(at) && well_formed(v));
    assert(well_formed(ta) && well_formed(tv));
    let a = "@"@ + name;
    let x = xpath_string(value);
    assert(render(ta) == translate_lower(a));
    assert(render(tv) == translate_lower(x));
    assert forall|el: Element|
        string_of(ta, el) == lower(attr_text(el, name)) && string_of(tv, el) == lower(value) by {
        assert(string_of(at, el) == attr_text(el, name));
        assert(string_of(v, el) == value);
    }
    reveal_strlit(" = ");
    reveal_strlit("starts-with(");
    reveal_strlit("contains(");
    reveal_strlit(", ");
    reveal_strlit(")");
    // Exact
    let eq = XExpr::Equals(Box::new(ta), Box::new(tv), true);
    assert(render(eq) == render(ta) + " = "@ + render(tv));
    assert(well_formed(eq) && compile_attr(folded_attr(name, AttrOp::Exact, value)) == render(eq));
    assert forall|el: Element|
        holds(eq, el) == (el.attrs.contains_key(name) && lower(el.attrs[name]) == lower(value)) by {
        assert(!is_number(ta));
        if !el.attrs.contains_key(name) {
            assert(lower(attr_text(el, name)).len() == 0);
            assert(lower(value).len() == value.len());
        }
    }
    // Prefix
    let pre = XExpr::StartsWith(Box::new(ta), Box::new(tv));
    assert(render(pre) == "starts-with("@ + render(ta) + ", "@ + render(tv) + ")"@);
    assert(well_formed(pre) && compile_attr(folded_attr(name, AttrOp::Prefix, value)) == render(
        pre,
    ));
    assert forall|el: Element|
        holds(pre, el) == (el.attrs.contains_key(name) && lower(value).is_prefix_of(
            lower(el.attrs[name]),
        )) by {
        if !el.attrs.contains_key(name) {
            assert(lower(attr_text(el, name)).len() == 0);
            assert(lower(value).len() == value.len());
        }
    }
    // Substring
    let sub = XExpr::Contains(Box::new(ta), Box::new(tv));
    assert(render(sub) == "contains("@ + render(ta) + ", "@ + render(tv) + ")"@);
    assert(well_formed(sub) && compile_attr(folded_attr(name, AttrOp::Substring, value)) == render(
        sub,
    ));
    assert forall|el: Element|
        holds(sub, el) == (el.attrs.contains_key(name) && occurs_in(
            lower(value),
            lower(el.attrs[name]),
        )) by {
        if !el.attrs.contains_key(name) && occurs_in(lower(value), lower(attr_text(el, name))) {
            let t = lower(attr_text(el, name));
            let k = choose|k: int|
                0 <= k && k + lower(value).len() <= t.len() && #[trigger] t.subrange(
                    k,
                    k + lower(value).len(),
                ) == lower(value);
            assert(t.len() == 0);
            assert(lower(value).len() == value.len());
        }
    }
    // Dash
    reveal_strlit("'-'");
    reveal_strlit("-");
    reveal_strlit(" or starts-with(");
    reveal_strlit(" or ");
    reveal_strlit(", concat(");
    reveal_strlit("concat(");
    reveal_strlit(", '-'))");
    let hyphen = XExpr::Str("'-'"@, "-"@);
    assert("'-'"@.subrange(1, 2) =~= "-"@);
    assert(is_literal("'-'"@) && literal_value("'-'"@) == "-"@);
    assert(well_formed(hyphen));
    let cat = XExpr::Concat(Box::new(tv), Box::new(hyphen));
    let pre2 = XExpr::StartsWith(Box::new(ta), Box::new(cat));
    let dash = XExpr::Or(Box::new(eq), Box::new(pre2));
    assert(render(hyphen) == "'-'"@);
    assert(render(cat) == "concat("@ + render(tv) + ", "@ + "'-'"@ + ")"@);
    assert(render(pre2) == "starts-with("@ + render(ta) + ", "@ + render(cat) + ")"@);
    assert(render(dash) == render(eq) + " or "@ + render(pre2));
    assert(render(dash) =~= translate_lower(a) + " = "@ + translate_lower(x) + " or starts-with("@
        + translate_lower(a) + ", concat("@ + translate_lower(x) + ", '-'))"@);
    assert(well_formed(cat));
    assert(well_formed(pre2));
    assert(well_formed(dash) && compile_attr(folded_attr(name, AttrOp::Dash, value)) == render(
        dash,
    ));
    assert forall|el: Element|
        holds(dash, el) == (el.attrs.contains_key(name) && (lower(el.attrs[name]) == lower(value)
            || (lower(value) + seq!['-']).is_prefix_of(lower(el.attrs[name])))) by {
        assert(string_of(v, el) == value);
        assert(string_of(tv, el) == lower(value));
        assert(string_of(at, el) == attr_text(el, name));
        assert(string_of(ta, el) == lower(attr_text(el, name)));
        assert(string_of(hyphen, el) == "-"@);
        assert("-"@ =~= seq!['-']);
        assert(string_of(cat, el) == lower(value) + seq!['-']);
        assert(holds(eq, el) == (el.attrs.contains_key(name) && lower(el.attrs[name]) == lower(
            value,
        )));
        assert(holds(pre2, el) == (lower(value) + seq!['-']).is_prefix_of(
            lower(attr_text(el, name)),
        ));
        if !el.attrs.contains_key(name) {
            assert(lower(attr_text(el, name)).len() == 0);
            assert((lower(value) + seq!['-']).len() > 0);
            assert(!(lower(value) + seq!['-']).is_prefix_of(lower(attr_text(el, name))));
        }
    }
}

/// `:nth-of-type(an+b)` holds of exactly the elements whose 1-based index
/// among their siblings of the same type (named `tag`; any element for `*`)
/// is `a*n + b` for some `n >= 0`, and `:nth-last-of-type(an+b)` likewise
/// with the index counted from the last such sibling.
#[verifier::spinoff_prover]
#[verifier::rlimit(50)]
pub proof fn lemma_nth_of_type_positions(a: i32, b: i32, tag: Seq<char>)
    requires
        a != i32::MIN,
    ensures
        exists|e: XExpr|
            #![trigger render(e)]
            well_formed(e) && compile_pseudo_class(SpecPseudo::NthOfType { a, b }, tag) == Some(
                render(e),
            ) && forall|el: Element|
                holds(e, el) == nth_selects((a, b), preceding_of_type(el, tag) + 1),
        exists|e: XExpr|
            #![trigger render(e)]
            well_formed(e) && compile_pseudo_class(SpecPseudo::NthLastOfType { a, b }, tag) == Some(
                render(e),
            ) && forall|el: Element|
                holds(e, el) == nth_selects((a, b), following_of_type(el, tag) + 1),
{
    reveal_strlit("count(preceding-sibling::");
    reveal_strlit("count(following-sibling::");
    reveal_strlit(")");
    reveal_strlit(" + 1");
    reveal_strlit(") + 1");
    reveal_strlit(") + 1 = ");
    reveal_strlit(") + 1 - ");
    reveal_strlit(" = ");
    reveal_strlit(" - ");
    reveal_strlit(" and (");
    let p = XExpr::CountPrecedingNamed(tag);
    assert(well_formed(p) && is_number(p));
    let e1 = lemma_counted_nth(a, b, p, a as int);
    assert(render(p) + " + 1"@ =~= "count(preceding-sibling::"@ + tag + ") + 1"@);
    assert(nth_text(a, b, render(p) + " + 1"@, int_text(a as int)) =~= nth_type_to_xpath(
        a,
        b,
        tag,
        false,
    ));
    assert(forall|el: Element| number_of(p, el) == preceding_of_type(el, tag));
    assert(well_formed(e1) && compile_pseudo_class(SpecPseudo::NthOfType { a, b }, tag) == Some(
        render(e1),
    ));
    let f = XExpr::CountFollowingNamed(tag);
    assert(well_formed(f) && is_number(f));
    let e2 = lemma_counted_nth(a, b, f, a as int);
    assert(render(f) + " + 1"@ =~= "count(following-sibling::"@ + tag + ") + 1"@);
    assert(nth_text(a, b, render(f) + " + 1"@, int_text(a as int)) =~= nth_type_to_xpath(
        a,
        b,
        tag,
        true,
    ));
    assert(forall|el: Element| number_of(f, el) == following_of_type(el, tag));
    assert(well_formed(e2) && compile_pseudo_class(SpecPseudo::NthLastOfType { a, b }, tag) == Some(
        render(e2),
    ));
}

/// The words, each after a space, and a final space: ` w1 w2 ... wn `.
pub open spec fn spaced(ws: Seq<Seq<char>>) -> Seq<char>
    decreases ws.len(),
{
    if ws.len() == 0 {
        seq![' ']
    } else {
        spaced(ws.drop_last()) + ws.last() + seq![' ']
    }
}

/// Whether every word is non-empty and holds no XML whitespace.
pub open spec fn proper_words(ws: Seq<Seq<char>>) -> bool {
    forall|i: int| 0 <= i < ws.len() ==> (#[trigger] ws[i]).len() > 0 && no_space(ws[i])
}

proof fn lemma_words_fold_proper(s: Seq<char>, cur: Seq<char>, acc: Seq<Seq<char>>)
    requires
        proper_words(acc),
        no_space(cur),
    ensures
        proper_words(words_fold(s, cur, acc)),
    decreases s.len(),
{
    if s.len() == 0 {
        if cur.len() > 0 {
            assert(proper_words(acc.push(cur))) by {
                assert forall|i: int| 0 <= i < acc.push(cur).len() implies (#[trigger] acc.push(
                    cur,
                )[i]).len() > 0 && no_space(acc.push(cur)[i]) by {
                    if i < acc.len() {
                        assert(acc.push(cur)[i] == acc[i]);
                    }
                }
            }
        }
    } else if xml_space(s[0]) {
        let next = if cur.len() > 0 {
            acc.push(cur)
        } else {
            acc
        };
        assert(proper_words(next)) by {
            assert forall|i: int| 0 <= i < next.len() implies (#[trigger] next[i]).len() > 0
                && no_space(next[i]) by {
                if i < acc.len() {
                    assert(next[i] == acc[i]);
                }
            }
        }
        let empty: Seq<char> = seq![];
        assert(no_space(empty));
        lemma_words_fold_proper(s.drop_first(), empty, next);
    } else {
        let longer = cur.push(s[0]);
        assert(no_space(longer)) by {
            assert forall|i: int| 0 <= i < longer.len() implies !xml_space(#[trigger] longer[i]) by {
                if i < cur.len() {
                    assert(longer[i] == cur[i]);
                }
            }
        }
        lemma_words_fold_proper(s.drop_first(), longer, acc);
    }
}

proof fn lemma_spaced_join(ws: Seq<Seq<char>>)
    requires
        ws.len() > 0,
    ensures
        seq![' '] + join(ws, " "@) + seq![' '] == spaced(ws),
    decreases ws.len(),
{
    reveal_strlit(" ");
    if ws.len() == 1 {
        assert(ws.drop_last() =~= Seq::<Seq<char>>::empty());
        assert(spaced(ws.drop_last()) == seq![' ']);
        assert(seq![' '] + ws[0] + seq![' '] =~= seq![' '] + ws.last() + seq![' ']);
    } else {
        lemma_spaced_join(ws.drop_last());
        assert(join(ws, " "@) == join(ws.drop_last(), " "@) + " "@ + ws.last());
        assert(" "@ =~= seq![' ']);
        assert(seq![' '] + join(ws, " "@) + seq![' '] =~= (seq![' '] + join(ws.drop_last(), " "@)
            + seq![' ']) + ws.last() + seq![' ']);
    }
}

proof fn lemma_spaced_shape(ws: Seq<Seq<char>>)
    ensures
        spaced(ws).len() >= 1,
        spaced(ws)[spaced(ws).len() - 1] == ' ',
    decreases ws.len(),
{
    if ws.len() > 0 {
        lemma_spaced_shape(ws.drop_last());
    }
}

/// A word of the list occurs, with a space on each side, in the spaced list.
proof fn lemma_word_occurs(ws: Seq<Seq<char>>, v: Seq<char>)
    requires
        ws.contains(v),
    ensures
        occurs_in(seq![' '] + v + seq![' '], spaced(ws)),
    decreases ws.len(),
{
    let t = seq![' '] + v + seq![' '];
    let dl = ws.drop_last();
    let p = spaced(dl);
    lemma_spaced_shape(dl);
    let full = spaced(ws);
    assert(full == p + ws.last() + seq![' ']);
    if ws.last() == v {
        let k = p.len() - 1;
        assert(full.subrange(k, k + t.len()) =~= t);
    } else {
        let i = choose|i: int| 0 <= i < ws.len() && ws[i] == v;
        assert(i < dl.len());
        assert(dl[i] == v);
        assert(dl.contains(v));
        lemma_word_occurs(dl, v);
        let k = choose|k: int|
            0 <= k && k + t.len() <= p.len() && #[trigger] p.subrange(k, k + t.len()) == t;
        assert(full.subrange(k, k + t.len()) =~= p.subrange(k, k + t.len()));
    }
}

/// A word without whitespace that occurs, with a space on each side, in the
/// spaced list of proper words is one of the words.
proof fn lemma_occurrence_is_word(ws: Seq<Seq<char>>, v: Seq<char>)
    requires
        proper_words(ws),
        v.len() > 0,
        no_space(v),
        occurs_in(seq![' '] + v + seq![' '], spaced(ws)),
    ensures
        ws.contains(v),
    decreases ws.len(),
{
    let t = seq![' '] + v + seq![' '];
    let full = spaced(ws);
    let k = choose|k: int|
        0 <= k && k + t.len() <= full.len() && #[trigger] full.subrange(k, k + t.len()) == t;
    if ws.len() == 0 {
        assert(full.len() == 1);
    } else {
        let dl = ws.drop_last();
        let x = ws.last();
        let p = spaced(dl);
        lemma_spaced_shape(dl);
        assert(full == p + x + seq![' ']);
        assert(proper_words(dl)) by {
            assert forall|i: int| 0 <= i < dl.len() implies (#[trigger] dl[i]).len() > 0 && no_space(
                dl[i],
            ) by {
                assert(dl[i] == ws[i]);
            }
        }
        assert(x == ws[ws.len() - 1]);
        assert(x.len() > 0 && no_space(x));
        let L = p.len();
        let e = k + t.len() - 1;
        assert(full[e] == t[t.len() - 1]);
        assert(full[e] == ' ');
        if k + t.len() <= L {
            assert(p.subrange(k, k + t.len()) =~= full.subrange(k, k + t.len()));
            lemma_occurrence_is_word(dl, v);
            let i = choose|i: int| 0 <= i < dl.len() && dl[i] == v;
            assert(ws[i] == v);
        } else {
            if e < L + x.len() {
                assert(full[e] == x[e - L]);
                assert(!xml_space(x[e - L]));
            }
            assert(e == L + x.len());
            assert(full[k] == t[0]);
            if v.len() < x.len() {
                assert(k >= L);
                assert(full[k] == x[k - L]);
                assert(!xml_space(x[k - L]));
            } else if v.len() > x.len() {
                assert(k < L - 1);
                let j = L - 1 - k;
                assert(1 <= j <= v.len());
                assert(full[L - 1] == p[L - 1]);
                assert(full[k + j] == t[j]);
                assert(t[j] == v[j - 1]);
                assert(!xml_space(v[j - 1]));
            } else {
                assert(k == L - 1);
                assert forall|i: int| 0 <= i < v.len() implies v[i] == x[i] by {
                    assert(full[k + 1 + i] == t[1 + i]);
                    assert(full[L + i] == x[i]);
                }
                assert(v =~= x);
                assert(ws[ws.len() - 1] == v);
            }
        }
    }
}

/// The word test `contains(concat(' ', normalize-space(@name), ' '), ' v ')`
/// as an expression.
proof fn lemma_word_test(name: Seq<char>, value: Seq<char>) -> (e: XExpr)
    requires
        value.len() > 0,
        no_space(value),
    ensures
        well_formed(e),
        render(e) == "contains(concat(' ', normalize-space("@ + ("@"@ + name) + "), ' '), "@
            + xpath_string(" "@ + value + " "@) + ")"@,
        forall|el: Element|
            holds(e, el) == (el.attrs.contains_key(name) && words(el.attrs[name]).contains(value)),
{
    reveal_strlit("contains(concat(' ', normalize-space(");
    reveal_strlit("), ' '), ");
    reveal_strlit("contains(");
    reveal_strlit("concat(");
    reveal_strlit("normalize-space(");
    reveal_strlit("' '");
    reveal_strlit(", ");
    reveal_strlit(")");
    reveal_strlit(" ");
    lemma_attr_expr(name);
    let padded = " "@ + value + " "@;
    lemma_value_expr(padded);
    let sp = XExpr::Str("' '"@, " "@);
    assert("' '"@.subrange(1, 2) =~= " "@);
    assert(is_literal("' '"@) && literal_value("' '"@) == " "@);
    assert(well_formed(sp));
    let at = XExpr::Attr(name);
    let ns = XExpr::NormalizeSpace(Box::new(at));
    let cat = XExpr::Concat3(Box::new(sp), Box::new(ns), Box::new(sp));
    let v = XExpr::Str(xpath_string(padded), padded);
    let e = XExpr::Contains(Box::new(cat), Box::new(v));
    assert(render(sp) == "' '"@);
    assert(render(ns) == "normalize-space("@ + ("@"@ + name) + ")"@);
    assert(render(cat) == "concat("@ + render(sp) + ", "@ + render(ns) + ", "@ + render(sp) + ")"@);
    assert(render(e) == "contains("@ + render(cat) + ", "@ + render(v) + ")"@);
    assert(render(e) =~= "contains(concat(' ', normalize-space("@ + ("@"@ + name) + "), ' '), "@
        + xpath_string(padded) + ")"@);
    assert(well_formed(at) && well_formed(ns));
    assert(well_formed(cat));
    assert(well_formed(e));
    assert(" "@ =~= seq![' ']);
    assert(padded =~= seq![' '] + value + seq![' ']);
    assert forall|el: Element|
        holds(e, el) == (el.attrs.contains_key(name) && words(el.attrs[name]).contains(value)) by {
        let w = attr_text(el, name);
        let ws = words(w);
        let empty_word: Seq<char> = seq![];
        let no_words: Seq<Seq<char>> = seq![];
        assert(no_space(empty_word));
        lemma_words_fold_proper(w, empty_word, no_words);
        assert(string_of(at, el) == w);
        assert(string_of(ns, el) == normalize_space(w));
        assert(string_of(sp, el) == " "@);
        assert(string_of(cat, el) == seq![' '] + join(ws, " "@) + seq![' ']);
        assert(string_of(v, el) == padded);
        assert(holds(e, el) == occurs_in(padded, string_of(cat, el)));
        if ws.len() > 0 {
            lemma_spaced_join(ws);
            if occurs_in(padded, spaced(ws)) {
                lemma_occurrence_is_word(ws, value);
            }
            if ws.contains(value) {
                lemma_word_occurs(ws, value);
            }
        } else {
            assert(join(ws, " "@) =~= Seq::<char>::empty());
            assert(string_of(cat, el).len() == 2);
            if occurs_in(padded, string_of(cat, el)) {
                let k = choose|k: int|
                    0 <= k && k + padded.len() <= string_of(cat, el).len() && #[trigger] string_of(
                        cat,
                        el,
                    ).subrange(k, k + padded.len()) == padded;
            }
            assert(!ws.contains(value));
        }
        if !el.attrs.contains_key(name) {
            assert(w.len() == 0);
            assert(ws =~= Seq::<Seq<char>>::empty());
        }
    }
    e
}

/// For a word `v` (non-empty, without whitespace), `[name~="v"]` holds of an
/// element exactly when it has the attribute and `v` is one of its
/// whitespace-separated words.
pub proof fn lemma_attribute_word(name: Seq<char>, value: Seq<char>)
    requires
        value.len() > 0,
        no_space(value),
    ensures
        exists|e: XExpr|
            #![trigger render(e)]
            well_formed(e) && compile_attr(plain_attr(name, AttrOp::Include, value)) == render(e)
                && forall|el: Element|
                holds(e, el) == (el.attrs.contains_key(name) && words(el.attrs[name]).contains(
                    value,
                )),
{
    let e = lemma_word_test(name, value);
    assert(well_formed(e) && compile_attr(plain_attr(name, AttrOp::Include, value)) == render(e));
}

/// For a class name `c` (non-empty, without whitespace), the predicate for
/// `.c` holds of an element exactly when `c` is one of the
/// whitespace-separated words of its `class` attribute.
pub proof fn lemma_class_predicate(class: Seq<char>)
    requires
        class.len() > 0,
        no_space(class),
    ensures
        exists|e: XExpr|
            #![trigger render(e)]
            well_formed(e) && class_pred(class) == render(e) && forall|el: Element|
                holds(e, el) == (el.attrs.contains_key("class"@) && words(
                    el.attrs["class"@],
                ).contains(class)),
{
    reveal_strlit("contains(concat(' ', normalize-space(@class), ' '), ");
    reveal_strlit("contains(concat(' ', normalize-space(");
    reveal_strlit("), ' '), ");
    reveal_strlit("@");
    reveal_strlit("class");
    let e = lemma_word_test("class"@, class);
    assert(class_pred(class) =~= render(e));
}

} // verus!
