//! What the XPath compiler gives for a selector syntax tree.
use vstd::prelude::*;

use super::ast::{SpecAttr, SpecCompound, SpecPseudo, SpecSelector, SpecSelectorList};
use super::parser::{AttrOp, Combinator};
use super::text::int_text;

verus! {

/// The strings of `ps`, with `sep` between each two.
pub open spec fn join(ps: Seq<Seq<char>>, sep: Seq<char>) -> Seq<char>
    decreases ps.len(),
{
    if ps.len() == 0 {
        seq![]
    } else if ps.len() == 1 {
        ps[0]
    } else {
        join(ps.drop_last(), sep) + sep + ps.last()
    }
}

/// `s` between single quotes.
pub open spec fn single_quoted(s: Seq<char>) -> Seq<char> {
    "'"@ + s + "'"@
}

/// The pieces of an XPath `concat()` for text that holds single quotes.
/// Reading `s` one character at a time: a single quote closes the current
/// run (if any) and adds `"'"`; a double quote met while `use_single` holds
/// likewise closes the current run and adds `'"'`; any other character
/// extends the run. Returns the pieces, the open run and
/// the final `use_single`.
pub open spec fn quote_fold(
    s: Seq<char>,
    parts: Seq<Seq<char>>,
    cur: Seq<char>,
    use_single: bool,
) -> (Seq<Seq<char>>, Seq<char>, bool)
    decreases s.len(),
{
    if s.len() == 0 {
        (parts, cur, use_single)
    } else {
        let c = s[0];
        if c == '\'' {
            let closed = if cur.len() > 0 {
                parts.push(single_quoted(cur))
            } else {
                parts
            };
            quote_fold(s.drop_first(), closed.push("\"'\""@), seq![], true)
        } else if c == '"' && use_single {
            let closed = if cur.len() > 0 {
                parts.push(single_quoted(cur))
            } else {
                parts
            };
            quote_fold(s.drop_first(), closed.push("'\"'"@), seq![], false)
        } else {
            quote_fold(s.drop_first(), parts, cur.push(c), use_single)
        }
    }
}

/// The pieces for `s`, with the last open run closed.
pub open spec fn quote_parts(s: Seq<char>) -> Seq<Seq<char>> {
    let r = quote_fold(s, seq![], seq![], true);
    if r.1.len() > 0 {
        r.0.push(single_quoted(r.1))
    } else {
        r.0
    }
}

/// One piece as it is, several as `concat(a, b, ...)`.
pub open spec fn concat_of(parts: Seq<Seq<char>>) -> Seq<char> {
    if parts.len() == 1 {
        parts[0]
    } else {
        "concat("@ + join(parts, ", "@) + ")"@
    }
}

/// An XPath string literal for `s`: single-quoted when `s` holds no single
/// quote, else a `concat()` of quoted runs and `"'"`.
pub open spec fn xpath_string(s: Seq<char>) -> Seq<char> {
    if !s.contains('\'') {
        single_quoted(s)
    } else {
        concat_of(quote_parts(s))
    }
}

/// `translate(x, 'A..Z', 'a..z')`: `x` lower-cased in XPath.
pub open spec fn translate_lower(x: Seq<char>) -> Seq<char> {
    "translate("@ + x + ", 'ABCDEFGHIJKLMNOPQRSTUVWXYZ', 'abcdefghijklmnopqrstuvwxyz')"@
}

/// The XPath predicate of an attribute selector.
pub open spec fn compile_attr(attr: SpecAttr) -> Seq<char> {
    let at = "@"@ + attr.name;
    let val = xpath_string(attr.value);
    if attr.case_insensitive {
        let ta = translate_lower(at);
        let tv = translate_lower(val);
        match attr.op {
            AttrOp::Present => at,
            AttrOp::Exact => ta + " = "@ + tv,
            AttrOp::Prefix => "starts-with("@ + ta + ", "@ + tv + ")"@,
            AttrOp::Suffix => "substring("@ + ta + ", string-length("@ + ta + ") - string-length("@
                + tv + ") + 1) = "@ + tv,
            AttrOp::Substring => "contains("@ + ta + ", "@ + tv + ")"@,
            AttrOp::Include => "contains(concat(' ', normalize-space("@ + ta + "), ' '), "@
                + translate_lower(xpath_string(" "@ + attr.value + " "@)) + ")"@,
            AttrOp::Dash => ta + " = "@ + tv + " or starts-with("@ + ta + ", concat("@ + tv
                + ", '-'))"@,
        }
    } else {
        match attr.op {
            AttrOp::Present => at,
            AttrOp::Exact => at + "="@ + val,
            AttrOp::Prefix => "starts-with("@ + at + ", "@ + val + ")"@,
            AttrOp::Suffix => "substring("@ + at + ", string-length("@ + at + ") - string-length("@
                + val + ") + 1) = "@ + val,
            AttrOp::Substring => "contains("@ + at + ", "@ + val + ")"@,
            AttrOp::Include => "contains(concat(' ', normalize-space("@ + at + "), ' '), "@
                + xpath_string(" "@ + attr.value + " "@) + ")"@,
            AttrOp::Dash => at + "="@ + val + " or starts-with("@ + at + ", concat("@ + val
                + ", '-'))"@,
        }
    }
}

/// `|a|` in two's complement, where `|i32::MIN|` is `i32::MIN` again.
pub open spec fn abs_wrap(a: i32) -> i32 {
    if a == i32::MIN {
        a
    } else if a < 0 {
        (-a) as i32
    } else {
        a
    }
}

/// The comparison that bounds the index `i` by `b` in `i = an+b` (`n >= 0`):
/// `i >= b` for a positive `a`, `i <= b` for a negative one.
pub open spec fn nth_bound(a: i32) -> Seq<char> {
    if a < 0 {
        " <= "@
    } else {
        " >= "@
    }
}

/// The predicate for `:nth-child(an+b)` (or `:nth-last-child` when
/// `from_end` holds), over the 1-based index among the siblings.
pub open spec fn nth_to_xpath(a: i32, b: i32, from_end: bool) -> Seq<char> {
    let count = if from_end {
        "count(following-sibling::*) + 1"@
    } else {
        "count(preceding-sibling::*) + 1"@
    };
    if a == 0 {
        count + " = "@ + int_text(b as int)
    } else {
        count + nth_bound(a) + int_text(b as int) + " and ("@ + count + " - "@ + int_text(b as int)
            + ") mod "@ + int_text(abs_wrap(a) as int) + " = 0"@
    }
}

/// The predicate for `:nth-of-type(an+b)` (or `:nth-last-of-type` when
/// `from_end` holds) on elements named `tag`.
pub open spec fn nth_type_to_xpath(a: i32, b: i32, tag: Seq<char>, from_end: bool) -> Seq<char> {
    let axis = if from_end {
        "count(following-sibling::"@
    } else {
        "count(preceding-sibling::"@
    };
    if a == 0 {
        axis + tag + ") + 1 = "@ + int_text(b as int)
    } else {
        axis + tag + ") + 1"@ + nth_bound(a) + int_text(b as int) + " and ("@ + axis + tag + ") + 1 - "@
            + int_text(b as int) + ") mod "@ + int_text(a as int) + " = 0"@
    }
}

/// The node test of a compound selector: its tag, or `*`.
pub open spec fn tag_of(cs: SpecCompound) -> Seq<char> {
    match cs.tag {
        Some(t) => t,
        None => "*"@,
    }
}

/// The predicate for an id.
pub open spec fn id_pred(id: Seq<char>) -> Seq<char> {
    "@id="@ + xpath_string(id)
}

/// The predicate for a class.
pub open spec fn class_pred(class: Seq<char>) -> Seq<char> {
    "contains(concat(' ', normalize-space(@class), ' '), "@ + xpath_string(" "@ + class + " "@)
        + ")"@
}

/// The predicates for an optional id.
pub open spec fn id_preds(id: Option<Seq<char>>) -> Seq<Seq<char>> {
    match id {
        Some(i) => seq![id_pred(i)],
        None => seq![],
    }
}

/// An XPath step: the node test followed by each predicate in brackets;
/// a bare `*` becomes `node()`.
pub open spec fn build_step(tag: Seq<char>, preds: Seq<Seq<char>>) -> Seq<char> {
    if preds.len() == 0 {
        if tag == "*"@ {
            "node()"@
        } else {
            tag
        }
    } else {
        tag + bracketed(preds)
    }
}

/// Each predicate in brackets, one after the other.
pub open spec fn bracketed(preds: Seq<Seq<char>>) -> Seq<char>
    decreases preds.len(),
{
    if preds.len() == 0 {
        seq![]
    } else {
        bracketed(preds.drop_last()) + "["@ + preds.last() + "]"@
    }
}

/// The node test and predicates of a compound selector: the id first, then
/// the classes, the attributes and the pseudo-classes, in order.
pub open spec fn compile_compound(cs: SpecCompound) -> (Seq<char>, Seq<Seq<char>>)
    decreases cs,
{
    let tag = tag_of(cs);
    (
        tag,
        id_preds(cs.id) + cs.classes.map_values(|c: Seq<char>| class_pred(c))
            + cs.attrs.map_values(|a: SpecAttr| compile_attr(a)) + pseudo_preds(
            cs.pseudo_classes,
            tag,
        ),
    )
}

/// The predicates of the pseudo-classes that have one.
pub open spec fn pseudo_preds(ps: Seq<SpecPseudo>, tag: Seq<char>) -> Seq<Seq<char>>
    decreases ps,
{
    if ps.len() == 0 {
        seq![]
    } else {
        let rest = pseudo_preds(ps.subrange(0, ps.len() - 1), tag);
        match compile_pseudo_class(ps[ps.len() - 1], tag) {
            Some(p) => rest.push(p),
            None => rest,
        }
    }
}

/// A predicate in parentheses.
pub open spec fn parenthesized(p: Seq<char>) -> Seq<char> {
    "("@ + p + ")"@
}

/// The conditions under which an element matches a compound selector with
/// node test `tag` and predicates `preds`, all on the element itself: `self::tag`
/// (none for `*`), then each predicate in parentheses. A positional predicate
/// such as `position() = 1` keeps its meaning, since it is not moved onto
/// another axis.
pub open spec fn match_conditions(tag: Seq<char>, preds: Seq<Seq<char>>) -> Seq<Seq<char>> {
    (if tag == "*"@ {
        seq![]
    } else {
        seq!["self::"@ + tag]
    }) + preds.map_values(|p: Seq<char>| parenthesized(p))
}

/// The predicate that an element does not match the compound selector:
/// `not(c1 and c2 ...)` of its [`match_conditions`], or `false()` for a
/// compound that every element matches.
pub open spec fn negation(tag: Seq<char>, preds: Seq<Seq<char>>) -> Seq<char> {
    let conds = match_conditions(tag, preds);
    if conds.len() == 0 {
        "false()"@
    } else {
        "not("@ + join(conds, " and "@) + ")"@
    }
}

/// `:not(inner)` tests, on the element itself, the same node test and
/// predicates that `inner` would: it is `not(...)` of the conjunction of
/// those conditions (or `false()` when there are none), and every predicate
/// of `inner` is one of them, unchanged but for its parentheses.
pub proof fn lemma_not_negates_own_conditions(inner: SpecCompound, tag: Seq<char>)
    ensures
        ({
            let c = compile_compound(inner);
            let conds = match_conditions(c.0, c.1);
            &&& compile_pseudo_class(SpecPseudo::Not(Box::new(inner)), tag) == Some(negation(c.0, c.1))
            &&& negation(c.0, c.1) == if conds.len() == 0 {
                "false()"@
            } else {
                "not("@ + join(conds, " and "@) + ")"@
            }
            &&& forall|i: int| 0 <= i < c.1.len() ==> conds.contains(parenthesized(#[trigger] c.1[i]))
        }),
{
    let c = compile_compound(inner);
    let conds = match_conditions(c.0, c.1);
    let head: Seq<Seq<char>> = if c.0 == "*"@ {
        seq![]
    } else {
        seq!["self::"@ + c.0]
    };
    assert forall|i: int| 0 <= i < c.1.len() implies conds.contains(parenthesized(#[trigger] c.1[i])) by {
        assert(conds[head.len() + i] == parenthesized(c.1[i]));
    }
}

/// The predicate of a pseudo-class on elements named `tag`, or `None` for
/// those that XPath 1.0 cannot express (or that `:is()` handles). `:has()`
/// holds when a descendant matches one of its alternatives.
pub open spec fn compile_pseudo_class(pc: SpecPseudo, tag: Seq<char>) -> Option<Seq<char>>
    decreases pc,
{
    match pc {
        SpecPseudo::FirstChild => Some("position() = 1"@),
        SpecPseudo::LastChild => Some("position() = last()"@),
        SpecPseudo::FirstOfType => Some("not(preceding-sibling::"@ + tag + ")"@),
        SpecPseudo::LastOfType => Some("not(following-sibling::"@ + tag + ")"@),
        SpecPseudo::OnlyChild => Some("count(../*) = 1"@),
        SpecPseudo::OnlyOfType => Some("count(../"@ + tag + ") = 1"@),
        SpecPseudo::Empty => Some("not(node())"@),
        SpecPseudo::Root => Some("not(parent::*)"@),
        SpecPseudo::NthChild { a, b } => Some(nth_to_xpath(a, b, false)),
        SpecPseudo::NthLastChild { a, b } => Some(nth_to_xpath(a, b, true)),
        SpecPseudo::NthOfType { a, b } => Some(nth_type_to_xpath(a, b, tag, false)),
        SpecPseudo::NthLastOfType { a, b } => Some(nth_type_to_xpath(a, b, tag, true)),
        SpecPseudo::Not(inner) => {
            let c = compile_compound(*inner);
            Some(negation(c.0, c.1))
        },
        SpecPseudo::Lang(l) => Some(
            "ancestor-or-self::*[@lang][1]/@lang = "@ + xpath_string(l)
                + " or starts-with(ancestor-or-self::*[@lang][1]/@lang, concat("@ + xpath_string(l)
                + ", '-'))"@,
        ),
        SpecPseudo::Enabled => Some("not(@disabled)"@),
        SpecPseudo::Disabled => Some("@disabled"@),
        SpecPseudo::Checked => Some("(@checked or @selected)"@),
        SpecPseudo::Indeterminate => Some("@indeterminate"@),
        SpecPseudo::Required => Some("@required"@),
        SpecPseudo::Optional => Some("not(@required)"@),
        SpecPseudo::ReadOnly => Some("@readonly"@),
        SpecPseudo::ReadWrite => Some("not(@readonly)"@),
        SpecPseudo::Valid => Some("not(@aria-invalid)"@),
        SpecPseudo::Invalid => Some("@aria-invalid"@),
        SpecPseudo::Has(chains) => {
            let alts = has_alternatives(chains);
            if alts.len() > 0 {
                Some(join(alts, " or "@))
            } else {
                None
            }
        },
        _ => None,
    }
}

/// The steps of a chain inside `:has()`, each after `//` (every combinator
/// inside `:has()` is read as descendant).
pub open spec fn has_steps(chain: Seq<SpecCompound>) -> Seq<char>
    decreases chain,
{
    if chain.len() == 0 {
        seq![]
    } else {
        let c = compile_compound(chain[chain.len() - 1]);
        has_steps(chain.subrange(0, chain.len() - 1)) + "//"@ + build_step(c.0, c.1)
    }
}

/// The alternatives of a `:has()`: for each non-empty chain, the relative
/// path `.//s1//s2...` to a descendant that matches it.
pub open spec fn has_alternatives(chains: Seq<Seq<SpecCompound>>) -> Seq<Seq<char>>
    decreases chains,
{
    if chains.len() == 0 {
        seq![]
    } else {
        let rest = has_alternatives(chains.subrange(0, chains.len() - 1));
        let last = chains[chains.len() - 1];
        if last.len() == 0 {
            rest
        } else {
            rest.push("."@ + has_steps(last))
        }
    }
}

/// The XPath step of a compound selector.
pub open spec fn compound_step(cs: SpecCompound) -> Seq<char> {
    let c = compile_compound(cs);
    build_step(c.0, c.1)
}

/// The steps of a chain inside `:is()`.
pub open spec fn chain_steps(chain: Seq<SpecCompound>) -> Seq<Seq<char>> {
    chain.map_values(|c: SpecCompound| compound_step(c))
}

/// The condition that the context element has ancestors matching `steps`,
/// nearest last: `[ancestor::s_k[ancestor::s_(k-1)[...]]]`.
pub open spec fn within(steps: Seq<Seq<char>>) -> Seq<char>
    decreases steps.len(),
{
    if steps.len() == 0 {
        seq![]
    } else {
        "[ancestor::"@ + steps.last() + within(steps.drop_last()) + "]"@
    }
}

/// The test that the context element matches a chain of descendant steps:
/// it is the last step, inside the others.
pub open spec fn alt_test(steps: Seq<Seq<char>>) -> Seq<char> {
    "self::"@ + steps.last() + within(steps.drop_last())
}

/// The alternatives of an `:is()`: for each non-empty chain, the test that
/// the element matches it.
pub open spec fn is_alternatives(chains: Seq<Seq<SpecCompound>>) -> Seq<Seq<char>>
    decreases chains.len(),
{
    if chains.len() == 0 {
        seq![]
    } else {
        let rest = is_alternatives(chains.drop_last());
        if chains.last().len() == 0 {
            rest
        } else {
            rest.push(alt_test(chain_steps(chains.last())))
        }
    }
}

/// The chains of the first `:is()` among the pseudo-classes, if any.
pub open spec fn first_is(ps: Seq<SpecPseudo>) -> Option<Seq<Seq<SpecCompound>>>
    decreases ps.len(),
{
    if ps.len() == 0 {
        None
    } else {
        match ps[0] {
            SpecPseudo::Is(chains) => Some(chains),
            _ => first_is(ps.drop_first()),
        }
    }
}

/// The XPath step of one part of a selector chain: for a compound selector
/// with an `:is()`, its own step with one more predicate, that the element
/// matches one of the alternatives (none when it has no alternative); else
/// the compound selector's own step.
pub open spec fn part_step(cs: SpecCompound) -> Option<Seq<char>> {
    match first_is(cs.pseudo_classes) {
        Some(chains) => {
            let alts = is_alternatives(chains);
            if alts.len() > 0 {
                let c = compile_compound(cs);
                Some(build_step(c.0, c.1.push(join(alts, " or "@))))
            } else {
                None
            }
        },
        None => Some(compound_step(cs)),
    }
}

/// The axis that reaches a part from the one before it.
pub open spec fn separator(c: Combinator) -> Seq<char> {
    match c {
        Combinator::Start => "//"@,
        Combinator::Descendant => "//"@,
        Combinator::Child => "/"@,
        Combinator::Adjacent => "/following-sibling::*[1]/self::"@,
        Combinator::Sibling => "/following-sibling::"@,
    }
}

/// Every part of the chain has a step. (A part whose `:is()` has no
/// alternative has none.)
pub open spec fn selector_compiles(sel: SpecSelector) -> bool {
    forall|i: int| 0 <= i < sel.parts.len() ==> (#[trigger] part_step(sel.parts[i].1)) is Some
}

/// Every selector of the list compiles.
pub open spec fn list_compiles(list: SpecSelectorList) -> bool {
    forall|i: int| 0 <= i < list.selectors.len() ==> selector_compiles(#[trigger] list.selectors[i])
}

/// The path of the first `n` parts of a chain: the first step, then each
/// further step after the separator of its combinator.
pub open spec fn path_of(parts: Seq<(Combinator, SpecCompound)>, n: int) -> Seq<char>
    decreases n,
{
    if n <= 0 {
        seq![]
    } else if n == 1 {
        part_step(parts[0].1).unwrap()
    } else {
        path_of(parts, n - 1) + separator(parts[n - 1].0) + part_step(parts[n - 1].1).unwrap()
    }
}

/// The XPath expression of a selector chain: its path after `//` (empty
/// for a chain without parts).
pub open spec fn compile_selector(sel: SpecSelector) -> Seq<char> {
    if sel.parts.len() == 0 {
        seq![]
    } else {
        "//"@ + path_of(sel.parts, sel.parts.len() as int)
    }
}

/// The XPath expression of a selector list: the expressions of its
/// selectors joined by ` | `.
pub open spec fn compile_list(list: SpecSelectorList) -> Seq<char> {
    join(list.selectors.map_values(|s: SpecSelector| compile_selector(s)), " | "@)
}

} // verus!
