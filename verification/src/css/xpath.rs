//! CSS selector syntax tree → XPath 1.0 expression compiler.
//!
//! Translates a parsed [`SelectorList`] into an XPath expression string that
//! an XPath 1.0 engine can evaluate; `xpath_spec` states the result.
use vstd::prelude::*;

use super::ast::{
    compound_view, lemma_chain_view, lemma_chains_view, lemma_pseudos_view, parts_view,
    pseudo_view, selectors_view, strings_view, SpecAttr, SpecCompound, SpecPseudo,
    SpecSelectorList,
};
use super::parser::{
    AttrOp, AttributeSelector, Combinator, CompoundSelector, PseudoClass, Selector, SelectorList,
};
use super::literal::{denotes, lemma_xpath_string_denotes};
use super::text::{chars_of, has_char, i32_text, int_text, push_char, push_chars};
use super::xpath_spec::{
    abs_wrap, alt_test, bracketed, build_step, chain_steps, class_pred, compile_attr, compile_compound,
    compile_list, compile_pseudo_class, compile_selector, compound_step, concat_of, first_is,
    has_alternatives, has_steps, id_pred, id_preds, is_alternatives, negation, parenthesized, join, list_compiles, nth_to_xpath, nth_type_to_xpath,
    part_step, path_of, pseudo_preds, quote_fold, quote_parts, selector_compiles, separator,
    single_quoted, tag_of, translate_lower, within, xpath_string,
};

verus! {

// ── Strings ─────────────────────────────────────────────────────────────────
proof fn lemma_join_step(ps: Seq<Seq<char>>, sep: Seq<char>, i: int)
    requires
        1 <= i < ps.len(),
    ensures
        join(ps.take(i + 1), sep) == join(ps.take(i), sep) + sep + ps[i],
{
    assert(ps.take(i + 1).drop_last() =~= ps.take(i));
}

/// The strings of `parts`, with `sep` between each two.
pub fn join_strings(parts: &Vec<String>, sep: &str) -> (r: String)
    ensures
        r@ == join(strings_view(parts@), sep@),
{
    let ghost ps = strings_view(parts@);
    let mut r = String::new();
    if parts.len() == 0 {
        return r;
    }
    r.append(parts[0].as_str());
    assert(ps.take(1) =~= seq![ps[0]]);
    let mut i: usize = 1;
    while i < parts.len()
        invariant
            1 <= i <= parts.len(),
            ps == strings_view(parts@),
            r@ == join(ps.take(i as int), sep@),
        decreases parts.len() - i,
    {
        proof {
            lemma_join_step(ps, sep@, i as int);
        }
        r.append(sep);
        r.append(parts[i].as_str());
        i += 1;
    }
    assert(ps.take(parts.len() as int) =~= ps);
    r
}

fn quoted(s: &Vec<char>) -> (r: String)
    ensures
        r@ == single_quoted(s@),
{
    let mut r = String::from_str("'");
    push_chars(&mut r, s);
    r.append("'");
    assert(r@ =~= single_quoted(s@));
    r
}

proof fn lemma_strings_push(v: Seq<String>, s: String)
    ensures
        strings_view(v.push(s)) == strings_view(v).push(s@),
{
    assert(strings_view(v.push(s)) =~= strings_view(v).push(s@));
}

/// The pieces of a `concat()` for `s` (see `quote_parts`).
pub(crate) fn quote_pieces(s: &Vec<char>) -> (r: Vec<String>)
    ensures
        strings_view(r@) == quote_parts(s@),
{
    let mut parts: Vec<String> = Vec::new();
    let mut cur: Vec<char> = Vec::new();
    let mut use_single = true;
    let mut i: usize = 0;
    assert(strings_view(parts@) =~= Seq::<Seq<char>>::empty());
    assert(cur@ =~= Seq::<char>::empty());
    assert(s@.skip(0) =~= s@);
    while i < s.len()
        invariant
            i <= s.len(),
            quote_fold(s@, seq![], seq![], true) == quote_fold(
                s@.skip(i as int),
                strings_view(parts@),
                cur@,
                use_single,
            ),
        decreases s.len() - i,
    {
        let c = s[i];
        assert(s@.skip(i as int).drop_first() =~= s@.skip(i + 1));
        assert(s@.skip(i as int)[0] == c);
        if c == '\'' {
            if cur.len() > 0 {
                let q = quoted(&cur);
                proof {
                    lemma_strings_push(parts@, q);
                }
                parts.push(q);
            }
            let dq = String::from_str("\"'\"");
            proof {
                lemma_strings_push(parts@, dq);
            }
            parts.push(dq);
            cur = Vec::new();
            use_single = true;
            assert(cur@ =~= Seq::<char>::empty());
        } else if c == '"' && use_single {
            if cur.len() > 0 {
                let q = quoted(&cur);
                proof {
                    lemma_strings_push(parts@, q);
                }
                parts.push(q);
            }
            let sq = String::from_str("'\"'");
            proof {
                lemma_strings_push(parts@, sq);
            }
            parts.push(sq);
            use_single = false;
            cur = Vec::new();
            assert(cur@ =~= Seq::<char>::empty());
        } else {
            cur.push(c);
        }
        i += 1;
    }
    assert(s@.skip(s.len() as int) =~= Seq::<char>::empty());
    if cur.len() > 0 {
        let q = quoted(&cur);
        proof {
            lemma_strings_push(parts@, q);
        }
        parts.push(q);
    }
    parts
}

/// One piece as it is, several as `concat(a, b, ...)`.
pub(crate) fn concat_pieces(parts: Vec<String>) -> (r: String)
    ensures
        r@ == concat_of(strings_view(parts@)),
{
    if parts.len() == 1 {
        let mut parts = parts;
        let ghost v = strings_view(parts@);
        let first = parts.remove(0);
        assert(first@ == v[0]);
        first
    } else {
        let mut r = String::from_str("concat(");
        let j = join_strings(&parts, ", ");
        r.append(j.as_str());
        r.append(")");
        assert(r@ =~= concat_of(strings_view(parts@)));
        r
    }
}

/// Escape a string into an XPath expression that stands for it: a literal
/// between single quotes, or `concat()` of quoted runs and quote characters
/// for text that holds single quotes.
pub fn xpath_string_of(s: &str) -> (r: String)
    ensures
        r@ == xpath_string(s@),
        denotes(r@, s@),
{
    proof {
        lemma_xpath_string_denotes(s@);
    }
    let chars = chars_of(s);
    if !has_char(&chars, '\'') {
        return quoted(&chars);
    }
    let parts = quote_pieces(&chars);
    concat_pieces(parts)
}

// ── Predicates ──────────────────────────────────────────────────────────────
fn translate(x: &str) -> (r: String)
    ensures
        r@ == translate_lower(x@),
{
    let mut r = String::from_str("translate(");
    r.append(x);
    r.append(", 'ABCDEFGHIJKLMNOPQRSTUVWXYZ', 'abcdefghijklmnopqrstuvwxyz')");
    assert(r@ =~= translate_lower(x@));
    r
}

/// ` value `: the value between single spaces.
fn spaced(v: &str) -> (r: String)
    ensures
        r@ == " "@ + v@ + " "@,
{
    let mut r = String::from_str(" ");
    r.append(v);
    r.append(" ");
    r
}

fn compile_attr_exec(attr: &AttributeSelector) -> (r: String)
    ensures
        r@ == compile_attr(attr@),
{
    let mut at = String::from_str("@");
    at.append(attr.name.as_str());
    let val = xpath_string_of(attr.value.as_str());
    let ghost at_v = at@;
    let ghost val_v = val@;
    assert(at_v =~= "@"@ + attr.name@);
    if attr.case_insensitive {
        let ta = translate(at.as_str());
        let tv = translate(val.as_str());
        match attr.op {
            AttrOp::Present => at,
            AttrOp::Exact => {
                let mut r = String::new();
                r.append(ta.as_str());
                r.append(" = ");
                r.append(tv.as_str());
                assert(r@ =~= compile_attr(attr@));
                r
            },
            AttrOp::Prefix => {
                let mut r = String::from_str("starts-with(");
                r.append(ta.as_str());
                r.append(", ");
                r.append(tv.as_str());
                r.append(")");
                assert(r@ =~= compile_attr(attr@));
                r
            },
            AttrOp::Suffix => {
                let mut r = String::from_str("substring(");
                r.append(ta.as_str());
                r.append(", string-length(");
                r.append(ta.as_str());
                r.append(") - string-length(");
                r.append(tv.as_str());
                r.append(") + 1) = ");
                r.append(tv.as_str());
                assert(r@ =~= compile_attr(attr@));
                r
            },
            AttrOp::Substring => {
                let mut r = String::from_str("contains(");
                r.append(ta.as_str());
                r.append(", ");
                r.append(tv.as_str());
                r.append(")");
                assert(r@ =~= compile_attr(attr@));
                r
            },
            AttrOp::Include => {
                let sp = spaced(attr.value.as_str());
                let xs = xpath_string_of(sp.as_str());
                let txs = translate(xs.as_str());
                let mut r = String::from_str("contains(concat(' ', normalize-space(");
                r.append(ta.as_str());
                r.append("), ' '), ");
                r.append(txs.as_str());
                r.append(")");
                assert(r@ =~= compile_attr(attr@));
                r
            },
            AttrOp::Dash => {
                let mut r = String::new();
                r.append(ta.as_str());
                r.append(" = ");
                r.append(tv.as_str());
                r.append(" or starts-with(");
                r.append(ta.as_str());
                r.append(", concat(");
                r.append(tv.as_str());
                r.append(", '-'))");
                assert(r@ =~= compile_attr(attr@));
                r
            },
        }
    } else {
        match attr.op {
            AttrOp::Present => at,
            AttrOp::Exact => {
                let mut r = String::new();
                r.append(at.as_str());
                r.append("=");
                r.append(val.as_str());
                assert(r@ =~= compile_attr(attr@));
                r
            },
            AttrOp::Prefix => {
                let mut r = String::from_str("starts-with(");
                r.append(at.as_str());
                r.append(", ");
                r.append(val.as_str());
                r.append(")");
                assert(r@ =~= compile_attr(attr@));
                r
            },
            AttrOp::Suffix => {
                let mut r = String::from_str("substring(");
                r.append(at.as_str());
                r.append(", string-length(");
                r.append(at.as_str());
                r.append(") - string-length(");
                r.append(val.as_str());
                r.append(") + 1) = ");
                r.append(val.as_str());
                assert(r@ =~= compile_attr(attr@));
                r
            },
            AttrOp::Substring => {
                let mut r = String::from_str("contains(");
                r.append(at.as_str());
                r.append(", ");
                r.append(val.as_str());
                r.append(")");
                assert(r@ =~= compile_attr(attr@));
                r
            },
            AttrOp::Include => {
                let sp = spaced(attr.value.as_str());
                let xs = xpath_string_of(sp.as_str());
                let mut r = String::from_str("contains(concat(' ', normalize-space(");
                r.append(at.as_str());
                r.append("), ' '), ");
                r.append(xs.as_str());
                r.append(")");
                assert(r@ =~= compile_attr(attr@));
                r
            },
            AttrOp::Dash => {
                let mut r = String::new();
                r.append(at.as_str());
                r.append("=");
                r.append(val.as_str());
                r.append(" or starts-with(");
                r.append(at.as_str());
                r.append(", concat(");
                r.append(val.as_str());
                r.append(", '-'))");
                assert(r@ =~= compile_attr(attr@));
                r
            },
        }
    }
}

fn abs_wrap_exec(a: i32) -> (r: i32)
    ensures
        r == abs_wrap(a),
{
    if a == i32::MIN {
        a
    } else if a < 0 {
        -a
    } else {
        a
    }
}

/// The `an+b` predicate for `:nth-child` and `:nth-last-child`, over the
/// 1-based index among all siblings.
fn nth_to_xpath_exec(a: i32, b: i32, from_end: bool) -> (r: String)
    ensures
        r@ == nth_to_xpath(a, b, from_end),
{
    let count = if from_end {
        "count(following-sibling::*) + 1"
    } else {
        "count(preceding-sibling::*) + 1"
    };
    let bt = i32_text(b);
    let mut r = String::from_str(count);
    if a == 0 {
        r.append(" = ");
        r.append(bt.as_str());
    } else {
        let at = i32_text(abs_wrap_exec(a));
        r.append(if a < 0 {
            " <= "
        } else {
            " >= "
        });
        r.append(bt.as_str());
        r.append(" and (");
        r.append(count);
        r.append(" - ");
        r.append(bt.as_str());
        r.append(") mod ");
        r.append(at.as_str());
        r.append(" = 0");
    }
    assert(r@ =~= nth_to_xpath(a, b, from_end));
    r
}

/// The `an+b` predicate for `:nth-of-type` and `:nth-last-of-type`.
fn nth_type_to_xpath_exec(a: i32, b: i32, tag: &str, from_end: bool) -> (r: String)
    ensures
        r@ == nth_type_to_xpath(a, b, tag@, from_end),
{
    let axis = if from_end {
        "count(following-sibling::"
    } else {
        "count(preceding-sibling::"
    };
    let bt = i32_text(b);
    let mut r = String::from_str(axis);
    r.append(tag);
    if a == 0 {
        r.append(") + 1 = ");
        r.append(bt.as_str());
    } else {
        let at = i32_text(a);
        r.append(") + 1");
        r.append(if a < 0 {
            " <= "
        } else {
            " >= "
        });
        r.append(bt.as_str());
        r.append(" and (");
        r.append(axis);
        r.append(tag);
        r.append(") + 1 - ");
        r.append(bt.as_str());
        r.append(") mod ");
        r.append(at.as_str());
        r.append(" = 0");
    }
    assert(r@ =~= nth_type_to_xpath(a, b, tag@, from_end));
    r
}

/// The predicate that an element does not match a compound selector with
/// node test `tag` and predicates `preds`.
fn negation_exec(tag: &str, preds: &Vec<String>) -> (r: String)
    ensures
        r@ == negation(tag@, strings_view(preds@)),
{
    let ghost pv = strings_view(preds@);
    let mut conds: Vec<String> = Vec::new();
    let tag_chars = chars_of(tag);
    proof {
        reveal_strlit("*");
    }
    let is_star = tag_chars.len() == 1 && tag_chars[0] == '*';
    assert(is_star == (tag@ == "*"@)) by {
        if tag@ == "*"@ {
            assert(tag_chars@[0] == '*');
        }
        if is_star {
            assert(tag@ =~= "*"@);
        }
    }
    if !is_star {
        let mut t = String::from_str("self::");
        t.append(tag);
        proof {
            lemma_strings_push(conds@, t);
        }
        conds.push(t);
    }
    let ghost head = strings_view(conds@);
    assert(head =~= (if tag@ == "*"@ {
        seq![]
    } else {
        seq!["self::"@ + tag@]
    }));
    let mut i: usize = 0;
    while i < preds.len()
        invariant
            i <= preds.len(),
            pv == strings_view(preds@),
            pv.len() == preds.len(),
            strings_view(conds@) == head + pv.take(i as int).map_values(
                |p: Seq<char>| parenthesized(p),
            ),
        decreases preds.len() - i,
    {
        let c = wrap("(", preds[i].as_str(), ")");
        proof {
            lemma_strings_push(conds@, c);
            assert(pv[i as int] == preds@[i as int]@);
            assert(pv.take(i + 1).map_values(|p: Seq<char>| parenthesized(p)) =~= pv.take(
                i as int,
            ).map_values(|p: Seq<char>| parenthesized(p)).push(parenthesized(pv[i as int])));
        }
        conds.push(c);
        i += 1;
    }
    assert(pv.take(preds.len() as int) =~= pv);
    if conds.len() == 0 {
        String::from_str("false()")
    } else {
        let all = join_strings(&conds, " and ");
        wrap("not(", all.as_str(), ")")
    }
}

fn wrap(prefix: &str, mid: &str, suffix: &str) -> (r: String)
    ensures
        r@ == prefix@ + mid@ + suffix@,
{
    let mut r = String::from_str(prefix);
    r.append(mid);
    r.append(suffix);
    r
}

/// The predicate of a pseudo-class, or `None` for those that XPath 1.0
/// cannot express.
fn compile_pseudo_class_exec(pc: &PseudoClass, tag: &str) -> (r: Option<String>)
    ensures
        match r {
            Some(s) => compile_pseudo_class(pc@, tag@) == Some(s@),
            None => compile_pseudo_class(pc@, tag@) is None,
        },
    decreases pc,
{
    match pc {
        PseudoClass::FirstChild => Some(String::from_str("position() = 1")),
        PseudoClass::LastChild => Some(String::from_str("position() = last()")),
        PseudoClass::FirstOfType => Some(wrap("not(preceding-sibling::", tag, ")")),
        PseudoClass::LastOfType => Some(wrap("not(following-sibling::", tag, ")")),
        PseudoClass::OnlyChild => Some(String::from_str("count(../*) = 1")),
        PseudoClass::OnlyOfType => Some(wrap("count(../", tag, ") = 1")),
        PseudoClass::Empty => Some(String::from_str("not(node())")),
        PseudoClass::Root => Some(String::from_str("not(parent::*)")),
        PseudoClass::NthChild { a, b } => Some(nth_to_xpath_exec(*a, *b, false)),
        PseudoClass::NthLastChild { a, b } => Some(nth_to_xpath_exec(*a, *b, true)),
        PseudoClass::NthOfType { a, b } => Some(nth_type_to_xpath_exec(*a, *b, tag, false)),
        PseudoClass::NthLastOfType { a, b } => Some(nth_type_to_xpath_exec(*a, *b, tag, true)),
        PseudoClass::Not(inner) => {
            let (inner_tag, inner_preds) = compile_compound_exec(inner);
            Some(negation_exec(inner_tag.as_str(), &inner_preds))
        },
        PseudoClass::Lang(lang) => {
            let xs = xpath_string_of(lang.as_str());
            let mut r = String::from_str("ancestor-or-self::*[@lang][1]/@lang = ");
            r.append(xs.as_str());
            r.append(" or starts-with(ancestor-or-self::*[@lang][1]/@lang, concat(");
            r.append(xs.as_str());
            r.append(", '-'))");
            assert(r@ =~= compile_pseudo_class(pc@, tag@).unwrap());
            Some(r)
        },
        PseudoClass::Enabled => Some(String::from_str("not(@disabled)")),
        PseudoClass::Disabled => Some(String::from_str("@disabled")),
        PseudoClass::Checked => Some(String::from_str("(@checked or @selected)")),
        PseudoClass::Indeterminate => Some(String::from_str("@indeterminate")),
        PseudoClass::Required => Some(String::from_str("@required")),
        PseudoClass::Optional => Some(String::from_str("not(@required)")),
        PseudoClass::ReadOnly => Some(String::from_str("@readonly")),
        PseudoClass::ReadWrite => Some(String::from_str("not(@readonly)")),
        PseudoClass::Valid => Some(String::from_str("not(@aria-invalid)")),
        PseudoClass::Invalid => Some(String::from_str("@aria-invalid")),
        PseudoClass::Has(chains) => {
            let ghost cv = super::ast::chains_view(chains@);
            proof {
                lemma_chains_view(chains@);
            }
            let mut alts: Vec<String> = Vec::new();
            let mut i: usize = 0;
            assert(cv.subrange(0, 0) =~= Seq::<Seq<SpecCompound>>::empty());
            assert(strings_view(alts@) =~= Seq::<Seq<char>>::empty());
            while i < chains.len()
                invariant
                    i <= chains.len(),
                    *pc == PseudoClass::Has(*chains),
                    cv == super::ast::chains_view(chains@),
                    cv.len() == chains.len(),
                    forall|m: int|
                        0 <= m < chains.len() ==> #[trigger] cv[m] == super::ast::chain_view(
                            chains@[m]@,
                        ),
                    strings_view(alts@) == has_alternatives(cv.subrange(0, i as int)),
                decreases chains.len() - i,
            {
                let chain = &chains[i];
                let ghost ch = cv[i as int];
                proof {
                    lemma_chain_view(chain@);
                }
                assert(cv.subrange(0, i + 1).subrange(0, i as int) =~= cv.subrange(0, i as int));
                assert(cv.subrange(0, i + 1)[i as int] == ch);
                if chain.len() > 0 {
                    let mut path = String::from_str(".");
                    let mut j: usize = 0;
                    assert(ch.subrange(0, 0) =~= Seq::<SpecCompound>::empty());
                    while j < chain.len()
                        invariant
                            j <= chain.len(),
                            i < chains.len(),
                            *pc == PseudoClass::Has(*chains),
                            *chain == chains@[i as int],
                            ch == super::ast::chain_view(chain@),
                            ch.len() == chain.len(),
                            forall|m: int|
                                0 <= m < chain.len() ==> #[trigger] ch[m] == compound_view(
                                    chain@[m],
                                ),
                            path@ == "."@ + has_steps(ch.subrange(0, j as int)),
                        decreases chain.len() - j,
                    {
                        proof {
                            assert(decreases_to!(*pc => pc->Has_0));
                            assert(pc->Has_0 == *chains);
                            assert(decreases_to!(pc->Has_0 => pc->Has_0@));
                            assert(decreases_to!(chains@ => chains@[i as int]));
                            assert(decreases_to!(*chain => chain@));
                            assert(decreases_to!(chain@ => chain@[j as int]));
                        }
                        let (t, preds) = compile_compound_exec(&chain[j]);
                        let st = build_step_exec(t.as_str(), &preds);
                        let ghost before = path@;
                        path.append("//");
                        path.append(st.as_str());
                        proof {
                            let sub = ch.subrange(0, j + 1);
                            assert(sub.subrange(0, j as int) =~= ch.subrange(0, j as int));
                            assert(sub[j as int] == ch[j as int]);
                            assert(ch[j as int] == chain@[j as int]@);
                            assert(path@ =~= "."@ + has_steps(sub));
                        }
                        j += 1;
                    }
                    assert(ch.subrange(0, chain.len() as int) =~= ch);
                    proof {
                        lemma_strings_push(alts@, path);
                    }
                    alts.push(path);
                }
                i += 1;
            }
            assert(cv.subrange(0, chains.len() as int) =~= cv);
            if alts.len() > 0 {
                Some(join_strings(&alts, " or "))
            } else {
                None
            }
        },
        _ => None,
    }
}

/// The node test and the predicates of a compound selector.
fn compile_compound_exec(cs: &CompoundSelector) -> (r: (String, Vec<String>))
    ensures
        (r.0@, strings_view(r.1@)) == compile_compound(cs@),
    decreases cs,
{
    let ghost spec_cs = cs@;
    let tag = match &cs.tag {
        Some(t) => t.clone(),
        None => String::from_str("*"),
    };
    assert(tag@ == tag_of(spec_cs));
    let mut preds: Vec<String> = Vec::new();
    if let Some(id) = &cs.id {
        let xs = xpath_string_of(id.as_str());
        let mut p = String::from_str("@id=");
        p.append(xs.as_str());
        preds.push(p);
        assert(strings_view(preds@) =~= id_preds(spec_cs.id));
    } else {
        assert(strings_view(preds@) =~= id_preds(spec_cs.id));
    }
    let ghost base = strings_view(preds@);
    let ghost classes = spec_cs.classes;
    let mut i: usize = 0;
    while i < cs.classes.len()
        invariant
            i <= cs.classes.len(),
            spec_cs == cs@,
            classes == spec_cs.classes,
            classes.len() == cs.classes.len(),
            forall|k: int| 0 <= k < classes.len() ==> #[trigger] classes[k] == cs.classes@[k]@,
            strings_view(preds@) == base + classes.take(i as int).map_values(
                |c: Seq<char>| class_pred(c),
            ),
        decreases cs.classes.len() - i,
    {
        let sp = spaced(cs.classes[i].as_str());
        let xs = xpath_string_of(sp.as_str());
        let p = wrap("contains(concat(' ', normalize-space(@class), ' '), ", xs.as_str(), ")");
        assert(p@ == class_pred(classes[i as int]));
        let ghost before = strings_view(preds@);
        proof {
            lemma_strings_push(preds@, p);
        }
        preds.push(p);
        i += 1;
        assert(classes.take(i as int).map_values(|c: Seq<char>| class_pred(c)) =~= classes.take(
            (i - 1) as int,
        ).map_values(|c: Seq<char>| class_pred(c)).push(class_pred(classes[i - 1])));
        assert(strings_view(preds@) =~= base + classes.take(i as int).map_values(
            |c: Seq<char>| class_pred(c),
        ));
    }
    assert(classes.take(classes.len() as int) =~= classes);
    let ghost base2 = strings_view(preds@);
    let ghost attrs = spec_cs.attrs;
    let mut j: usize = 0;
    while j < cs.attrs.len()
        invariant
            j <= cs.attrs.len(),
            spec_cs == cs@,
            attrs == spec_cs.attrs,
            attrs.len() == cs.attrs.len(),
            forall|k: int| 0 <= k < attrs.len() ==> #[trigger] attrs[k] == cs.attrs@[k]@,
            strings_view(preds@) == base2 + attrs.take(j as int).map_values(
                |a: SpecAttr| compile_attr(a),
            ),
        decreases cs.attrs.len() - j,
    {
        let p = compile_attr_exec(&cs.attrs[j]);
        proof {
            lemma_strings_push(preds@, p);
        }
        preds.push(p);
        j += 1;
        assert(attrs.take(j as int).map_values(|a: SpecAttr| compile_attr(a)) =~= attrs.take(
            (j - 1) as int,
        ).map_values(|a: SpecAttr| compile_attr(a)).push(compile_attr(attrs[j - 1])));
        assert(strings_view(preds@) =~= base2 + attrs.take(j as int).map_values(
            |a: SpecAttr| compile_attr(a),
        ));
    }
    assert(attrs.take(attrs.len() as int) =~= attrs);
    let ghost base3 = strings_view(preds@);
    let ghost pcs = spec_cs.pseudo_classes;
    proof {
        lemma_pseudos_view(cs.pseudo_classes@);
    }
    let mut k: usize = 0;
    assert(pseudo_preds(pcs.subrange(0, 0), tag@) =~= Seq::<Seq<char>>::empty());
    assert(base3 =~= base3 + Seq::<Seq<char>>::empty());
    while k < cs.pseudo_classes.len()
        invariant
            k <= cs.pseudo_classes.len(),
            spec_cs == cs@,
            pcs == spec_cs.pseudo_classes,
            pcs.len() == cs.pseudo_classes.len(),
            forall|m: int|
                0 <= m < pcs.len() ==> #[trigger] pcs[m] == pseudo_view(cs.pseudo_classes@[m]),
            tag@ == tag_of(spec_cs),
            strings_view(preds@) == base3 + pseudo_preds(pcs.subrange(0, k as int), tag@),
        decreases cs.pseudo_classes.len() - k,
    {
        let pc = &cs.pseudo_classes[k];
        assert(pcs[k as int] == pc@);
        let ghost sub = pcs.subrange(0, k + 1);
        assert(sub.subrange(0, k as int) =~= pcs.subrange(0, k as int));
        assert(sub[k as int] == pcs[k as int]);
        match compile_pseudo_class_exec(pc, tag.as_str()) {
            Some(p) => {
                proof {
                    lemma_strings_push(preds@, p);
                }
                preds.push(p);
                assert(strings_view(preds@) =~= base3 + pseudo_preds(sub, tag@));
            },
            None => {},
        }
        k += 1;
    }
    assert(pcs.subrange(0, pcs.len() as int) =~= pcs);
    assert(strings_view(preds@) =~= compile_compound(spec_cs).1);
    (tag, preds)
}

/// Build an XPath step: `tag[pred1][pred2]...`.
fn build_step_exec(tag: &str, preds: &Vec<String>) -> (r: String)
    ensures
        r@ == build_step(tag@, strings_view(preds@)),
{
    let ghost ps = strings_view(preds@);
    if preds.len() == 0 {
        let star = chars_of("*");
        let t = chars_of(tag);
        if super::text::chars_eq(&t, &star) {
            String::from_str("node()")
        } else {
            String::from_str(tag)
        }
    } else {
        let mut r = String::from_str(tag);
        let mut i: usize = 0;
        assert(ps.take(0) =~= Seq::<Seq<char>>::empty());
        assert(r@ =~= tag@ + bracketed(ps.take(0)));
        while i < preds.len()
            invariant
                i <= preds.len(),
                ps == strings_view(preds@),
                r@ == tag@ + bracketed(ps.take(i as int)),
            decreases preds.len() - i,
        {
            r.append("[");
            r.append(preds[i].as_str());
            r.append("]");
            i += 1;
            assert(ps.take(i as int).drop_last() =~= ps.take((i - 1) as int));
            assert(r@ =~= tag@ + bracketed(ps.take(i as int)));
        }
        assert(ps.take(preds.len() as int) =~= ps);
        r
    }
}

// ── Selectors ───────────────────────────────────────────────────────────────
/// The XPath step of a compound selector.
fn compound_step_exec(cs: &CompoundSelector) -> (r: String)
    ensures
        r@ == compound_step(cs@),
{
    let (tag, preds) = compile_compound_exec(cs);
    build_step_exec(tag.as_str(), &preds)
}

/// The test that the element matches a chain of descendant steps.
fn alt_test_exec(steps: &Vec<String>) -> (r: String)
    requires
        steps.len() > 0,
    ensures
        r@ == alt_test(strings_view(steps@)),
{
    let ghost sv = strings_view(steps@);
    let last = steps.len() - 1;
    let mut w = String::new();
    let mut i: usize = 0;
    assert(sv.take(0) =~= Seq::<Seq<char>>::empty());
    while i < last
        invariant
            i <= last,
            last + 1 == steps.len(),
            sv == strings_view(steps@),
            sv.len() == steps.len(),
            w@ == within(sv.take(i as int)),
        decreases last - i,
    {
        let ghost prev = w@;
        let mut next = String::from_str("[ancestor::");
        next.append(steps[i].as_str());
        next.append(w.as_str());
        next.append("]");
        proof {
            let t = sv.take(i + 1);
            assert(t.drop_last() =~= sv.take(i as int));
            assert(t.last() == sv[i as int]);
            assert(sv[i as int] == steps@[i as int]@);
            assert(next@ =~= "[ancestor::"@ + t.last() + within(t.drop_last()) + "]"@);
        }
        w = next;
        i += 1;
    }
    let mut r = String::from_str("self::");
    r.append(steps[last].as_str());
    r.append(w.as_str());
    proof {
        assert(sv.drop_last() =~= sv.take(last as int));
        assert(sv.last() == steps@[last as int]@);
        assert(r@ =~= alt_test(sv));
    }
    r
}

/// The alternatives of an `:is()`: for each non-empty chain, the test that
/// the element matches it.
fn is_alternatives_exec(chains: &Vec<Vec<CompoundSelector>>) -> (r: Vec<String>)
    ensures
        strings_view(r@) == is_alternatives(super::ast::chains_view(chains@)),
{
    let ghost cv = super::ast::chains_view(chains@);
    proof {
        lemma_chains_view(chains@);
    }
    let mut alts: Vec<String> = Vec::new();
    let mut i: usize = 0;
    assert(cv.take(0) =~= Seq::<Seq<SpecCompound>>::empty());
    assert(strings_view(alts@) =~= Seq::<Seq<char>>::empty());
    while i < chains.len()
        invariant
            i <= chains.len(),
            cv == super::ast::chains_view(chains@),
            cv.len() == chains.len(),
            forall|m: int|
                0 <= m < chains.len() ==> #[trigger] cv[m] == super::ast::chain_view(chains@[m]@),
            strings_view(alts@) == is_alternatives(cv.take(i as int)),
        decreases chains.len() - i,
    {
        let chain = &chains[i];
        let ghost ch = cv[i as int];
        proof {
            lemma_chain_view(chain@);
        }
        assert(cv.take(i + 1).drop_last() =~= cv.take(i as int));
        assert(cv.take(i + 1).last() == ch);
        if chain.len() > 0 {
            let mut steps: Vec<String> = Vec::new();
            let mut j: usize = 0;
            assert(strings_view(steps@) =~= chain_steps(ch).take(0));
            while j < chain.len()
                invariant
                    j <= chain.len(),
                    ch == super::ast::chain_view(chain@),
                    ch.len() == chain.len(),
                    forall|m: int|
                        0 <= m < chain.len() ==> #[trigger] ch[m] == compound_view(chain@[m]),
                    strings_view(steps@) == chain_steps(ch).take(j as int),
                decreases chain.len() - j,
            {
                let st = compound_step_exec(&chain[j]);
                proof {
                    lemma_strings_push(steps@, st);
                }
                steps.push(st);
                j += 1;
                assert(strings_view(steps@) =~= chain_steps(ch).take(j as int));
            }
            assert(chain_steps(ch).take(chain.len() as int) =~= chain_steps(ch));
            let alt = alt_test_exec(&steps);
            proof {
                lemma_strings_push(alts@, alt);
            }
            alts.push(alt);
        }
        i += 1;
    }
    assert(cv.take(chains.len() as int) =~= cv);
    alts
}

/// The XPath step of one part of a selector chain.
fn part_step_exec(cs: &CompoundSelector) -> (r: Option<String>)
    ensures
        match r {
            Some(s) => part_step(cs@) == Some(s@),
            None => part_step(cs@) is None,
        },
{
    let ghost pcs = cs@.pseudo_classes;
    proof {
        lemma_pseudos_view(cs.pseudo_classes@);
    }
    let mut k: usize = 0;
    assert(pcs.skip(0) =~= pcs);
    while k < cs.pseudo_classes.len()
        invariant
            k <= cs.pseudo_classes.len(),
            pcs == cs@.pseudo_classes,
            pcs.len() == cs.pseudo_classes.len(),
            forall|m: int|
                0 <= m < pcs.len() ==> #[trigger] pcs[m] == pseudo_view(cs.pseudo_classes@[m]),
            first_is(pcs) == first_is(pcs.skip(k as int)),
        decreases cs.pseudo_classes.len() - k,
    {
        assert(pcs.skip(k as int)[0] == pcs[k as int]);
        match &cs.pseudo_classes[k] {
            PseudoClass::Is(chains) => {
                let alts = is_alternatives_exec(chains);
                if alts.len() > 0 {
                    let any = join_strings(&alts, " or ");
                    let (tag, mut preds) = compile_compound_exec(cs);
                    proof {
                        lemma_strings_push(preds@, any);
                    }
                    preds.push(any);
                    return Some(build_step_exec(tag.as_str(), &preds));
                } else {
                    return None;
                }
            },
            _ => {},
        }
        assert(pcs.skip(k as int).drop_first() =~= pcs.skip(k + 1));
        k += 1;
    }
    assert(pcs.skip(k as int) =~= Seq::<SpecPseudo>::empty());
    Some(compound_step_exec(cs))
}

/// Whether one part of a selector chain has an XPath step.
pub fn part_step_some(cs: &CompoundSelector) -> (r: bool)
    ensures
        r == part_step(cs@) is Some,
{
    part_step_exec(cs).is_some()
}

fn separator_exec(c: Combinator) -> (r: &'static str)
    ensures
        r@ == separator(c),
{
    match c {
        Combinator::Start => "//",
        Combinator::Descendant => "//",
        Combinator::Child => "/",
        Combinator::Adjacent => "/following-sibling::*[1]/self::",
        Combinator::Sibling => "/following-sibling::",
    }
}

/// Compile a single [`Selector`] chain into an XPath expression: `//` and
/// the step of each part, each after the axis of its combinator (the first
/// part's combinator is not used).
pub fn compile_selector_exec(sel: &Selector) -> (r: String)
    requires
        selector_compiles(sel@),
    ensures
        r@ == compile_selector(sel@),
{
    let ghost pv = sel@.parts;
    if sel.parts.len() == 0 {
        return String::new();
    }
    let mut path = String::new();
    let mut i: usize = 0;
    while i < sel.parts.len()
        invariant
            i <= sel.parts.len(),
            pv == sel@.parts,
            pv == parts_view(sel.parts@),
            selector_compiles(sel@),
            path@ == path_of(pv, i as int),
        decreases sel.parts.len() - i,
    {
        let part = &sel.parts[i];
        assert(pv[i as int] == (part.0, compound_view(part.1)));
        assert(part_step(pv[i as int].1) is Some);
        let step = match part_step_exec(&part.1) {
            Some(s) => s,
            None => {
                return String::new();
            },
        };
        if i > 0 {
            path.append(separator_exec(part.0));
        }
        path.append(step.as_str());
        i += 1;
        assert(path@ =~= path_of(pv, i as int));
    }
    let mut r = String::from_str("//");
    r.append(path.as_str());
    r
}

/// Compile a [`SelectorList`] into an XPath 1.0 expression.
///
/// Multiple selectors (comma-separated) are unioned with `|`. Every part of
/// every selector must have a step: a compound selector whose `:is()` holds
/// no alternative has none.
pub fn compile_xpath(list: &SelectorList) -> (r: String)
    requires
        list_compiles(list@),
    ensures
        r@ == compile_list(list@),
{
    let ghost sv = list@.selectors;
    let ghost compiled = sv.map_values(|s: super::ast::SpecSelector| compile_selector(s));
    if list.selectors.len() == 0 {
        assert(compiled.len() == 0);
        return String::new();
    }
    if list.selectors.len() == 1 {
        assert(sv[0] == list.selectors@[0]@);
        assert(selector_compiles(sv[0]));
        return compile_selector_exec(&list.selectors[0]);
    }
    let mut parts: Vec<String> = Vec::new();
    let mut i: usize = 0;
    assert(strings_view(parts@) =~= compiled.take(0));
    while i < list.selectors.len()
        invariant
            i <= list.selectors.len(),
            sv == list@.selectors,
            sv == selectors_view(list.selectors@),
            compiled == sv.map_values(|s: super::ast::SpecSelector| compile_selector(s)),
            list_compiles(list@),
            strings_view(parts@) == compiled.take(i as int),
        decreases list.selectors.len() - i,
    {
        assert(sv[i as int] == list.selectors@[i as int]@);
        assert(selector_compiles(sv[i as int]));
        let c = compile_selector_exec(&list.selectors[i]);
        proof {
            lemma_strings_push(parts@, c);
        }
        parts.push(c);
        i += 1;
        assert(strings_view(parts@) =~= compiled.take(i as int));
    }
    assert(compiled.take(list.selectors.len() as int) =~= compiled);
    join_strings(&parts, " | ")
}

} // verus!
