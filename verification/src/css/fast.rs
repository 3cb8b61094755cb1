//! The fast path of selector compilation: bare tags, ids and classes, and a
//! tag with one id or class, compiled without the parser — and the proof
//! that it gives what the parser and the compiler give.
use vstd::prelude::*;

use super::text::{
    all_ws, chars_of, has_char, is_ident_char, lemma_trim_start_all_ws, push_chars, spec_is_digit,
    spec_is_ident_char, spec_is_ws, sub_chars, trim, trim_chars, trim_end, trim_start,
};
use super::tokenizer::{ident_run, next_token, spec_tokenize, tokenize_from, ws_end, SpecToken};
use super::ast::{empty_compound, SpecAttr, SpecCompound, SpecParseError, SpecSelector, SpecSelectorList};
use super::parser::Combinator;
use super::syntax::{expect_ident, compound, compound_loop, list_loop, selector, selector_list, selector_loop, skip_ws, spec_parse};
use super::xpath_spec::{
    bracketed, class_pred, compile_attr, compile_compound, compile_list, compile_selector,
    compound_step, first_is, id_pred, list_compiles, part_step, path_of, pseudo_preds,
    selector_compiles, tag_of, xpath_string,
};
use super::literal::{is_literal, literal_value};

verus! {

/// A bare identifier: one or more identifier characters.
pub open spec fn spec_is_bare(s: Seq<char>) -> bool {
    s.len() > 0 && forall|i: int| 0 <= i < s.len() ==> spec_is_ident_char(#[trigger] s[i])
}

/// The index of the first `c` in `s`, or -1.
pub open spec fn find_char(s: Seq<char>, c: char) -> int
    decreases s.len(),
{
    if s.len() == 0 {
        -1
    } else if s[0] == c {
        0
    } else {
        let r = find_char(s.drop_first(), c);
        if r < 0 {
            -1
        } else {
            r + 1
        }
    }
}

/// The XPath for `//tag[@id='id']`-shaped selectors (for an id without
/// quotes, which stands between the single quotes as it is).
pub open spec fn id_xpath(tag: Seq<char>, id: Seq<char>) -> Seq<char> {
    "//"@ + tag + "[@id='"@ + id + "']"@
}

/// The XPath for `//tag[...class...]`-shaped selectors.
pub open spec fn class_xpath(tag: Seq<char>, class: Seq<char>) -> Seq<char> {
    "//"@ + tag + "[contains(concat(' ', normalize-space(@class), ' '), ' "@ + class + " ')]"@
}

/// What the fast path gives for selector text: for (trimmed) text that is a
/// bare tag, `#id`, `.class`, `tag#id` or `tag.class`, the XPath expression;
/// otherwise `None`.
pub open spec fn fast_path(css: Seq<char>) -> Option<Seq<char>> {
    let s = trim(css);
    let h = find_char(s, '#');
    let d = find_char(s, '.');
    if s.len() == 0 {
        None
    } else if spec_is_bare(s) {
        Some("//"@ + s)
    } else if s[0] == '#' && spec_is_bare(s.drop_first()) {
        Some(id_xpath("*"@, s.drop_first()))
    } else if s[0] == '.' && spec_is_bare(s.drop_first()) {
        Some(class_xpath("*"@, s.drop_first()))
    } else if h >= 0 && spec_is_bare(s.take(h)) && spec_is_bare(s.skip(h + 1)) {
        Some(id_xpath(s.take(h), s.skip(h + 1)))
    } else if d >= 0 && spec_is_bare(s.take(d)) && spec_is_bare(s.skip(d + 1)) {
        Some(class_xpath(s.take(d), s.skip(d + 1)))
    } else {
        None
    }
}

pub(crate) proof fn lemma_find_char(s: Seq<char>, c: char)
    ensures
        -1 <= find_char(s, c) < s.len(),
        find_char(s, c) >= 0 ==> s[find_char(s, c)] == c,
        forall|k: int| 0 <= k < s.len() && (find_char(s, c) < 0 || k < find_char(s, c)) ==> s[k] != c,
    decreases s.len(),
{
    if s.len() > 0 && s[0] != c {
        lemma_find_char(s.drop_first(), c);
        assert forall|k: int| 0 <= k < s.len() && (find_char(s, c) < 0 || k < find_char(s, c)) implies s[k] != c by {
            if k > 0 {
                assert(s[k] == s.drop_first()[k - 1]);
            }
        }
    }
}

pub(crate) fn find_char_exec(s: &Vec<char>, c: char) -> (r: Option<usize>)
    ensures
        match r {
            Some(i) => find_char(s@, c) == i as int,
            None => find_char(s@, c) < 0,
        },
{
    let mut i: usize = 0;
    proof {
        lemma_find_char(s@, c);
    }
    while i < s.len()
        invariant
            i <= s.len(),
            forall|k: int| 0 <= k < i ==> s@[k] != c,
            -1 <= find_char(s@, c) < s.len(),
            find_char(s@, c) >= 0 ==> s@[find_char(s@, c)] == c,
            forall|k: int|
                0 <= k < s.len() && (find_char(s@, c) < 0 || k < find_char(s@, c)) ==> s@[k] != c,
        decreases s.len() - i,
    {
        if s[i] == c {
            return Some(i);
        }
        i += 1;
    }
    None
}

fn is_bare_chars(s: &Vec<char>) -> (r: bool)
    ensures
        r == spec_is_bare(s@),
{
    if s.len() == 0 {
        return false;
    }
    let mut i: usize = 0;
    while i < s.len()
        invariant
            i <= s.len(),
            forall|k: int| 0 <= k < i ==> spec_is_ident_char(#[trigger] s@[k]),
        decreases s.len() - i,
    {
        if !is_ident_char(s[i]) {
            return false;
        }
        i += 1;
    }
    true
}

/// Returns true if `input` looks like a bare identifier (tag name, id,
/// class): one or more ASCII letters, digits, `-` or `_`.
pub fn is_bare_tag(input: &str) -> (r: bool)
    ensures
        r == spec_is_bare(input@),
{
    let chars = chars_of(input);
    is_bare_chars(&chars)
}

/// Escape a string for embedding in an XPath string literal between single
/// quotes. Such a literal can hold any text but a single quote, so the text
/// must hold none; it is then embedded as it is.
pub fn escape_xpath_str(s: &str) -> (r: String)
    requires
        !s@.contains('\''),
    ensures
        r@ == s@,
        is_literal(seq!['\''] + r@ + seq!['\'']),
        literal_value(seq!['\''] + r@ + seq!['\'']) == s@,
{
    let r = String::from_str(s);
    proof {
        let p = seq!['\''] + r@ + seq!['\''];
        assert(p.subrange(1, p.len() - 1) =~= s@);
    }
    r
}

fn id_xpath_exec(tag: &Vec<char>, id: &Vec<char>) -> (r: String)
    ensures
        r@ == id_xpath(tag@, id@),
{
    let mut r = String::from_str("//");
    push_chars(&mut r, tag);
    r.append("[@id='");
    push_chars(&mut r, id);
    r.append("']");
    r
}

fn class_xpath_exec(tag: &Vec<char>, class: &Vec<char>) -> (r: String)
    ensures
        r@ == class_xpath(tag@, class@),
{
    let mut r = String::from_str("//");
    push_chars(&mut r, tag);
    r.append("[contains(concat(' ', normalize-space(@class), ' '), ' ");
    push_chars(&mut r, class);
    r.append(" ')]");
    r
}

/// Fast-path for common CSS selectors that don't need the full parser:
/// `Some(xpath)` if the selector can be compiled without the parser, or
/// `None` to fall through to normal compilation.
pub fn fast_path_compile(css: &str) -> (r: Option<String>)
    ensures
        match r {
            Some(x) => fast_path(css@) == Some(x@),
            None => fast_path(css@) is None,
        },
{
    let chars = chars_of(css);
    let s = trim_chars(&chars);
    let n = s.len();
    if n == 0 {
        return None;
    }
    if is_bare_chars(&s) {
        let mut r = String::from_str("//");
        push_chars(&mut r, &s);
        return Some(r);
    }
    let star = chars_of("*");
    let rest = sub_chars(&s, 1, n);
    assert(rest@ =~= s@.drop_first());
    if s[0] == '#' && is_bare_chars(&rest) {
        return Some(id_xpath_exec(&star, &rest));
    }
    if s[0] == '.' && is_bare_chars(&rest) {
        return Some(class_xpath_exec(&star, &rest));
    }
    let h = find_char_exec(&s, '#');
    proof {
        lemma_find_char(s@, '#');
    }
    if let Some(h) = h {
        let tag = sub_chars(&s, 0, h);
        let id = sub_chars(&s, h + 1, n);
        assert(tag@ =~= s@.take(h as int));
        assert(id@ =~= s@.skip(h + 1));
        if is_bare_chars(&tag) && is_bare_chars(&id) {
            return Some(id_xpath_exec(&tag, &id));
        }
    }
    let d = find_char_exec(&s, '.');
    proof {
        lemma_find_char(s@, '.');
    }
    if let Some(d) = d {
        let tag = sub_chars(&s, 0, d);
        let class = sub_chars(&s, d + 1, n);
        assert(tag@ =~= s@.take(d as int));
        assert(class@ =~= s@.skip(d + 1));
        if is_bare_chars(&tag) && is_bare_chars(&class) {
            return Some(class_xpath_exec(&tag, &class));
        }
    }
    None
}

} // verus!
// ── The fast path agrees with the parser ────────────────────────────────────
verus! {

/// The number of leading whitespace characters of `s`.
pub open spec fn lead(s: Seq<char>) -> nat
    decreases s.len(),
{
    if s.len() > 0 && spec_is_ws(s[0]) {
        1 + lead(s.drop_first())
    } else {
        0
    }
}

/// The number of trailing whitespace characters of `s`.
pub open spec fn trail(s: Seq<char>) -> nat
    decreases s.len(),
{
    if s.len() > 0 && spec_is_ws(s.last()) {
        1 + trail(s.drop_last())
    } else {
        0
    }
}

proof fn lemma_lead(s: Seq<char>)
    ensures
        lead(s) <= s.len(),
        trim_start(s) == s.skip(lead(s) as int),
        forall|k: int| 0 <= k < lead(s) ==> spec_is_ws(#[trigger] s[k]),
        lead(s) < s.len() ==> !spec_is_ws(s[lead(s) as int]),
    decreases s.len(),
{
    if s.len() > 0 && spec_is_ws(s[0]) {
        lemma_lead(s.drop_first());
        assert(s.drop_first().skip(lead(s.drop_first()) as int) =~= s.skip(lead(s) as int));
        assert forall|k: int| 0 <= k < lead(s) implies spec_is_ws(#[trigger] s[k]) by {
            if k > 0 {
                assert(s[k] == s.drop_first()[k - 1]);
            }
        }
        if lead(s) < s.len() {
            assert(s[lead(s) as int] == s.drop_first()[lead(s.drop_first()) as int]);
        }
    } else {
        assert(s.skip(0) =~= s);
    }
}

proof fn lemma_trail(s: Seq<char>)
    ensures
        trail(s) <= s.len(),
        trim_end(s) == s.take(s.len() - trail(s)),
        forall|k: int| s.len() - trail(s) <= k < s.len() ==> spec_is_ws(#[trigger] s[k]),
        trail(s) < s.len() ==> !spec_is_ws(s[s.len() - trail(s) - 1]),
    decreases s.len(),
{
    if s.len() > 0 && spec_is_ws(s.last()) {
        lemma_trail(s.drop_last());
        assert(s.drop_last().take(s.drop_last().len() - trail(s.drop_last())) =~= s.take(
            s.len() - trail(s),
        ));
        assert forall|k: int| s.len() - trail(s) <= k < s.len() implies spec_is_ws(#[trigger] s[k]) by {
            if k < s.len() - 1 {
                assert(s[k] == s.drop_last()[k]);
            }
        }
        if trail(s) < s.len() {
            assert(s[s.len() - trail(s) - 1] == s.drop_last()[s.drop_last().len() - trail(
                s.drop_last(),
            ) - 1]);
        }
    } else {
        assert(s.take(s.len() as int) =~= s);
    }
}

/// The trimmed text lies between whitespace: `css = ws + trim(css) + ws`.
proof fn lemma_trim_bounds(css: Seq<char>) -> (ab: (int, int))
    requires
        trim(css).len() > 0,
    ensures
        0 <= ab.0 < ab.1 <= css.len(),
        css.subrange(ab.0, ab.1) == trim(css),
        forall|k: int| 0 <= k < ab.0 ==> spec_is_ws(#[trigger] css[k]),
        forall|k: int| ab.1 <= k < css.len() ==> spec_is_ws(#[trigger] css[k]),
        !spec_is_ws(css[ab.0]),
{
    lemma_lead(css);
    let a = lead(css) as int;
    let t = css.skip(a);
    lemma_trail(t);
    let b = a + t.len() - trail(t);
    assert(t.take(t.len() - trail(t)) =~= css.subrange(a, b));
    assert(a < css.len());
    assert forall|k: int| b <= k < css.len() implies spec_is_ws(#[trigger] css[k]) by {
        assert(css[k] == t[k - a]);
    }
    (a, b)
}

proof fn lemma_ws_end_exact(s: Seq<char>, i: int, j: int)
    requires
        0 <= i <= j <= s.len(),
        forall|k: int| i <= k < j ==> spec_is_ws(#[trigger] s[k]),
        j == s.len() || !spec_is_ws(s[j]),
    ensures
        ws_end(s, i) == j,
    decreases j - i,
{
    if i < j {
        lemma_ws_end_exact(s, i + 1, j);
    }
}

proof fn lemma_ident_exact(s: Seq<char>, i: int, j: int)
    requires
        0 <= i <= j <= s.len(),
        forall|k: int| i <= k < j ==> spec_is_ident_char(#[trigger] s[k]),
        j == s.len() || (!spec_is_ident_char(s[j]) && s[j] != '\\'),
    ensures
        ident_run(s, i) == (s.subrange(i, j), j),
    decreases j - i,
{
    if i < j {
        lemma_ident_exact(s, i + 1, j);
        assert(seq![s[i]] + s.subrange(i + 1, j) =~= s.subrange(i, j));
    } else {
        assert(s.subrange(i, j) =~= Seq::<char>::empty());
    }
}

/// Whitespace from `i` to the end tokenizes as (at most) one `Whitespace`
/// token and `Eof`.
proof fn lemma_tail_tokens(s: Seq<char>, i: int)
    requires
        0 <= i <= s.len(),
        forall|k: int| i <= k < s.len() ==> spec_is_ws(#[trigger] s[k]),
    ensures
        tokenize_from(s, i) == (if i < s.len() {
            seq![SpecToken::Whitespace]
        } else {
            Seq::<SpecToken>::empty()
        }) + seq![SpecToken::Eof],
{
    assert(tokenize_from(s, s.len() as int) == seq![SpecToken::Eof]);
    if i < s.len() {
        lemma_ws_end_exact(s, i, s.len() as int);
        assert(next_token(s, i) == (seq![SpecToken::Whitespace], s.len() as int));
        assert(seq![SpecToken::Whitespace][0] != seq![SpecToken::Eof][0]);
        assert(tokenize_from(s, i) == seq![SpecToken::Whitespace] + tokenize_from(s, s.len() as int));
    } else {
        assert(seq![SpecToken::Eof] =~= Seq::<SpecToken>::empty() + seq![SpecToken::Eof]);
    }
}

/// Leading whitespace tokenizes as (at most) one `Whitespace` token.
proof fn lemma_head_tokens(s: Seq<char>, a: int)
    requires
        0 <= a < s.len(),
        forall|k: int| 0 <= k < a ==> spec_is_ws(#[trigger] s[k]),
        !spec_is_ws(s[a]),
    ensures
        tokenize_from(s, 0) == (if a > 0 {
            seq![SpecToken::Whitespace]
        } else {
            Seq::<SpecToken>::empty()
        }) + tokenize_from(s, a),
{
    if a > 0 {
        lemma_ws_end_exact(s, 0, a);
        assert(next_token(s, 0) == (seq![SpecToken::Whitespace], a));
        assert(seq![SpecToken::Whitespace][0] != seq![SpecToken::Eof][0]);
    } else {
        assert(tokenize_from(s, a) =~= Seq::<SpecToken>::empty() + tokenize_from(s, a));
    }
}

/// A non-empty run of identifier characters at `i`, ended by a character
/// that ends identifiers, tokenizes as one `Ident`.
proof fn lemma_ident_token(s: Seq<char>, i: int, j: int)
    requires
        0 <= i < j <= s.len(),
        forall|k: int| i <= k < j ==> spec_is_ident_char(#[trigger] s[k]),
        j == s.len() || (!spec_is_ident_char(s[j]) && s[j] != '\\'),
    ensures
        tokenize_from(s, i) == seq![SpecToken::Ident(s.subrange(i, j))] + tokenize_from(s, j),
{
    lemma_ident_exact(s, i, j);
    assert(spec_is_ident_char(s[i]));
    assert(next_token(s, i) == (seq![SpecToken::Ident(s.subrange(i, j))], j));
    assert(seq![SpecToken::Ident(s.subrange(i, j))][0] != seq![SpecToken::Eof][0]);
}

/// `#name` at `i` tokenizes as one `Hash`.
proof fn lemma_hash_token(s: Seq<char>, i: int, j: int)
    requires
        0 <= i,
        i + 1 < j <= s.len(),
        s[i] == '#',
        forall|k: int| i + 1 <= k < j ==> spec_is_ident_char(#[trigger] s[k]),
        j == s.len() || (!spec_is_ident_char(s[j]) && s[j] != '\\'),
    ensures
        tokenize_from(s, i) == seq![SpecToken::Hash(s.subrange(i + 1, j))] + tokenize_from(s, j),
{
    lemma_ident_exact(s, i + 1, j);
    assert(next_token(s, i) == (seq![SpecToken::Hash(s.subrange(i + 1, j))], j));
    assert(seq![SpecToken::Hash(s.subrange(i + 1, j))][0] != seq![SpecToken::Eof][0]);
}

/// `.name` at `i` tokenizes as `Delim('.')` then `Ident`.
proof fn lemma_dot_tokens(s: Seq<char>, i: int, j: int)
    requires
        0 <= i,
        i + 1 < j <= s.len(),
        s[i] == '.',
        forall|k: int| i + 1 <= k < j ==> spec_is_ident_char(#[trigger] s[k]),
        j == s.len() || (!spec_is_ident_char(s[j]) && s[j] != '\\'),
    ensures
        tokenize_from(s, i) == seq![SpecToken::Delim('.'), SpecToken::Ident(s.subrange(i + 1, j))]
            + tokenize_from(s, j),
{
    lemma_ident_exact(s, i + 1, j);
    let name = s.subrange(i + 1, j);
    if spec_is_digit(s[i + 1]) {
        assert(next_token(s, i) == (seq![SpecToken::Delim('.')], i + 1));
        assert(seq![SpecToken::Delim('.')][0] != seq![SpecToken::Eof][0]);
        lemma_ident_token(s, i + 1, j);
        assert(seq![SpecToken::Delim('.')] + (seq![SpecToken::Ident(name)] + tokenize_from(s, j))
            =~= seq![SpecToken::Delim('.'), SpecToken::Ident(name)] + tokenize_from(s, j));
    } else {
        assert(next_token(s, i) == (seq![SpecToken::Delim('.'), SpecToken::Ident(name)], j));
        assert(seq![SpecToken::Delim('.'), SpecToken::Ident(name)] != seq![SpecToken::Eof]);
    }
}

/// The selector list of one selector of one compound selector.
pub open spec fn single_list(cs: SpecCompound) -> SpecSelectorList {
    SpecSelectorList {
        selectors: seq![SpecSelector { parts: seq![(Combinator::Start, cs)] }],
    }
}

/// Optional whitespace, the tokens `c` of one compound selector `cs`,
/// optional whitespace and `Eof` parse as the selector list of `cs`.
proof fn lemma_parse_single(w1: bool, c: Seq<SpecToken>, w2: bool, cs: SpecCompound)
    requires
        c.len() > 0,
        forall|m: int| 0 <= m < c.len() ==> !(#[trigger] c[m] is Whitespace) && !(c[m] is Eof),
        c[0] != SpecToken::Delim(','),
        c[0] != SpecToken::Delim('>'),
        c[0] != SpecToken::Delim('+'),
        c[0] != SpecToken::Delim('~'),
        compound(
            (if w1 {
                seq![SpecToken::Whitespace]
            } else {
                Seq::<SpecToken>::empty()
            }) + c + (if w2 {
                seq![SpecToken::Whitespace]
            } else {
                Seq::<SpecToken>::empty()
            }) + seq![SpecToken::Eof],
            if w1 {
                1int
            } else {
                0int
            },
        ) == Ok::<(SpecCompound, int), SpecParseError>(
            (
                cs,
                (if w1 {
                    1int
                } else {
                    0int
                }) + c.len(),
            ),
        ),
    ensures
        selector_list(
            (if w1 {
                seq![SpecToken::Whitespace]
            } else {
                Seq::<SpecToken>::empty()
            }) + c + (if w2 {
                seq![SpecToken::Whitespace]
            } else {
                Seq::<SpecToken>::empty()
            }) + seq![SpecToken::Eof],
        ) == Ok::<SpecSelectorList, SpecParseError>(single_list(cs)),
{
    let h: Seq<SpecToken> = if w1 {
        seq![SpecToken::Whitespace]
    } else {
        Seq::<SpecToken>::empty()
    };
    let tl: Seq<SpecToken> = if w2 {
        seq![SpecToken::Whitespace]
    } else {
        Seq::<SpecToken>::empty()
    };
    let t = h + c + tl + seq![SpecToken::Eof];
    let k0 = h.len() as int;
    let k1 = k0 + c.len();
    let e = t.len() - 1;
    assert(t.len() == h.len() + c.len() + tl.len() + 1);
    assert forall|m: int| 0 <= m < c.len() implies t[k0 + m] == c[m] by {}
    assert(t[e] == SpecToken::Eof);
    if w1 {
        assert(t[0] == SpecToken::Whitespace);
    }
    if w2 {
        assert(t[k1] == SpecToken::Whitespace);
        assert(e == k1 + 1);
    } else {
        assert(e == k1);
    }
    // leading whitespace
    assert(t[k0] == c[0]);
    assert(skip_ws(t, k0) == k0);
    assert(skip_ws(t, 0) == k0);
    assert(skip_ws(t, e) == e);
    assert(skip_ws(t, k1) == e);
    let parts = seq![(Combinator::Start, cs)];
    assert(selector_loop(t, k1, parts, Combinator::Descendant) == Ok::<
        (Seq<(Combinator, SpecCompound)>, int),
        SpecParseError,
    >((parts, e)));
    assert(Seq::<(Combinator, SpecCompound)>::empty().push((Combinator::Start, cs)) == parts);
    assert(selector_loop(t, k0, seq![], Combinator::Start) == selector_loop(
        t,
        k1,
        parts,
        Combinator::Descendant,
    ));
    let sel = SpecSelector { parts };
    assert(selector(t, k0) == Ok::<(SpecSelector, int), SpecParseError>((sel, e)));
    assert(list_loop(t, e, seq![sel]) == Ok::<Seq<SpecSelector>, SpecParseError>(seq![sel]));
}

/// The selector list of one compound selector without pseudo-classes
/// compiles to `//` and the compound selector's step.
proof fn lemma_compile_single(cs: SpecCompound)
    requires
        cs.pseudo_classes.len() == 0,
    ensures
        list_compiles(single_list(cs)),
        compile_list(single_list(cs)) == "//"@ + compound_step(cs),
{
    let l = single_list(cs);
    let sel = l.selectors[0];
    assert(first_is(cs.pseudo_classes) is None);
    assert(part_step(cs) == Some(compound_step(cs)));
    assert(sel.parts[0].1 == cs);
    assert(selector_compiles(sel));
    assert(list_compiles(l)) by {
        assert forall|i: int| 0 <= i < l.selectors.len() implies selector_compiles(
            #[trigger] l.selectors[i],
        ) by {
            assert(i == 0);
        }
    }
    assert(path_of(sel.parts, 1) == compound_step(cs));
    assert(compile_selector(sel) == "//"@ + compound_step(cs));
    let compiled = l.selectors.map_values(|s: SpecSelector| compile_selector(s));
    assert(compiled.len() == 1);
    assert(compiled[0] == compile_selector(sel));
}

proof fn lemma_bare_unquoted(s: Seq<char>)
    requires
        spec_is_bare(s),
    ensures
        !s.contains('\''),
        xpath_string(s) == "'"@ + s + "'"@,
        !(" "@ + s + " "@).contains('\''),
        xpath_string(" "@ + s + " "@) == "'"@ + (" "@ + s + " "@) + "'"@,
        s != "*"@,
{
    reveal_strlit(" ");
    reveal_strlit("*");
    assert(!s.contains('\'')) by {
        if s.contains('\'') {
            let k = choose|k: int| 0 <= k < s.len() && s[k] == '\'';
            assert(spec_is_ident_char(s[k]));
        }
    }
    let sp = " "@ + s + " "@;
    assert(!sp.contains('\'')) by {
        if sp.contains('\'') {
            let k = choose|k: int| 0 <= k < sp.len() && sp[k] == '\'';
            if 1 <= k < sp.len() - 1 {
                assert(sp[k] == s[k - 1]);
                assert(spec_is_ident_char(s[k - 1]));
            }
        }
    }
    assert(spec_is_ident_char(s[0]));
    if s == "*"@ {
        assert(s[0] == '*');
    }
}

/// The step of a compound selector with a tag (or none), no id, and no
/// classes, attributes or pseudo-classes.
proof fn lemma_bracket_one(p: Seq<char>)
    ensures
        bracketed(seq![p]) == "["@ + p + "]"@,
{
    assert(seq![p].drop_last() =~= Seq::<Seq<char>>::empty());
    assert(seq![p].last() == p);
    assert(bracketed(Seq::<Seq<char>>::empty()) == Seq::<char>::empty());
    assert(Seq::<char>::empty() + "["@ + p + "]"@ =~= "["@ + p + "]"@);
}

/// `tag#id` (or `#id`): the step of a compound selector with that tag and id.
proof fn lemma_id_step(tag: Option<Seq<char>>, id: Seq<char>)
    requires
        spec_is_bare(id),
    ensures
        "//"@ + compound_step(
            SpecCompound { tag, id: Some(id), classes: seq![], attrs: seq![], pseudo_classes: seq![] },
        ) == id_xpath(
            match tag {
                Some(t) => t,
                None => "*"@,
            },
            id,
        ),
{
    let cs = SpecCompound {
        tag,
        id: Some(id),
        classes: seq![],
        attrs: seq![],
        pseudo_classes: seq![],
    };
    let tg = tag_of(cs);
    lemma_bare_unquoted(id);
    let p = id_pred(id);
    let c = compile_compound(cs);
    assert(cs.classes.map_values(|x: Seq<char>| class_pred(x)) =~= Seq::<Seq<char>>::empty());
    assert(cs.attrs.map_values(|a: SpecAttr| compile_attr(a)) =~= Seq::<Seq<char>>::empty());
    assert(pseudo_preds(cs.pseudo_classes, tg) == Seq::<Seq<char>>::empty());
    assert(c.1 =~= seq![p]);
    lemma_bracket_one(p);
    reveal_strlit("//");
    reveal_strlit("[");
    reveal_strlit("]");
    reveal_strlit("@id=");
    reveal_strlit("'");
    reveal_strlit("[@id='");
    reveal_strlit("']");
    assert(compound_step(cs) == tg + ("["@ + ("@id="@ + ("'"@ + id + "'"@)) + "]"@));
    assert("//"@ + (tg + ("["@ + ("@id="@ + ("'"@ + id + "'"@)) + "]"@)) =~= "//"@ + tg
        + "[@id='"@ + id + "']"@);
}

/// `tag.class` (or `.class`): the step of a compound selector with that tag
/// and class.
proof fn lemma_class_step(tag: Option<Seq<char>>, class: Seq<char>)
    requires
        spec_is_bare(class),
    ensures
        "//"@ + compound_step(
            SpecCompound {
                tag,
                id: None,
                classes: seq![class],
                attrs: seq![],
                pseudo_classes: seq![],
            },
        ) == class_xpath(
            match tag {
                Some(t) => t,
                None => "*"@,
            },
            class,
        ),
{
    let cs = SpecCompound {
        tag,
        id: None,
        classes: seq![class],
        attrs: seq![],
        pseudo_classes: seq![],
    };
    let tg = tag_of(cs);
    lemma_bare_unquoted(class);
    let p = class_pred(class);
    let c = compile_compound(cs);
    assert(cs.classes.map_values(|x: Seq<char>| class_pred(x)) =~= seq![p]);
    assert(cs.attrs.map_values(|a: SpecAttr| compile_attr(a)) =~= Seq::<Seq<char>>::empty());
    assert(pseudo_preds(cs.pseudo_classes, tg) == Seq::<Seq<char>>::empty());
    assert(c.1 =~= seq![p]);
    lemma_bracket_one(p);
    reveal_strlit("//");
    reveal_strlit("[");
    reveal_strlit("]");
    reveal_strlit("'");
    reveal_strlit(" ");
    reveal_strlit(")");
    reveal_strlit("contains(concat(' ', normalize-space(@class), ' '), ");
    reveal_strlit("[contains(concat(' ', normalize-space(@class), ' '), ' ");
    reveal_strlit(" ')]");
    assert(p == "contains(concat(' ', normalize-space(@class), ' '), "@ + ("'"@ + (" "@ + class
        + " "@) + "'"@) + ")"@);
    assert("//"@ + (tg + ("["@ + p + "]"@)) =~= "//"@ + tg
        + "[contains(concat(' ', normalize-space(@class), ' '), ' "@ + class + " ')]"@);
}

/// `css` is whitespace, then the characters from `a` to `b` (the first
/// not whitespace), then whitespace.
pub open spec fn core_at(css: Seq<char>, a: int, b: int) -> bool {
    &&& 0 <= a < b <= css.len()
    &&& forall|k: int| 0 <= k < a ==> spec_is_ws(#[trigger] css[k])
    &&& forall|k: int| b <= k < css.len() ==> spec_is_ws(#[trigger] css[k])
    &&& !spec_is_ws(css[a])
}

/// The tokens of `css` around a core whose tokens are `c`.
pub open spec fn framed(css: Seq<char>, a: int, b: int, c: Seq<SpecToken>) -> Seq<SpecToken> {
    (if a > 0 {
        seq![SpecToken::Whitespace]
    } else {
        Seq::<SpecToken>::empty()
    }) + c + (if b < css.len() {
        seq![SpecToken::Whitespace]
    } else {
        Seq::<SpecToken>::empty()
    }) + seq![SpecToken::Eof]
}

/// Text whose core tokenizes as the tokens of one compound selector `cs`
/// parses as the selector list of `cs`, which compiles to `//` and the step
/// of `cs`.
proof fn lemma_single_result(css: Seq<char>, a: int, b: int, c: Seq<SpecToken>, cs: SpecCompound)
    requires
        core_at(css, a, b),
        tokenize_from(css, a) == c + tokenize_from(css, b),
        c.len() > 0,
        forall|m: int| 0 <= m < c.len() ==> !(#[trigger] c[m] is Whitespace) && !(c[m] is Eof),
        c[0] != SpecToken::Delim(','),
        c[0] != SpecToken::Delim('>'),
        c[0] != SpecToken::Delim('+'),
        c[0] != SpecToken::Delim('~'),
        cs.pseudo_classes.len() == 0,
        compound(framed(css, a, b, c), if a > 0 {
            1int
        } else {
            0int
        }) == Ok::<(SpecCompound, int), SpecParseError>(
            (
                cs,
                (if a > 0 {
                    1int
                } else {
                    0int
                }) + c.len(),
            ),
        ),
    ensures
        spec_parse(css) == Ok::<SpecSelectorList, SpecParseError>(single_list(cs)),
        list_compiles(single_list(cs)),
        compile_list(single_list(cs)) == "//"@ + compound_step(cs),
{
    lemma_head_tokens(css, a);
    lemma_tail_tokens(css, b);
    assert(spec_tokenize(css) =~= framed(css, a, b, c));
    assert(!all_ws(css));
    lemma_parse_single(a > 0, c, b < css.len(), cs);
    lemma_compile_single(cs);
}

/// Identifier characters from `i` to `j`, where `j` lies in the trailing
/// whitespace or is the end.
pub open spec fn ident_span(css: Seq<char>, i: int, j: int) -> bool {
    &&& 0 <= i < j <= css.len()
    &&& forall|k: int| i <= k < j ==> spec_is_ident_char(#[trigger] css[k])
}

proof fn lemma_span_of_bare(css: Seq<char>, i: int, j: int)
    requires
        0 <= i < j <= css.len(),
        spec_is_bare(css.subrange(i, j)),
    ensures
        ident_span(css, i, j),
{
    assert forall|k: int| i <= k < j implies spec_is_ident_char(#[trigger] css[k]) by {
        assert(css[k] == css.subrange(i, j)[k - i]);
    }
}

proof fn lemma_end_of_core(css: Seq<char>, a: int, b: int)
    requires
        core_at(css, a, b),
    ensures
        b == css.len() || (!spec_is_ident_char(css[b]) && css[b] != '\\'),
{
    if b < css.len() {
        assert(spec_is_ws(css[b]));
    }
}

#[verifier::spinoff_prover]
#[verifier::rlimit(40)]
proof fn lemma_case_bare(css: Seq<char>, a: int, b: int)
    requires
        core_at(css, a, b),
        spec_is_bare(css.subrange(a, b)),
    ensures
        spec_parse(css) matches Ok(l) && list_compiles(l) && compile_list(l) == "//"@ + css.subrange(a, b),
{
    let s = css.subrange(a, b);
    lemma_span_of_bare(css, a, b);
    lemma_end_of_core(css, a, b);
    lemma_ident_token(css, a, b);
    let c = seq![SpecToken::Ident(s)];
    let cs = SpecCompound { tag: Some(s), ..empty_compound() };
    let t = framed(css, a, b, c);
    let k0: int = if a > 0 {
        1
    } else {
        0
    };
    assert(t[k0] == SpecToken::Ident(s));
    assert(t[k0 + 1] is Whitespace || t[k0 + 1] is Eof);
    assert(compound_loop(t, k0 + 1, cs, true) == Ok::<(SpecCompound, int), SpecParseError>((cs, k0 + 1)));
    assert(compound(t, k0) == Ok::<(SpecCompound, int), SpecParseError>((cs, k0 + 1)));
    lemma_single_result(css, a, b, c, cs);
    lemma_bare_unquoted(s);
    let pc = compile_compound(cs);
    assert(cs.classes.map_values(|x: Seq<char>| class_pred(x)) =~= Seq::<Seq<char>>::empty());
    assert(cs.attrs.map_values(|x: SpecAttr| compile_attr(x)) =~= Seq::<Seq<char>>::empty());
    assert(pseudo_preds(cs.pseudo_classes, s) == Seq::<Seq<char>>::empty());
    assert(pc.1 =~= Seq::<Seq<char>>::empty());
    assert(compound_step(cs) == s);
}

#[verifier::spinoff_prover]
#[verifier::rlimit(40)]
proof fn lemma_case_id(css: Seq<char>, a: int, b: int)
    requires
        core_at(css, a, b),
        css[a] == '#',
        a + 1 < b,
        spec_is_bare(css.subrange(a + 1, b)),
    ensures
        spec_parse(css) matches Ok(l) && list_compiles(l) && compile_list(l) == id_xpath(
            "*"@,
            css.subrange(a + 1, b),
        ),
{
    let id = css.subrange(a + 1, b);
    lemma_span_of_bare(css, a + 1, b);
    lemma_end_of_core(css, a, b);
    lemma_hash_token(css, a, b);
    let c = seq![SpecToken::Hash(id)];
    let cs = SpecCompound { id: Some(id), ..empty_compound() };
    let t = framed(css, a, b, c);
    let k0: int = if a > 0 {
        1
    } else {
        0
    };
    assert(t[k0] == SpecToken::Hash(id));
    assert(t[k0 + 1] is Whitespace || t[k0 + 1] is Eof);
    assert(compound_loop(t, k0 + 1, cs, true) == Ok::<(SpecCompound, int), SpecParseError>((cs, k0 + 1)));
    assert(compound(t, k0) == Ok::<(SpecCompound, int), SpecParseError>((cs, k0 + 1)));
    lemma_single_result(css, a, b, c, cs);
    lemma_id_step(None, id);
}

#[verifier::spinoff_prover]
#[verifier::rlimit(40)]
proof fn lemma_case_class(css: Seq<char>, a: int, b: int)
    requires
        core_at(css, a, b),
        css[a] == '.',
        a + 1 < b,
        spec_is_bare(css.subrange(a + 1, b)),
    ensures
        spec_parse(css) matches Ok(l) && list_compiles(l) && compile_list(l) == class_xpath(
            "*"@,
            css.subrange(a + 1, b),
        ),
{
    let class = css.subrange(a + 1, b);
    lemma_span_of_bare(css, a + 1, b);
    lemma_end_of_core(css, a, b);
    lemma_dot_tokens(css, a, b);
    let c = seq![SpecToken::Delim('.'), SpecToken::Ident(class)];
    let cs = SpecCompound { classes: seq![class], ..empty_compound() };
    let t = framed(css, a, b, c);
    let k0: int = if a > 0 {
        1
    } else {
        0
    };
    assert(t[k0] == SpecToken::Delim('.'));
    assert(t[k0 + 1] == SpecToken::Ident(class));
    assert(t[k0 + 2] is Whitespace || t[k0 + 2] is Eof);
    assert(Seq::<Seq<char>>::empty().push(class) == seq![class]);
    assert(compound_loop(t, k0 + 2, cs, true) == Ok::<(SpecCompound, int), SpecParseError>((cs, k0 + 2)));
    assert(compound(t, k0) == Ok::<(SpecCompound, int), SpecParseError>((cs, k0 + 2)));
    lemma_single_result(css, a, b, c, cs);
    lemma_class_step(None, class);
}

#[verifier::spinoff_prover]
#[verifier::rlimit(40)]
proof fn lemma_case_tag_id(css: Seq<char>, a: int, m: int, b: int)
    requires
        core_at(css, a, b),
        a < m,
        m + 1 < b,
        css[m] == '#',
        spec_is_bare(css.subrange(a, m)),
        spec_is_bare(css.subrange(m + 1, b)),
    ensures
        spec_parse(css) matches Ok(l) && list_compiles(l) && compile_list(l) == id_xpath(
            css.subrange(a, m),
            css.subrange(m + 1, b),
        ),
{
    let tag = css.subrange(a, m);
    let id = css.subrange(m + 1, b);
    lemma_span_of_bare(css, a, m);
    lemma_span_of_bare(css, m + 1, b);
    lemma_end_of_core(css, a, b);
    lemma_ident_token(css, a, m);
    lemma_hash_token(css, m, b);
    let c = seq![SpecToken::Ident(tag), SpecToken::Hash(id)];
    assert(tokenize_from(css, a) =~= c + tokenize_from(css, b));
    let cs = SpecCompound { tag: Some(tag), id: Some(id), ..empty_compound() };
    let t = framed(css, a, b, c);
    let k0: int = if a > 0 {
        1
    } else {
        0
    };
    assert(t[k0] == SpecToken::Ident(tag));
    assert(t[k0 + 1] == SpecToken::Hash(id));
    assert(t[k0 + 2] is Whitespace || t[k0 + 2] is Eof);
    let cs1 = SpecCompound { tag: Some(tag), ..empty_compound() };
    assert(compound_loop(t, k0 + 2, cs, true) == Ok::<(SpecCompound, int), SpecParseError>((cs, k0 + 2)));
    assert(SpecCompound { id: Some(id), ..cs1 } == cs);
    assert(compound_loop(t, k0 + 1, cs1, true) == compound_loop(t, k0 + 2, cs, true));
    assert(compound_loop(t, k0, empty_compound(), false) == compound_loop(t, k0 + 1, cs1, true));
    assert(compound(t, k0) == Ok::<(SpecCompound, int), SpecParseError>((cs, k0 + 2)));
    lemma_single_result(css, a, b, c, cs);
    lemma_id_step(Some(tag), id);
}

proof fn lemma_compound_tag_class(t: Seq<SpecToken>, k0: int, tag: Seq<char>, class: Seq<char>)
    requires
        0 <= k0,
        k0 + 3 < t.len(),
        t[k0] == SpecToken::Ident(tag),
        t[k0 + 1] == SpecToken::Delim('.'),
        t[k0 + 2] == SpecToken::Ident(class),
        t[k0 + 3] is Whitespace || t[k0 + 3] is Eof,
    ensures
        compound(t, k0) == Ok::<(SpecCompound, int), SpecParseError>(
            (SpecCompound { tag: Some(tag), classes: seq![class], ..empty_compound() }, k0 + 3),
        ),
{
    let cs = SpecCompound { tag: Some(tag), classes: seq![class], ..empty_compound() };
    let cs1 = SpecCompound { tag: Some(tag), ..empty_compound() };
    assert(Seq::<Seq<char>>::empty().push(class) == seq![class]);
    assert(compound_loop(t, k0 + 3, cs, true) == Ok::<(SpecCompound, int), SpecParseError>((cs, k0 + 3)));
    assert(SpecCompound { classes: cs1.classes.push(class), ..cs1 } == cs);
    assert(expect_ident(t, k0 + 2) == Ok::<(Seq<char>, int), SpecParseError>((class, k0 + 3)));
    assert(compound_loop(t, k0 + 1, cs1, true) == compound_loop(t, k0 + 3, cs, true));
    assert(compound_loop(t, k0, empty_compound(), false) == compound_loop(t, k0 + 1, cs1, true));
}

#[verifier::spinoff_prover]
#[verifier::rlimit(40)]
proof fn lemma_case_tag_class(css: Seq<char>, a: int, m: int, b: int)
    requires
        core_at(css, a, b),
        a < m,
        m + 1 < b,
        css[m] == '.',
        spec_is_bare(css.subrange(a, m)),
        spec_is_bare(css.subrange(m + 1, b)),
    ensures
        spec_parse(css) matches Ok(l) && list_compiles(l) && compile_list(l) == class_xpath(
            css.subrange(a, m),
            css.subrange(m + 1, b),
        ),
{
    let tag = css.subrange(a, m);
    let class = css.subrange(m + 1, b);
    lemma_span_of_bare(css, a, m);
    lemma_span_of_bare(css, m + 1, b);
    lemma_end_of_core(css, a, b);
    lemma_ident_token(css, a, m);
    lemma_dot_tokens(css, m, b);
    let c = seq![SpecToken::Ident(tag), SpecToken::Delim('.'), SpecToken::Ident(class)];
    assert(tokenize_from(css, a) =~= c + tokenize_from(css, b));
    let cs = SpecCompound { tag: Some(tag), classes: seq![class], ..empty_compound() };
    let t = framed(css, a, b, c);
    let k0: int = if a > 0 {
        1
    } else {
        0
    };
    assert(t[k0] == SpecToken::Ident(tag));
    assert(t[k0 + 1] == SpecToken::Delim('.'));
    assert(t[k0 + 2] == SpecToken::Ident(class));
    assert(t[k0 + 3] is Whitespace || t[k0 + 3] is Eof);
    lemma_compound_tag_class(t, k0, tag, class);
    lemma_single_result(css, a, b, c, cs);
    lemma_class_step(Some(tag), class);
}

/// The fast path gives what parsing and compiling give: whenever it applies,
/// the text parses into a selector list that compiles to the same XPath.
pub proof fn lemma_fast_path(css: Seq<char>)
    ensures
        fast_path(css) matches Some(x) ==> (spec_parse(css) matches Ok(l) && list_compiles(l)
            && compile_list(l) == x),
{
    let s = trim(css);
    if s.len() > 0 && fast_path(css) is Some {
        let (a, b) = lemma_trim_bounds(css);
        assert(core_at(css, a, b));
        let h = find_char(s, '#');
        let d = find_char(s, '.');
        lemma_find_char(s, '#');
        lemma_find_char(s, '.');
        if spec_is_bare(s) {
            lemma_case_bare(css, a, b);
        } else if s[0] == '#' && spec_is_bare(s.drop_first()) {
            assert(css.subrange(a + 1, b) =~= s.drop_first());
            lemma_case_id(css, a, b);
        } else if s[0] == '.' && spec_is_bare(s.drop_first()) {
            assert(css.subrange(a + 1, b) =~= s.drop_first());
            lemma_case_class(css, a, b);
        } else if h >= 0 && spec_is_bare(s.take(h)) && spec_is_bare(s.skip(h + 1)) {
            assert(css.subrange(a, a + h) =~= s.take(h));
            assert(css.subrange(a + h + 1, b) =~= s.skip(h + 1));
            lemma_case_tag_id(css, a, a + h, b);
        } else {
            assert(css.subrange(a, a + d) =~= s.take(d));
            assert(css.subrange(a + d + 1, b) =~= s.skip(d + 1));
            lemma_case_tag_class(css, a, a + d, b);
        }
    }
}

} // verus!
