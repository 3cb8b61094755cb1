//! CSS selector parser: a tokenizer and a recursive-descent parser that
//! produce a [`SelectorList`].
use vstd::prelude::*;

use super::ast::{
    attrs_view, chain_view, chains_view, compound_view, empty_compound, parts_view, pseudo_view,
    pseudos_view, selectors_view, strings_view, SpecAttr, SpecCompound, SpecParseError,
    SpecPseudo, SpecSelector, SpecSelectorList,
};
use super::nth::nth_values;
use super::syntax;
use super::syntax::{selector_list, list_loop, selector_loop, spec_parse, peek, arg_text, chain_loop, compound_loop, err, lemma_skip_ws, skip_ws, tok_debug};
use super::text::{
    all_ws_chars, nat_text, usize_text, chars_eq_str, chars_of, copy_chars, debug_char, debug_str, extend_chars, push_char,
    push_chars, string_of, to_lowercase,
};
use super::tokenizer::{
    lemma_next_token, next_token, tokenize, tokenize_from, tokens_view, SpecToken, Token,
};

verus! {

/// How a compound selector is reached from the one before it.
#[derive(Debug, Clone, Copy, PartialEq, Eq, Structural)]
pub enum Combinator {
    /// The first compound selector of a chain, reached by no combinator.
    Start,
    Descendant,
    Child,
    Adjacent,
    Sibling,
}

/// The comparison of an attribute selector.
#[derive(Debug, Clone, Copy, PartialEq, Eq, Structural)]
pub enum AttrOp {
    Present,
    Exact,
    Prefix,
    Suffix,
    Substring,
    Include,
    Dash,
}

#[derive(Debug, Clone, PartialEq)]
pub struct AttributeSelector {
    pub name: String,
    pub op: AttrOp,
    pub value: String,
    /// If true, the match is case-insensitive (`[attr="value" i]` in CSS4).
    pub case_insensitive: bool,
}

#[derive(Debug, PartialEq)]
pub enum PseudoClass {
    FirstChild,
    LastChild,
    FirstOfType,
    LastOfType,
    OnlyChild,
    OnlyOfType,
    Empty,
    Root,
    NthChild { a: i32, b: i32 },
    NthLastChild { a: i32, b: i32 },
    NthOfType { a: i32, b: i32 },
    NthLastOfType { a: i32, b: i32 },
    Not(Box<CompoundSelector>),
    Is(Vec<Vec<CompoundSelector>>),
    Has(Vec<Vec<CompoundSelector>>),
    Lang(String),
    Link,
    Visited,
    // Form pseudo-classes
    Enabled,
    Disabled,
    Checked,
    Indeterminate,
    Required,
    Optional,
    ReadOnly,
    ReadWrite,
    // Validity pseudo-classes
    Valid,
    Invalid,
    InRange,
    OutOfRange,
    // Other
    Target,
    Unknown(String),
}

/// A CSS pseudo-element (e.g., `::before`, `::after`).
///
/// Pseudo-elements select virtual portions of the document that don't
/// correspond to real DOM nodes. In an HTML/XML parsing context, they are
/// mostly informational.
#[derive(Debug, Clone, PartialEq)]
pub enum PseudoElement {
    Before,
    After,
    FirstLine,
    FirstLetter,
    Selection,
    Unknown(String),
}

#[derive(Debug, PartialEq)]
pub struct CompoundSelector {
    pub tag: Option<String>,
    pub id: Option<String>,
    pub classes: Vec<String>,
    pub attrs: Vec<AttributeSelector>,
    pub pseudo_classes: Vec<PseudoClass>,
}

#[derive(Debug, PartialEq)]
pub struct Selector {
    pub parts: Vec<(Combinator, CompoundSelector)>,
}

#[derive(Debug, PartialEq)]
pub struct SelectorList {
    pub selectors: Vec<Selector>,
}

#[derive(Debug, Clone, PartialEq)]
pub struct ParseError {
    pub message: String,
    pub position: usize,
}

} // verus!

// ── Parser ───────────────────────────────────────────────────────────────────
verus! {

/// The tokens that the parser reads: at least one, the last being `Eof`.
pub open spec fn well_formed_tokens(t: Seq<SpecToken>) -> bool {
    t.len() > 0 && t.last() == SpecToken::Eof
}

proof fn lemma_tokens_well_formed(s: Seq<char>, i: int)
    requires
        0 <= i,
    ensures
        well_formed_tokens(tokenize_from(s, i)),
    decreases s.len() - i,
{
    let r = next_token(s, i);
    lemma_next_token(s, i);
    if r.0 != seq![SpecToken::Eof] {
        lemma_tokens_well_formed(s, r.1);
        assert((r.0 + tokenize_from(s, r.1)).last() == tokenize_from(s, r.1).last());
    }
}

fn error_at(message: String, position: usize) -> (e: ParseError)
    ensures
        e@ == err(message@, position as int),
{
    ParseError { message, position }
}

/// The `Debug` form of a token.
fn token_debug(tok: &Token) -> (r: String)
    ensures
        r@ == tok_debug(tok@),
{
    match tok {
        Token::Ident(n) => {
            let mut m = String::from_str("Ident(");
            let s = string_of(n);
            let d = debug_str(s.as_str());
            m.append(d.as_str());
            m.append(")");
            m
        },
        Token::Hash(n) => {
            let mut m = String::from_str("Hash(");
            let s = string_of(n);
            let d = debug_str(s.as_str());
            m.append(d.as_str());
            m.append(")");
            m
        },
        Token::Str(n) => {
            let mut m = String::from_str("String_(");
            let s = string_of(n);
            let d = debug_str(s.as_str());
            m.append(d.as_str());
            m.append(")");
            m
        },
        Token::Delim(c) => {
            let mut m = String::from_str("Delim(");
            let d = debug_char(*c);
            m.append(d.as_str());
            m.append(")");
            m
        },
        Token::DashMatch => String::from_str("DashMatch"),
        Token::PrefixMatch => String::from_str("PrefixMatch"),
        Token::SuffixMatch => String::from_str("SuffixMatch"),
        Token::SubstrMatch => String::from_str("SubstrMatch"),
        Token::IncludeMatch => String::from_str("IncludeMatch"),
        Token::Whitespace => String::from_str("Whitespace"),
        Token::Eof => String::from_str("Eof"),
    }
}

/// `prefix` followed by the `Debug` form of `tok`.
fn message_with_token(prefix: &str, tok: &Token) -> (r: String)
    ensures
        r@ == prefix@ + tok_debug(tok@),
{
    let mut m = String::from_str(prefix);
    let d = token_debug(tok);
    m.append(d.as_str());
    m
}

fn skip_ws_tokens(t: &Vec<Token>, p: usize) -> (q: usize)
    requires
        well_formed_tokens(tokens_view(t@)),
        p < t.len(),
    ensures
        q == skip_ws(tokens_view(t@), p as int),
        p <= q < t.len(),
{
    let ghost tv = tokens_view(t@);
    let mut q = p;
    while q < t.len()
        invariant
            tv == tokens_view(t@),
            well_formed_tokens(tv),
            p <= q < t.len(),
            skip_ws(tv, p as int) == skip_ws(tv, q as int),
        decreases t.len() - q,
    {
        assert(tv[q as int] == t@[q as int]@);
        match &t[q] {
            Token::Whitespace => {},
            _ => {
                return q;
            },
        }
        assert(q + 1 < t.len()) by {
            if q + 1 == t.len() {
                assert(tv.last() == tv[q as int]);
            }
        }
        q += 1;
    }
    q
}


fn expect_ident(t: &Vec<Token>, p: usize) -> (r: Result<(Vec<char>, usize), ParseError>)
    requires
        well_formed_tokens(tokens_view(t@)),
        p < t.len(),
    ensures
        match r {
            Ok((n, q)) => syntax::expect_ident(tokens_view(t@), p as int) == Ok::<
                (Seq<char>, int),
                SpecParseError,
            >((n@, q as int)) && q < t.len(),
            Err(e) => syntax::expect_ident(tokens_view(t@), p as int) == Err::<
                (Seq<char>, int),
                SpecParseError,
            >(e@),
        },
{
    let ghost tv = tokens_view(t@);
    assert(tv[p as int] == t@[p as int]@);
    match &t[p] {
        Token::Ident(n) => {
            proof {
                if p + 1 == t.len() {
                    assert(tv.last() == tv[p as int]);
                }
            }
            Ok((copy_chars(n), p + 1))
        },
        tok => Err(error_at(message_with_token("expected identifier, got ", tok), p + 1)),
    }
}

fn expect_delim(t: &Vec<Token>, p: usize, c: char) -> (r: Result<usize, ParseError>)
    requires
        well_formed_tokens(tokens_view(t@)),
        p < t.len(),
    ensures
        match r {
            Ok(q) => syntax::expect_delim(tokens_view(t@), p as int, c) == Ok::<int, SpecParseError>(
                q as int,
            ) && q < t.len(),
            Err(e) => syntax::expect_delim(tokens_view(t@), p as int, c) == Err::<
                int,
                SpecParseError,
            >(e@),
        },
{
    let ghost tv = tokens_view(t@);
    assert(tv[p as int] == t@[p as int]@);
    let tok = &t[p];
    let is_c = match tok {
        Token::Delim(d) => *d == c,
        _ => false,
    };
    if is_c {
        proof {
            assert(tv[p as int] == SpecToken::Delim(c));
            assert(peek(tv, p as int) == SpecToken::Delim(c));
            assert(syntax::expect_delim(tv, p as int, c) == Ok::<int, SpecParseError>(p + 1));
            if p + 1 == t.len() {
                assert(tv.last() == tv[p as int]);
            }
            assert(p + 1 < t.len());
        }
        let q = p + 1;
        assert(syntax::expect_delim(tokens_view(t@), p as int, c) == Ok::<int, SpecParseError>(q as int));
        Ok(q)
    } else {
        let mut m = String::from_str("expected '");
        push_char(&mut m, c);
        m.append("', got ");
        let d = token_debug(tok);
        m.append(d.as_str());
        assert(m@ =~= "expected '"@ + seq![c] + "', got "@ + tok_debug(tok@));
        Err(error_at(m, p + 1))
    }
}

fn attr_value(t: &Vec<Token>, p: usize) -> (r: Result<(Vec<char>, usize), ParseError>)
    requires
        well_formed_tokens(tokens_view(t@)),
        p < t.len(),
    ensures
        match r {
            Ok((v, q)) => syntax::attr_value(tokens_view(t@), p as int) == Ok::<
                (Seq<char>, int),
                SpecParseError,
            >((v@, q as int)) && q < t.len(),
            Err(e) => syntax::attr_value(tokens_view(t@), p as int) == Err::<
                (Seq<char>, int),
                SpecParseError,
            >(e@),
        },
{
    let ghost tv = tokens_view(t@);
    assert(tv[p as int] == t@[p as int]@);
    proof {
        if p + 1 == t.len() {
            assert(tv.last() == tv[p as int]);
        }
    }
    match &t[p] {
        Token::Str(v) => Ok((copy_chars(v), p + 1)),
        Token::Ident(v) => Ok((copy_chars(v), p + 1)),
        tok => Err(error_at(message_with_token("expected string or identifier, got ", tok), p)),
    }
}

fn attr_op_of(tok: &Token) -> (r: Option<AttrOp>)
    ensures
        r == syntax::attr_op_of(tok@),
{
    match tok {
        Token::Delim(c) => if *c == '=' {
            Some(AttrOp::Exact)
        } else {
            None
        },
        Token::PrefixMatch => Some(AttrOp::Prefix),
        Token::SuffixMatch => Some(AttrOp::Suffix),
        Token::SubstrMatch => Some(AttrOp::Substring),
        Token::IncludeMatch => Some(AttrOp::Include),
        Token::DashMatch => Some(AttrOp::Dash),
        _ => None,
    }
}

fn attr_op_value(t: &Vec<Token>, p: usize) -> (r: Result<(AttrOp, Vec<char>, usize), ParseError>)
    requires
        well_formed_tokens(tokens_view(t@)),
        p < t.len(),
    ensures
        match r {
            Ok((op, v, q)) => syntax::attr_op_value(tokens_view(t@), p as int) == Ok::<
                (AttrOp, Seq<char>, int),
                SpecParseError,
            >((op, v@, q as int)) && p < q < t.len(),
            Err(e) => syntax::attr_op_value(tokens_view(t@), p as int) == Err::<
                (AttrOp, Seq<char>, int),
                SpecParseError,
            >(e@),
        },
{
    let ghost tv = tokens_view(t@);
    assert(tv[p as int] == t@[p as int]@);
    let tok = &t[p];
    let is_close = match tok {
        Token::Delim(c) => *c == ']',
        _ => false,
    };
    if is_close {
        proof {
            if p + 1 == t.len() {
                assert(tv.last() == tv[p as int]);
            }
        }
        let empty: Vec<char> = Vec::new();
        assert(empty@ =~= Seq::<char>::empty());
        return Ok((AttrOp::Present, empty, p + 1));
    }
    match attr_op_of(tok) {
        Some(op) => {
            proof {
                if p + 1 == t.len() {
                    assert(tv.last() == tv[p as int]);
                }
            }
            let q = skip_ws_tokens(t, p + 1);
            match attr_value(t, q) {
                Ok((v, q2)) => Ok((op, v, q2)),
                Err(e) => Err(e),
            }
        },
        None => Err(
            error_at(message_with_token("expected attribute operator or ']', got ", tok), p),
        ),
    }
}

fn is_case_flag(tok: &Token) -> (r: bool)
    ensures
        r == syntax::is_case_flag(tok@),
{
    match tok {
        Token::Ident(s) => s.len() == 1 && (s[0] == 'i' || s[0] == 'I'),
        _ => false,
    }
}

fn attribute(t: &Vec<Token>, p: usize) -> (r: Result<(AttributeSelector, usize), ParseError>)
    requires
        well_formed_tokens(tokens_view(t@)),
        p < t.len(),
    ensures
        match r {
            Ok((a, q)) => syntax::attribute(tokens_view(t@), p as int) == Ok::<
                (SpecAttr, int),
                SpecParseError,
            >((a@, q as int)) && p < q < t.len(),
            Err(e) => syntax::attribute(tokens_view(t@), p as int) == Err::<
                (SpecAttr, int),
                SpecParseError,
            >(e@),
        },
{
    let ghost tv = tokens_view(t@);
    let p0 = skip_ws_tokens(t, p);
    let (name, p1) = match expect_ident(t, p0) {
        Ok(x) => x,
        Err(e) => {
            return Err(e);
        },
    };
    let p1s = skip_ws_tokens(t, p1);
    let (op, value, p2) = match attr_op_value(t, p1s) {
        Ok(x) => x,
        Err(e) => {
            return Err(e);
        },
    };
    if op == AttrOp::Present {
        let attr = AttributeSelector {
            name: string_of(&name),
            op,
            value: string_of(&value),
            case_insensitive: false,
        };
        return Ok((attr, p2));
    }
    let p3 = skip_ws_tokens(t, p2);
    assert(tv[p3 as int] == t@[p3 as int]@);
    let ci = is_case_flag(&t[p3]);
    let p4 = if ci {
        proof {
            if p3 + 1 == t.len() {
                assert(tv.last() == tv[p3 as int]);
            }
        }
        skip_ws_tokens(t, p3 + 1)
    } else {
        p3
    };
    let attr = AttributeSelector {
        name: string_of(&name),
        op,
        value: string_of(&value),
        case_insensitive: ci,
    };
    match expect_delim(t, p4, ']') {
        Ok(p5) => Ok((attr, p5)),
        Err(e) => Err(e),
    }
}

/// The argument text of a pseudo-class, up to its closing `)`.
fn pseudo_arg(t: &Vec<Token>, p: usize) -> (r: Result<(Vec<char>, usize), ParseError>)
    requires
        well_formed_tokens(tokens_view(t@)),
        p < t.len(),
    ensures
        match r {
            Ok((s, q)) => syntax::pseudo_arg(tokens_view(t@), p as int) == Ok::<
                (Seq<char>, int),
                SpecParseError,
            >((s@, q as int)) && p <= q < t.len(),
            Err(e) => syntax::pseudo_arg(tokens_view(t@), p as int) == Err::<
                (Seq<char>, int),
                SpecParseError,
            >(e@),
        },
{
    let ghost tv = tokens_view(t@);
    let mut depth: usize = 1;
    let mut acc: Vec<char> = Vec::new();
    let mut q = p;
    assert(acc@ =~= Seq::<char>::empty());
    loop
        invariant
            tv == tokens_view(t@),
            well_formed_tokens(tv),
            p <= q < t.len(),
            1 <= depth <= q - p + 1,
            syntax::pseudo_arg(tv, p as int) == arg_text(tv, q as int, depth as int, acc@),
        decreases t.len() - q,
    {
        assert(tv[q as int] == t@[q as int]@);
        match &t[q] {
            Token::Eof => {
                return Err(error_at(String::from_str("unterminated pseudo-class argument"), q));
            },
            Token::Delim(c) => {
                if *c == '(' {
                    depth += 1;
                    acc.push('(');
                } else if *c == ')' {
                    if depth == 1 {
                        return Ok((acc, q));
                    }
                    depth -= 1;
                    acc.push(')');
                } else {
                    acc.push(*c);
                }
            },
            Token::Str(v) => {
                let ghost before = acc@;
                acc.push('"');
                extend_chars(&mut acc, v);
                acc.push('"');
                assert(acc@ =~= before + seq!['"'] + v@ + seq!['"']);
            },
            Token::Ident(v) => {
                extend_chars(&mut acc, v);
            },
            Token::Whitespace => {
                acc.push(' ');
            },
            _ => {},
        }
        proof {
            if q + 1 == t.len() {
                assert(tv.last() == tv[q as int]);
            }
        }
        q += 1;
    }
}

fn pseudo_name(t: &Vec<Token>, p: usize) -> (r: Result<(Vec<char>, usize), ParseError>)
    requires
        well_formed_tokens(tokens_view(t@)),
        p < t.len(),
    ensures
        match r {
            Ok((n, q)) => syntax::pseudo_name(tokens_view(t@), p as int) == Ok::<
                (Seq<char>, int),
                SpecParseError,
            >((n@, q as int)) && p < q < t.len(),
            Err(e) => syntax::pseudo_name(tokens_view(t@), p as int) == Err::<
                (Seq<char>, int),
                SpecParseError,
            >(e@),
        },
{
    let ghost tv = tokens_view(t@);
    assert(tv[p as int] == t@[p as int]@);
    proof {
        if p + 1 == t.len() {
            assert(tv.last() == tv[p as int]);
        }
    }
    match &t[p] {
        Token::Ident(n) => Ok((copy_chars(n), p + 1)),
        Token::Delim(c) => {
            if *c == ':' {
                expect_ident(t, p + 1)
            } else {
                Err(error_at(message_with_token("expected pseudo-class name, got ", &t[p]), p))
            }
        },
        tok => Err(error_at(message_with_token("expected pseudo-class name, got ", tok), p)),
    }
}

fn simple_pseudo(lower: &Vec<char>, name: &Vec<char>) -> (r: PseudoClass)
    ensures
        r@ == syntax::simple_pseudo(lower@, name@),
{
    if chars_eq_str(lower, "first-child") {
        PseudoClass::FirstChild
    } else if chars_eq_str(lower, "last-child") {
        PseudoClass::LastChild
    } else if chars_eq_str(lower, "first-of-type") {
        PseudoClass::FirstOfType
    } else if chars_eq_str(lower, "last-of-type") {
        PseudoClass::LastOfType
    } else if chars_eq_str(lower, "only-child") {
        PseudoClass::OnlyChild
    } else if chars_eq_str(lower, "only-of-type") {
        PseudoClass::OnlyOfType
    } else if chars_eq_str(lower, "empty") {
        PseudoClass::Empty
    } else if chars_eq_str(lower, "root") {
        PseudoClass::Root
    } else if chars_eq_str(lower, "link") {
        PseudoClass::Link
    } else if chars_eq_str(lower, "visited") {
        PseudoClass::Visited
    } else if chars_eq_str(lower, "enabled") {
        PseudoClass::Enabled
    } else if chars_eq_str(lower, "disabled") {
        PseudoClass::Disabled
    } else if chars_eq_str(lower, "checked") {
        PseudoClass::Checked
    } else if chars_eq_str(lower, "indeterminate") {
        PseudoClass::Indeterminate
    } else if chars_eq_str(lower, "required") {
        PseudoClass::Required
    } else if chars_eq_str(lower, "optional") {
        PseudoClass::Optional
    } else if chars_eq_str(lower, "read-only") {
        PseudoClass::ReadOnly
    } else if chars_eq_str(lower, "read-write") {
        PseudoClass::ReadWrite
    } else if chars_eq_str(lower, "valid") {
        PseudoClass::Valid
    } else if chars_eq_str(lower, "invalid") {
        PseudoClass::Invalid
    } else if chars_eq_str(lower, "in-range") {
        PseudoClass::InRange
    } else if chars_eq_str(lower, "out-of-range") {
        PseudoClass::OutOfRange
    } else if chars_eq_str(lower, "target") {
        PseudoClass::Target
    } else {
        PseudoClass::Unknown(string_of(name))
    }
}

fn text_pseudo(t: &Vec<Token>, p: usize, name: &Vec<char>, lower: &Vec<char>) -> (r: Result<
    (PseudoClass, usize),
    ParseError,
>)
    requires
        well_formed_tokens(tokens_view(t@)),
        p < t.len(),
    ensures
        match r {
            Ok((pc, q)) => syntax::text_pseudo(tokens_view(t@), p as int, name@, lower@) == Ok::<
                (SpecPseudo, int),
                SpecParseError,
            >((pc@, q as int)) && p <= q < t.len(),
            Err(e) => syntax::text_pseudo(tokens_view(t@), p as int, name@, lower@) == Err::<
                (SpecPseudo, int),
                SpecParseError,
            >(e@),
        },
{
    let (arg, q) = match pseudo_arg(t, p) {
        Ok(x) => x,
        Err(e) => {
            return Err(e);
        },
    };
    if chars_eq_str(lower, "nth-child") {
        let (a, b) = nth_values(&arg);
        Ok((PseudoClass::NthChild { a, b }, q))
    } else if chars_eq_str(lower, "nth-last-child") {
        let (a, b) = nth_values(&arg);
        Ok((PseudoClass::NthLastChild { a, b }, q))
    } else if chars_eq_str(lower, "nth-of-type") {
        let (a, b) = nth_values(&arg);
        Ok((PseudoClass::NthOfType { a, b }, q))
    } else if chars_eq_str(lower, "nth-last-of-type") {
        let (a, b) = nth_values(&arg);
        Ok((PseudoClass::NthLastOfType { a, b }, q))
    } else if chars_eq_str(lower, "lang") {
        Ok((PseudoClass::Lang(string_of(&arg)), q))
    } else {
        let mut text = string_of(name);
        push_char(&mut text, '(');
        push_chars(&mut text, &arg);
        push_char(&mut text, ')');
        proof {
            reveal_strlit("(");
            reveal_strlit(")");
            assert(text@ =~= name@ + "("@ + arg@ + ")"@);
        }
        Ok((PseudoClass::Unknown(text), q))
    }
}

proof fn lemma_pseudos_push(v: Seq<PseudoClass>, x: PseudoClass)
    ensures
        pseudos_view(v.push(x)) == pseudos_view(v).push(pseudo_view(x)),
{
    assert(v.push(x).subrange(0, v.len() as int) =~= v);
}

proof fn lemma_chain_push(v: Seq<CompoundSelector>, x: CompoundSelector)
    ensures
        chain_view(v.push(x)) == chain_view(v).push(compound_view(x)),
{
    assert(v.push(x).subrange(0, v.len() as int) =~= v);
}

proof fn lemma_chains_push(v: Seq<Vec<CompoundSelector>>, x: Vec<CompoundSelector>)
    ensures
        chains_view(v.push(x)) == chains_view(v).push(chain_view(x@)),
{
    assert(v.push(x).subrange(0, v.len() as int) =~= v);
}

/// A pseudo-class, starting after its `:`.
fn pseudo(t: &Vec<Token>, p: usize) -> (r: Result<(PseudoClass, usize), ParseError>)
    requires
        well_formed_tokens(tokens_view(t@)),
        p < t.len(),
    ensures
        match r {
            Ok((pc, q)) => syntax::pseudo(tokens_view(t@), p as int) == Ok::<
                (SpecPseudo, int),
                SpecParseError,
            >((pc@, q as int)) && p < q < t.len(),
            Err(e) => syntax::pseudo(tokens_view(t@), p as int) == Err::<
                (SpecPseudo, int),
                SpecParseError,
            >(e@),
        },
    decreases t.len() - p, 0int,
{
    let ghost tv = tokens_view(t@);
    let (name, p1) = match pseudo_name(t, p) {
        Ok(x) => x,
        Err(e) => {
            return Err(e);
        },
    };
    let name_string = string_of(&name);
    let lower_string = to_lowercase(name_string.as_str());
    let lower = chars_of(lower_string.as_str());
    assert(tv[p1 as int] == t@[p1 as int]@);
    let open = match &t[p1] {
        Token::Delim(c) => *c == '(',
        _ => false,
    };
    if open {
        proof {
            if p1 + 1 == t.len() {
                assert(tv.last() == tv[p1 as int]);
            }
        }
        let p2 = skip_ws_tokens(t, p1 + 1);
        let inner = if chars_eq_str(&lower, "not") {
            match compound(t, p2) {
                Ok((cs, q)) => Ok((PseudoClass::Not(Box::new(cs)), q)),
                Err(e) => Err(e),
            }
        } else if chars_eq_str(&lower, "is") || chars_eq_str(&lower, "matches") {
            match is_list(t, p2) {
                Ok((l, q)) => Ok((PseudoClass::Is(l), q)),
                Err(e) => Err(e),
            }
        } else if chars_eq_str(&lower, "has") {
            match is_list(t, p2) {
                Ok((l, q)) => Ok((PseudoClass::Has(l), q)),
                Err(e) => Err(e),
            }
        } else {
            text_pseudo(t, p2, &name, &lower)
        };
        match inner {
            Err(e) => Err(e),
            Ok((pc, q)) => {
                let q1 = skip_ws_tokens(t, q);
                match expect_delim(t, q1, ')') {
                    Ok(q2) => Ok((pc, q2)),
                    Err(e) => Err(e),
                }
            },
        }
    } else {
        Ok((simple_pseudo(&lower, &name), p1))
    }
}

/// A compound selector: the simple selectors that follow each other at `p`.
fn compound(t: &Vec<Token>, p: usize) -> (r: Result<(CompoundSelector, usize), ParseError>)
    requires
        well_formed_tokens(tokens_view(t@)),
        p < t.len(),
    ensures
        match r {
            Ok((cs, q)) => syntax::compound(tokens_view(t@), p as int) == Ok::<
                (SpecCompound, int),
                SpecParseError,
            >((cs@, q as int)) && p < q < t.len(),
            Err(e) => syntax::compound(tokens_view(t@), p as int) == Err::<
                (SpecCompound, int),
                SpecParseError,
            >(e@),
        },
    decreases t.len() - p, 0int,
{
    let ghost tv = tokens_view(t@);
    let mut cs = CompoundSelector {
        tag: None,
        id: None,
        classes: Vec::new(),
        attrs: Vec::new(),
        pseudo_classes: Vec::new(),
    };
    let mut saw = false;
    let mut q = p;
    proof {
        assert(strings_view(cs.classes@) =~= Seq::<Seq<char>>::empty());
        assert(attrs_view(cs.attrs@) =~= Seq::<SpecAttr>::empty());
        assert(pseudos_view(cs.pseudo_classes@) =~= Seq::<SpecPseudo>::empty());
        assert(cs@ == empty_compound());
    }
    loop
        invariant
            tv == tokens_view(t@),
            well_formed_tokens(tv),
            p <= q < t.len(),
            saw ==> p < q,
            syntax::compound(tv, p as int) == compound_loop(tv, q as int, cs@, saw),
        decreases t.len() - q,
    {
        assert(tv[q as int] == t@[q as int]@);
        proof {
            if q + 1 == t.len() {
                assert(tv.last() == tv[q as int]);
            }
        }
        let ghost before = cs@;
        match &t[q] {
            Token::Ident(name) => {
                cs.tag = Some(string_of(name));
                saw = true;
                q += 1;
                assert(cs@ == SpecCompound { tag: Some(name@), ..before });
            },
            Token::Hash(id) => {
                if cs.id.is_some() {
                    return Err(error_at(String::from_str("duplicate id selector"), q + 1));
                }
                cs.id = Some(string_of(id));
                saw = true;
                q += 1;
                assert(cs@ == SpecCompound { id: Some(id@), ..before });
            },
            Token::Delim(c) => {
                if *c == '*' {
                    saw = true;
                    q += 1;
                } else if *c == '.' {
                    match expect_ident(t, q + 1) {
                        Ok((n, q2)) => {
                            let ghost old_classes = cs.classes@;
                            cs.classes.push(string_of(&n));
                            assert(strings_view(cs.classes@) =~= strings_view(old_classes).push(n@));
                            assert(cs@ == SpecCompound { classes: before.classes.push(n@), ..before });
                            saw = true;
                            q = q2;
                        },
                        Err(e) => {
                            return Err(e);
                        },
                    }
                } else if *c == '[' {
                    match attribute(t, q + 1) {
                        Ok((a, q2)) => {
                            let ghost old_attrs = cs.attrs@;
                            let ghost av = a@;
                            cs.attrs.push(a);
                            assert(attrs_view(cs.attrs@) =~= attrs_view(old_attrs).push(av));
                            assert(cs@ == SpecCompound { attrs: before.attrs.push(av), ..before });
                            saw = true;
                            q = q2;
                        },
                        Err(e) => {
                            return Err(e);
                        },
                    }
                } else if *c == ':' {
                    match pseudo(t, q + 1) {
                        Ok((pc, q2)) => {
                            let ghost old_pcs = cs.pseudo_classes@;
                            let ghost pv = pc@;
                            proof {
                                lemma_pseudos_push(old_pcs, pc);
                            }
                            cs.pseudo_classes.push(pc);
                            assert(cs@ == SpecCompound {
                                pseudo_classes: before.pseudo_classes.push(pv),
                                ..before
                            });
                            saw = true;
                            q = q2;
                        },
                        Err(e) => {
                            return Err(e);
                        },
                    }
                } else if saw {
                    return Ok((cs, q));
                } else {
                    return Err(error_at(String::from_str("expected a simple selector"), q));
                }
            },
            _ => {
                if saw {
                    return Ok((cs, q));
                } else {
                    return Err(error_at(String::from_str("expected a simple selector"), q));
                }
            },
        }
    }
}

/// One alternative inside `:is()` or `:has()`.
fn chain_list(t: &Vec<Token>, p: usize) -> (r: Result<(Vec<CompoundSelector>, usize), ParseError>)
    requires
        well_formed_tokens(tokens_view(t@)),
        p < t.len(),
    ensures
        match r {
            Ok((c, q)) => chain_loop(tokens_view(t@), p as int, seq![]) == Ok::<
                (Seq<SpecCompound>, int),
                SpecParseError,
            >((chain_view(c@), q as int)) && p <= q < t.len(),
            Err(e) => chain_loop(tokens_view(t@), p as int, seq![]) == Err::<
                (Seq<SpecCompound>, int),
                SpecParseError,
            >(e@),
        },
    decreases t.len() - p, 2int,
{
    let ghost tv = tokens_view(t@);
    let mut chain: Vec<CompoundSelector> = Vec::new();
    let mut q = p;
    assert(chain_view(chain@) =~= Seq::<SpecCompound>::empty());
    loop
        invariant
            tv == tokens_view(t@),
            well_formed_tokens(tv),
            p <= q < t.len(),
            chain_loop(tv, p as int, seq![]) == chain_loop(tv, q as int, chain_view(chain@)),
        decreases t.len() - q,
    {
        assert(tv[q as int] == t@[q as int]@);
        proof {
            if q + 1 == t.len() {
                assert(tv.last() == tv[q as int]);
            }
            reveal_with_fuel(chain_loop, 2);
        }
        let kind: u8 = match &t[q] {
            Token::Eof => 0,
            Token::Delim(c) => if *c == ')' || *c == ',' {
                0
            } else if *c == '>' || *c == '+' || *c == '~' {
                1
            } else {
                3
            },
            Token::Whitespace => 2,
            _ => 3,
        };
        if kind == 0 {
            return Ok((chain, q));
        } else if kind == 1 {
            q += 1;
        } else if kind == 2 {
            proof {
                lemma_skip_ws(tv, q as int);
            }
            q = skip_ws_tokens(t, q);
        } else {
            match compound(t, q) {
                Ok((cs, q2)) => {
                    let ghost old_chain = chain@;
                    proof {
                        lemma_chain_push(old_chain, cs);
                    }
                    chain.push(cs);
                    q = q2;
                },
                Err(e) => {
                    return Err(e);
                },
            }
        }
    }
}

/// The comma-separated alternatives of `:is()` or `:has()`.
fn is_list(t: &Vec<Token>, p: usize) -> (r: Result<(Vec<Vec<CompoundSelector>>, usize), ParseError>)
    requires
        well_formed_tokens(tokens_view(t@)),
        p < t.len(),
    ensures
        match r {
            Ok((l, q)) => syntax::is_list(tokens_view(t@), p as int, seq![]) == Ok::<
                (Seq<Seq<SpecCompound>>, int),
                SpecParseError,
            >((chains_view(l@), q as int)) && p <= q < t.len(),
            Err(e) => syntax::is_list(tokens_view(t@), p as int, seq![]) == Err::<
                (Seq<Seq<SpecCompound>>, int),
                SpecParseError,
            >(e@),
        },
    decreases t.len() - p, 3int,
{
    let ghost tv = tokens_view(t@);
    let mut results: Vec<Vec<CompoundSelector>> = Vec::new();
    let mut q = p;
    assert(chains_view(results@) =~= Seq::<Seq<SpecCompound>>::empty());
    loop
        invariant
            tv == tokens_view(t@),
            well_formed_tokens(tv),
            p <= q < t.len(),
            syntax::is_list(tv, p as int, seq![]) == syntax::is_list(
                tv,
                q as int,
                chains_view(results@),
            ),
        decreases t.len() - q,
    {
        let q1 = skip_ws_tokens(t, q);
        assert(tv[q1 as int] == t@[q1 as int]@);
        let stop = match &t[q1] {
            Token::Eof => true,
            Token::Delim(c) => *c == ')',
            _ => false,
        };
        if stop {
            return Ok((results, q1));
        }
        let (chain, q2) = match chain_list(t, q1) {
            Ok(x) => x,
            Err(e) => {
                return Err(e);
            },
        };
        if chain.len() > 0 {
            let ghost old_results = results@;
            proof {
                lemma_chains_push(old_results, chain);
                assert(chain_view(chain@).len() == chain@.len()) by {
                    lemma_chain_len(chain@);
                }
            }
            results.push(chain);
        } else {
            proof {
                lemma_chain_len(chain@);
            }
        }
        let q3 = skip_ws_tokens(t, q2);
        assert(tv[q3 as int] == t@[q3 as int]@);
        let comma = match &t[q3] {
            Token::Delim(c) => *c == ',',
            _ => false,
        };
        if comma {
            proof {
                if q3 + 1 == t.len() {
                    assert(tv.last() == tv[q3 as int]);
                }
            }
            q = q3 + 1;
        } else {
            return Ok((results, q3));
        }
    }
}

proof fn lemma_chain_len(v: Seq<CompoundSelector>)
    ensures
        chain_view(v).len() == v.len(),
    decreases v.len(),
{
    if v.len() > 0 {
        lemma_chain_len(v.subrange(0, v.len() - 1));
    }
}

proof fn lemma_pseudos_len(v: Seq<PseudoClass>)
    ensures
        pseudos_view(v).len() == v.len(),
    decreases v.len(),
{
    if v.len() > 0 {
        lemma_pseudos_len(v.subrange(0, v.len() - 1));
    }
}

/// A compound selector that names at most a tag: no id, classes,
/// attributes or pseudo-classes.
pub open spec fn spec_is_bare_tag(cs: SpecCompound) -> bool {
    &&& cs.id is None
    &&& cs.classes.len() == 0
    &&& cs.attrs.len() == 0
    &&& cs.pseudo_classes.len() == 0
}

impl CompoundSelector {
    pub fn is_bare_tag(&self) -> (r: bool)
        ensures
            r == spec_is_bare_tag(self@),
    {
        proof {
            lemma_pseudos_len(self.pseudo_classes@);
        }
        self.id.is_none() && self.classes.len() == 0 && self.attrs.len() == 0
            && self.pseudo_classes.len() == 0
    }
}

/// A selector chain.
fn selector(t: &Vec<Token>, p: usize) -> (r: Result<(Selector, usize), ParseError>)
    requires
        well_formed_tokens(tokens_view(t@)),
        p < t.len(),
    ensures
        match r {
            Ok((sel, q)) => syntax::selector(tokens_view(t@), p as int) == Ok::<
                (SpecSelector, int),
                SpecParseError,
            >((sel@, q as int)) && p <= q < t.len(),
            Err(e) => syntax::selector(tokens_view(t@), p as int) == Err::<
                (SpecSelector, int),
                SpecParseError,
            >(e@),
        },
{
    let ghost tv = tokens_view(t@);
    let mut parts: Vec<(Combinator, CompoundSelector)> = Vec::new();
    let mut comb = Combinator::Start;
    let mut q = p;
    assert(parts_view(parts@) =~= Seq::<(Combinator, SpecCompound)>::empty());
    loop
        invariant
            tv == tokens_view(t@),
            well_formed_tokens(tv),
            p <= q < t.len(),
            selector_loop(tv, p as int, seq![], Combinator::Start) == selector_loop(
                tv,
                q as int,
                parts_view(parts@),
                comb,
            ),
        decreases t.len() - q,
    {
        let q1 = skip_ws_tokens(t, q);
        assert(tv[q1 as int] == t@[q1 as int]@);
        proof {
            if q1 + 1 == t.len() {
                assert(tv.last() == tv[q1 as int]);
            }
        }
        let kind: u8 = match &t[q1] {
            Token::Eof => 0,
            Token::Delim(c) => if *c == ',' {
                0
            } else if *c == '>' {
                1
            } else if *c == '+' {
                2
            } else if *c == '~' {
                3
            } else {
                4
            },
            _ => 4,
        };
        if kind == 0 {
            if parts.len() == 0 {
                return Err(error_at(String::from_str("empty selector"), q1));
            }
            assert(parts_view(parts@).len() == parts@.len());
            return Ok((Selector { parts }, q1));
        } else if kind < 4 {
            comb = if kind == 1 {
                Combinator::Child
            } else if kind == 2 {
                Combinator::Adjacent
            } else {
                Combinator::Sibling
            };
            q = skip_ws_tokens(t, q1 + 1);
        } else {
            match compound(t, q1) {
                Ok((cs, q2)) => {
                    let ghost old_parts = parts@;
                    let ghost pair = (comb, cs@);
                    parts.push((comb, cs));
                    assert(parts_view(parts@) =~= parts_view(old_parts).push(pair));
                    comb = Combinator::Descendant;
                    q = q2;
                },
                Err(e) => {
                    return Err(e);
                },
            }
        }
    }
}

/// Parses CSS selector text into a [`SelectorList`].
pub fn parse_selector_list(input: &str) -> (r: Result<SelectorList, ParseError>)
    ensures
        match r {
            Ok(list) => spec_parse(input@) == Ok::<SpecSelectorList, SpecParseError>(list@),
            Err(e) => spec_parse(input@) == Err::<SpecSelectorList, SpecParseError>(e@),
        },
{
    let chars = chars_of(input);
    if all_ws_chars(&chars) {
        return Err(error_at(String::from_str("empty selector"), 0));
    }
    let t = tokenize(&chars);
    let ghost tv = tokens_view(t@);
    proof {
        lemma_tokens_well_formed(chars@, 0);
    }
    let p0 = skip_ws_tokens(&t, 0);
    let (first, q0) = match selector(&t, p0) {
        Ok(x) => x,
        Err(e) => {
            return Err(e);
        },
    };
    let mut sels: Vec<Selector> = Vec::new();
    let ghost first_view = first@;
    sels.push(first);
    assert(selectors_view(sels@) =~= seq![first_view]);
    let mut q = q0;
    assert(spec_parse(input@) == selector_list(tv));
    loop
        invariant
            tv == tokens_view(t@),
            well_formed_tokens(tv),
            q < t.len(),
            spec_parse(input@) == match list_loop(tv, q0 as int, seq![first_view]) {
                Ok(v) => Ok::<SpecSelectorList, SpecParseError>(SpecSelectorList { selectors: v }),
                Err(e) => Err::<SpecSelectorList, SpecParseError>(e),
            },
            list_loop(tv, q0 as int, seq![first_view]) == list_loop(
                tv,
                q as int,
                selectors_view(sels@),
            ),
        decreases t.len() - q,
    {
        let q1 = skip_ws_tokens(&t, q);
        assert(tv[q1 as int] == t@[q1 as int]@);
        let comma = match &t[q1] {
            Token::Delim(c) => *c == ',',
            _ => false,
        };
        if !comma {
            return Ok(SelectorList { selectors: sels });
        }
        proof {
            if q1 + 1 == t.len() {
                assert(tv.last() == tv[q1 as int]);
            }
        }
        let q2 = skip_ws_tokens(&t, q1 + 1);
        match selector(&t, q2) {
            Ok((sel, q3)) => {
                let ghost old_sels = sels@;
                let ghost sv = sel@;
                sels.push(sel);
                assert(selectors_view(sels@) =~= selectors_view(old_sels).push(sv));
                q = q3;
            },
            Err(e) => {
                return Err(e);
            },
        }
    }
}

impl ParseError {
    /// The error as text: `CSS parse error at position <n>: <message>`.
    pub fn describe(&self) -> (r: String)
        ensures
            r@ == "CSS parse error at position "@ + nat_text(self.position as nat) + ": "@
                + self.message@,
    {
        let mut r = String::from_str("CSS parse error at position ");
        let n = usize_text(self.position);
        r.append(n.as_str());
        r.append(": ");
        r.append(self.message.as_str());
        r
    }
}

} // verus!
