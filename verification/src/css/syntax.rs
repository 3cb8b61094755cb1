//! What the parser gives for a token sequence: the grammar of selectors as
//! recursive functions over tokens and positions.
//!
//! Each function takes the tokens `t` and a position `p`, and gives the value
//! read there with the position after it, or the error. Reading past the end
//! of `t` reads `Eof`.
use vstd::prelude::*;

use super::ast::{empty_compound, SpecAttr, SpecCompound, SpecParseError, SpecPseudo, SpecSelector, SpecSelectorList};
use super::nth::spec_nth_values;
use super::parser::{AttrOp, Combinator};
use super::text::{all_ws, char_debug, lowercase, str_debug};
use super::tokenizer::{next_token, spec_tokenize, SpecToken};

verus! {

/// The token at `p`, or `Eof` past the end.
pub open spec fn peek(t: Seq<SpecToken>, p: int) -> SpecToken {
    if 0 <= p < t.len() {
        t[p]
    } else {
        SpecToken::Eof
    }
}

/// The error with the given message at the given position.
pub open spec fn err(message: Seq<char>, position: int) -> SpecParseError {
    SpecParseError { message, position }
}

/// How a token is written in error messages (its `Debug` form).
pub open spec fn tok_debug(tok: SpecToken) -> Seq<char> {
    match tok {
        SpecToken::Ident(n) => "Ident("@ + str_debug(n) + ")"@,
        SpecToken::Hash(n) => "Hash("@ + str_debug(n) + ")"@,
        SpecToken::Str(n) => "String_("@ + str_debug(n) + ")"@,
        SpecToken::Delim(c) => "Delim("@ + char_debug(c) + ")"@,
        SpecToken::DashMatch => "DashMatch"@,
        SpecToken::PrefixMatch => "PrefixMatch"@,
        SpecToken::SuffixMatch => "SuffixMatch"@,
        SpecToken::SubstrMatch => "SubstrMatch"@,
        SpecToken::IncludeMatch => "IncludeMatch"@,
        SpecToken::Whitespace => "Whitespace"@,
        SpecToken::Eof => "Eof"@,
    }
}

/// The position after the whitespace tokens at `p`.
pub open spec fn skip_ws(t: Seq<SpecToken>, p: int) -> int
    decreases t.len() - p,
{
    if peek(t, p) is Whitespace {
        skip_ws(t, p + 1)
    } else {
        p
    }
}

/// An identifier token; on failure the error lies after the offending token.
pub open spec fn expect_ident(t: Seq<SpecToken>, p: int) -> Result<(Seq<char>, int), SpecParseError> {
    match peek(t, p) {
        SpecToken::Ident(n) => Ok((n, p + 1)),
        tok => Err(err("expected identifier, got "@ + tok_debug(tok), p + 1)),
    }
}

/// The delimiter `c`; on failure the error lies after the offending token.
pub open spec fn expect_delim(t: Seq<SpecToken>, p: int, c: char) -> Result<int, SpecParseError> {
    let tok = peek(t, p);
    if tok == SpecToken::Delim(c) {
        Ok(p + 1)
    } else {
        Err(err("expected '"@ + seq![c] + "', got "@ + tok_debug(tok), p + 1))
    }
}

/// The value of an attribute selector: a string or an identifier.
pub open spec fn attr_value(t: Seq<SpecToken>, p: int) -> Result<(Seq<char>, int), SpecParseError> {
    match peek(t, p) {
        SpecToken::Str(s) => Ok((s, p + 1)),
        SpecToken::Ident(s) => Ok((s, p + 1)),
        tok => Err(err("expected string or identifier, got "@ + tok_debug(tok), p)),
    }
}

/// The comparison that a token introduces in an attribute selector.
pub open spec fn attr_op_of(tok: SpecToken) -> Option<AttrOp> {
    match tok {
        SpecToken::Delim(c) => if c == '=' {
            Some(AttrOp::Exact)
        } else {
            None
        },
        SpecToken::PrefixMatch => Some(AttrOp::Prefix),
        SpecToken::SuffixMatch => Some(AttrOp::Suffix),
        SpecToken::SubstrMatch => Some(AttrOp::Substring),
        SpecToken::IncludeMatch => Some(AttrOp::Include),
        SpecToken::DashMatch => Some(AttrOp::Dash),
        _ => None,
    }
}

/// An identifier equal to `i` when ASCII case is ignored.
pub open spec fn is_case_flag(tok: SpecToken) -> bool {
    match tok {
        SpecToken::Ident(s) => s.len() == 1 && (s[0] == 'i' || s[0] == 'I'),
        _ => false,
    }
}

/// The operator and value of an attribute selector, starting at the token
/// after the name.
pub open spec fn attr_op_value(t: Seq<SpecToken>, p: int) -> Result<(AttrOp, Seq<char>, int), SpecParseError> {
    let tok = peek(t, p);
    if tok == SpecToken::Delim(']') {
        Ok((AttrOp::Present, seq![], p + 1))
    } else {
        match attr_op_of(tok) {
            Some(op) => match attr_value(t, skip_ws(t, p + 1)) {
                Ok((v, q)) => Ok((op, v, q)),
                Err(e) => Err(e),
            },
            None => Err(err("expected attribute operator or ']', got "@ + tok_debug(tok), p)),
        }
    }
}

/// An attribute selector, starting after its `[`. A bare `[name]` ends at
/// its `]`; after a value, whitespace and a case flag may come before the
/// closing `]`.
pub open spec fn attribute(t: Seq<SpecToken>, p: int) -> Result<(SpecAttr, int), SpecParseError> {
    match expect_ident(t, skip_ws(t, p)) {
        Err(e) => Err(e),
        Ok((name, p1)) => match attr_op_value(t, skip_ws(t, p1)) {
            Err(e) => Err(e),
            Ok((op, value, p2)) => if op == AttrOp::Present {
                Ok((SpecAttr { name, op, value, case_insensitive: false }, p2))
            } else {
                let p3 = skip_ws(t, p2);
                let ci = is_case_flag(peek(t, p3));
                let p4 = if ci {
                    skip_ws(t, p3 + 1)
                } else {
                    p3
                };
                let attr = SpecAttr { name, op, value, case_insensitive: ci };
                match expect_delim(t, p4, ']') {
                    Ok(p5) => Ok((attr, p5)),
                    Err(e) => Err(e),
                }
            },
        },
    }
}

/// The text of a pseudo-class argument up to its closing `)` (which is not
/// consumed), at nesting depth `depth`, after the text `acc` read so far.
pub open spec fn arg_text(t: Seq<SpecToken>, p: int, depth: int, acc: Seq<char>) -> Result<(Seq<char>, int), SpecParseError>
    decreases t.len() - p,
{
    match peek(t, p) {
        SpecToken::Eof => Err(err("unterminated pseudo-class argument"@, p)),
        SpecToken::Delim(c) => if c == '(' {
            arg_text(t, p + 1, depth + 1, acc.push('('))
        } else if c == ')' {
            if depth - 1 == 0 {
                Ok((acc, p))
            } else {
                arg_text(t, p + 1, depth - 1, acc.push(')'))
            }
        } else {
            arg_text(t, p + 1, depth, acc.push(c))
        },
        SpecToken::Str(v) => arg_text(t, p + 1, depth, acc + seq!['"'] + v + seq!['"']),
        SpecToken::Ident(v) => arg_text(t, p + 1, depth, acc + v),
        SpecToken::Whitespace => arg_text(t, p + 1, depth, acc.push(' ')),
        _ => arg_text(t, p + 1, depth, acc),
    }
}

/// A pseudo-class argument, up to the matching `)`.
pub open spec fn pseudo_arg(t: Seq<SpecToken>, p: int) -> Result<(Seq<char>, int), SpecParseError> {
    arg_text(t, p, 1, seq![])
}

/// The pseudo-class that a name without arguments denotes.
pub open spec fn simple_pseudo(lower: Seq<char>, name: Seq<char>) -> SpecPseudo {
    if lower == "first-child"@ {
        SpecPseudo::FirstChild
    } else if lower == "last-child"@ {
        SpecPseudo::LastChild
    } else if lower == "first-of-type"@ {
        SpecPseudo::FirstOfType
    } else if lower == "last-of-type"@ {
        SpecPseudo::LastOfType
    } else if lower == "only-child"@ {
        SpecPseudo::OnlyChild
    } else if lower == "only-of-type"@ {
        SpecPseudo::OnlyOfType
    } else if lower == "empty"@ {
        SpecPseudo::Empty
    } else if lower == "root"@ {
        SpecPseudo::Root
    } else if lower == "link"@ {
        SpecPseudo::Link
    } else if lower == "visited"@ {
        SpecPseudo::Visited
    } else if lower == "enabled"@ {
        SpecPseudo::Enabled
    } else if lower == "disabled"@ {
        SpecPseudo::Disabled
    } else if lower == "checked"@ {
        SpecPseudo::Checked
    } else if lower == "indeterminate"@ {
        SpecPseudo::Indeterminate
    } else if lower == "required"@ {
        SpecPseudo::Required
    } else if lower == "optional"@ {
        SpecPseudo::Optional
    } else if lower == "read-only"@ {
        SpecPseudo::ReadOnly
    } else if lower == "read-write"@ {
        SpecPseudo::ReadWrite
    } else if lower == "valid"@ {
        SpecPseudo::Valid
    } else if lower == "invalid"@ {
        SpecPseudo::Invalid
    } else if lower == "in-range"@ {
        SpecPseudo::InRange
    } else if lower == "out-of-range"@ {
        SpecPseudo::OutOfRange
    } else if lower == "target"@ {
        SpecPseudo::Target
    } else {
        SpecPseudo::Unknown(name)
    }
}

/// Whether a (lower-cased) name takes an `an+b` argument.
pub open spec fn is_nth_name(lower: Seq<char>) -> bool {
    lower == "nth-child"@ || lower == "nth-last-child"@ || lower == "nth-of-type"@ || lower
        == "nth-last-of-type"@
}

/// The `:nth-*()` pseudo-class of the given (lower-cased) name.
pub open spec fn nth_pseudo(lower: Seq<char>, ab: (i32, i32)) -> SpecPseudo {
    if lower == "nth-child"@ {
        SpecPseudo::NthChild { a: ab.0, b: ab.1 }
    } else if lower == "nth-last-child"@ {
        SpecPseudo::NthLastChild { a: ab.0, b: ab.1 }
    } else if lower == "nth-of-type"@ {
        SpecPseudo::NthOfType { a: ab.0, b: ab.1 }
    } else {
        SpecPseudo::NthLastOfType { a: ab.0, b: ab.1 }
    }
}

/// The name of a pseudo-class, starting after its `:`; a second `:` (as in
/// `::before`) is skipped.
pub open spec fn pseudo_name(t: Seq<SpecToken>, p: int) -> Result<(Seq<char>, int), SpecParseError> {
    match peek(t, p) {
        SpecToken::Ident(n) => Ok((n, p + 1)),
        SpecToken::Delim(c) => if c == ':' {
            expect_ident(t, p + 1)
        } else {
            Err(err("expected pseudo-class name, got "@ + tok_debug(SpecToken::Delim(c)), p))
        },
        tok => Err(err("expected pseudo-class name, got "@ + tok_debug(tok), p)),
    }
}

/// The argument of a functional pseudo-class that is read as plain text.
pub open spec fn text_pseudo(t: Seq<SpecToken>, p: int, name: Seq<char>, lower: Seq<char>) -> Result<(SpecPseudo, int), SpecParseError> {
    match pseudo_arg(t, p) {
        Err(e) => Err(e),
        Ok((arg, q)) => if is_nth_name(lower) {
            Ok((nth_pseudo(lower, spec_nth_values(arg)), q))
        } else if lower == "lang"@ {
            Ok((SpecPseudo::Lang(arg), q))
        } else {
            Ok((SpecPseudo::Unknown(name + "("@ + arg + ")"@), q))
        },
    }
}

/// A pseudo-class, starting after its `:`.
pub open spec fn pseudo(t: Seq<SpecToken>, p: int) -> Result<(SpecPseudo, int), SpecParseError>
    decreases t.len() - p, 0int,
{
    match pseudo_name(t, p) {
        Err(e) => Err(e),
        Ok((name, p1)) => {
            let lower = lowercase(name);
            if peek(t, p1) == SpecToken::Delim('(') {
                let p2 = skip_ws(t, p1 + 1);
                proof {
                    lemma_skip_ws(t, p1 + 1);
                }
                let inner: Result<(SpecPseudo, int), SpecParseError> = if lower == "not"@ {
                    match compound_loop(t, p2, empty_compound(), false) {
                        Ok((cs, q)) => Ok((SpecPseudo::Not(Box::new(cs)), q)),
                        Err(e) => Err(e),
                    }
                } else if lower == "is"@ || lower == "matches"@ {
                    match is_list(t, p2, seq![]) {
                        Ok((l, q)) => Ok((SpecPseudo::Is(l), q)),
                        Err(e) => Err(e),
                    }
                } else if lower == "has"@ {
                    match is_list(t, p2, seq![]) {
                        Ok((l, q)) => Ok((SpecPseudo::Has(l), q)),
                        Err(e) => Err(e),
                    }
                } else {
                    text_pseudo(t, p2, name, lower)
                };
                match inner {
                    Err(e) => Err(e),
                    Ok((pc, q)) => match expect_delim(t, skip_ws(t, q), ')') {
                        Ok(q2) => Ok((pc, q2)),
                        Err(e) => Err(e),
                    },
                }
            } else {
                Ok((simple_pseudo(lower, name), p1))
            }
        },
    }
}

/// The simple selectors of a compound selector, added to `cs`; `saw` tells
/// whether one has been read already.
pub open spec fn compound_loop(t: Seq<SpecToken>, p: int, cs: SpecCompound, saw: bool) -> Result<(SpecCompound, int), SpecParseError>
    decreases t.len() - p, 0int,
{
    match peek(t, p) {
        SpecToken::Ident(name) => compound_loop(t, p + 1, SpecCompound { tag: Some(name), ..cs }, true),
        SpecToken::Hash(id) => if cs.id is Some {
            Err(err("duplicate id selector"@, p + 1))
        } else {
            compound_loop(t, p + 1, SpecCompound { id: Some(id), ..cs }, true)
        },
        SpecToken::Delim(c) => if c == '*' {
            compound_loop(t, p + 1, cs, true)
        } else if c == '.' {
            match expect_ident(t, p + 1) {
                Ok((n, q)) => compound_loop(t, q, SpecCompound { classes: cs.classes.push(n), ..cs }, true),
                Err(e) => Err(e),
            }
        } else if c == '[' {
            match attribute(t, p + 1) {
                Ok((a, q)) => if p < q <= t.len() {
                    compound_loop(t, q, SpecCompound { attrs: cs.attrs.push(a), ..cs }, true)
                } else {
                    Ok((cs, q))
                },
                Err(e) => Err(e),
            }
        } else if c == ':' {
            match pseudo(t, p + 1) {
                Ok((pc, q)) => if p < q <= t.len() {
                    compound_loop(
                        t,
                        q,
                        SpecCompound { pseudo_classes: cs.pseudo_classes.push(pc), ..cs },
                        true,
                    )
                } else {
                    Ok((cs, q))
                },
                Err(e) => Err(e),
            }
        } else if saw {
            Ok((cs, p))
        } else {
            Err(err("expected a simple selector"@, p))
        },
        _ => if saw {
            Ok((cs, p))
        } else {
            Err(err("expected a simple selector"@, p))
        },
    }
}

/// A compound selector.
pub open spec fn compound(t: Seq<SpecToken>, p: int) -> Result<(SpecCompound, int), SpecParseError> {
    compound_loop(t, p, empty_compound(), false)
}

/// The compound selectors of one alternative inside `:is()` or `:has()`,
/// added to `chain`; combinators there are skipped.
pub open spec fn chain_loop(t: Seq<SpecToken>, p: int, chain: Seq<SpecCompound>) -> Result<(Seq<SpecCompound>, int), SpecParseError>
    decreases t.len() - p, 2int,
{
    match peek(t, p) {
        SpecToken::Eof => Ok((chain, p)),
        SpecToken::Delim(c) => if c == ')' || c == ',' {
            Ok((chain, p))
        } else if c == '>' || c == '+' || c == '~' {
            chain_loop(t, p + 1, chain)
        } else {
            chain_compound(t, p, chain)
        },
        SpecToken::Whitespace => {
            proof {
                lemma_skip_ws(t, p);
            }
            chain_loop(t, skip_ws(t, p), chain)
        },
        _ => chain_compound(t, p, chain),
    }
}

/// A compound selector inside `:is()` or `:has()`, then the rest of its
/// alternative.
pub open spec fn chain_compound(t: Seq<SpecToken>, p: int, chain: Seq<SpecCompound>) -> Result<(Seq<SpecCompound>, int), SpecParseError>
    decreases t.len() - p, 1int,
{
    match compound_loop(t, p, empty_compound(), false) {
        Ok((cs, q)) => if p < q <= t.len() {
            chain_loop(t, q, chain.push(cs))
        } else {
            Ok((chain, q))
        },
        Err(e) => Err(e),
    }
}

/// The comma-separated alternatives of `:is()` or `:has()`, up to the
/// closing `)` (not consumed), added to `results`; empty ones are dropped.
pub open spec fn is_list(t: Seq<SpecToken>, p: int, results: Seq<Seq<SpecCompound>>) -> Result<(Seq<Seq<SpecCompound>>, int), SpecParseError>
    decreases t.len() - p, 3int,
{
    let p1 = skip_ws(t, p);
    proof {
        lemma_skip_ws(t, p);
    }
    match peek(t, p1) {
        SpecToken::Eof => Ok((results, p1)),
        SpecToken::Delim(c) if c == ')' => Ok((results, p1)),
        _ => match chain_loop(t, p1, seq![]) {
            Err(e) => Err(e),
            Ok((chain, p2)) => {
                let results2 = if chain.len() > 0 {
                    results.push(chain)
                } else {
                    results
                };
                let p3 = skip_ws(t, p2);
                if peek(t, p3) == SpecToken::Delim(',') && p3 >= p {
                    proof {
                        lemma_skip_ws(t, p2);
                    }
                    is_list(t, p3 + 1, results2)
                } else {
                    Ok((results2, p3))
                }
            },
        },
    }
}

/// The compound selectors of a selector chain, added to `parts`; `comb` is
/// the combinator before the next one.
pub open spec fn selector_loop(t: Seq<SpecToken>, p: int, parts: Seq<(Combinator, SpecCompound)>, comb: Combinator) -> Result<(Seq<(Combinator, SpecCompound)>, int), SpecParseError>
    decreases t.len() - p,
{
    let p1 = skip_ws(t, p);
    proof {
        lemma_skip_ws(t, p);
    }
    match peek(t, p1) {
        SpecToken::Eof => Ok((parts, p1)),
        SpecToken::Delim(c) if c == ',' => Ok((parts, p1)),
        SpecToken::Delim(c) if c == '>' || c == '+' || c == '~' => {
            let next = if c == '>' {
                Combinator::Child
            } else if c == '+' {
                Combinator::Adjacent
            } else {
                Combinator::Sibling
            };
            proof {
                lemma_skip_ws(t, p1 + 1);
            }
            selector_loop(t, skip_ws(t, p1 + 1), parts, next)
        },
        _ => match compound(t, p1) {
            Err(e) => Err(e),
            Ok((cs, q)) => if p < q <= t.len() {
                selector_loop(t, q, parts.push((comb, cs)), Combinator::Descendant)
            } else {
                Ok((parts, q))
            },
        },
    }
}

/// A selector chain; a chain without compound selectors is an error.
pub open spec fn selector(t: Seq<SpecToken>, p: int) -> Result<(SpecSelector, int), SpecParseError> {
    match selector_loop(t, p, seq![], Combinator::Start) {
        Err(e) => Err(e),
        Ok((parts, q)) => if parts.len() == 0 {
            Err(err("empty selector"@, q))
        } else {
            Ok((SpecSelector { parts }, q))
        },
    }
}

/// Further comma-separated selectors, added to `sels`.
pub open spec fn list_loop(t: Seq<SpecToken>, p: int, sels: Seq<SpecSelector>) -> Result<Seq<SpecSelector>, SpecParseError>
    decreases t.len() - p,
{
    let p1 = skip_ws(t, p);
    proof {
        lemma_skip_ws(t, p);
    }
    if peek(t, p1) == SpecToken::Delim(',') {
        let p2 = skip_ws(t, p1 + 1);
        match selector(t, p2) {
            Err(e) => Err(e),
            Ok((s, q)) => if p < q <= t.len() {
                list_loop(t, q, sels.push(s))
            } else {
                Ok(sels)
            },
        }
    } else {
        Ok(sels)
    }
}

/// The selector list that a token sequence denotes.
pub open spec fn selector_list(t: Seq<SpecToken>) -> Result<SpecSelectorList, SpecParseError> {
    match selector(t, skip_ws(t, 0)) {
        Err(e) => Err(e),
        Ok((s, q)) => match list_loop(t, q, seq![s]) {
            Err(e) => Err(e),
            Ok(sels) => Ok(SpecSelectorList { selectors: sels }),
        },
    }
}

/// What `parse_selector_list` gives for the given text: an error at position
/// 0 for blank text, else the selector list of its tokens.
pub open spec fn spec_parse(input: Seq<char>) -> Result<SpecSelectorList, SpecParseError> {
    if all_ws(input) {
        Err(err("empty selector"@, 0))
    } else {
        selector_list(spec_tokenize(input))
    }
}

/// Every selector that `list_loop` adds has at least one part, and it keeps
/// the selectors it was given.
proof fn lemma_list_loop_parts(t: Seq<SpecToken>, p: int, sels: Seq<SpecSelector>)
    requires
        forall|i: int| 0 <= i < sels.len() ==> (#[trigger] sels[i]).parts.len() >= 1,
    ensures
        list_loop(t, p, sels) matches Ok(r) ==> {
            &&& r.len() >= sels.len()
            &&& forall|i: int| 0 <= i < r.len() ==> (#[trigger] r[i]).parts.len() >= 1
        },
    decreases t.len() - p,
{
    let p1 = skip_ws(t, p);
    lemma_skip_ws(t, p);
    if peek(t, p1) == SpecToken::Delim(',') {
        let p2 = skip_ws(t, p1 + 1);
        match selector(t, p2) {
            Err(e) => {},
            Ok((sel, q)) => {
                if p < q <= t.len() {
                    let next = sels.push(sel);
                    assert forall|i: int| 0 <= i < next.len() implies (#[trigger] next[i]).parts.len()
                        >= 1 by {
                        if i < sels.len() {
                            assert(next[i] == sels[i]);
                        }
                    }
                    lemma_list_loop_parts(t, q, next);
                }
            },
        }
    }
}

/// A parsed selector list comes from text that is not blank, holds at least
/// one selector, and each of its selectors has at least one part (so `a,`,
/// `, a` and blank text are errors).
pub proof fn lemma_parsed_list_nonempty(input: Seq<char>)
    ensures
        spec_parse(input) matches Ok(l) ==> {
            &&& !all_ws(input)
            &&& l.selectors.len() >= 1
            &&& forall|i: int| 0 <= i < l.selectors.len() ==> (#[trigger] l.selectors[i]).parts.len() >= 1
        },
{
    if !all_ws(input) {
        let t = spec_tokenize(input);
        match selector(t, skip_ws(t, 0)) {
            Err(e) => {},
            Ok((sel, q)) => {
                let first = seq![sel];
                assert(first[0] == sel);
                lemma_list_loop_parts(t, q, first);
            },
        }
    }
}

/// The character that begins the CSS syntax of a two-character attribute
/// operator: `^=` (prefix), `$=` (suffix), `*=` (substring), `~=` (whole
/// word) and `|=` (dash-separated prefix).
pub open spec fn operator_lead(op: AttrOp) -> char {
    match op {
        AttrOp::Prefix => '^',
        AttrOp::Suffix => '$',
        AttrOp::Substring => '*',
        AttrOp::Include => '~',
        AttrOp::Dash => '|',
        _ => '=',
    }
}

/// Each attribute operator written in selector text is read as itself:
/// wherever `=` stands, the token there introduces an exact comparison, and
/// wherever `^=`, `$=`, `*=`, `~=` or `|=` stands, the token there introduces
/// the prefix, suffix, substring, whole-word or dash comparison (so `~=` and
/// `*=` are told apart).
pub proof fn lemma_attribute_operator_syntax(s: Seq<char>, i: int, op: AttrOp)
    requires
        0 <= i,
        op != AttrOp::Present,
        op == AttrOp::Exact ==> i < s.len() && s[i] == '=',
        op != AttrOp::Exact ==> i + 1 < s.len() && s[i] == operator_lead(op) && s[i + 1] == '=',
    ensures
        attr_op_of(next_token(s, i).0[0]) == Some(op),
{
}

pub proof fn lemma_skip_ws(t: Seq<SpecToken>, p: int)
    ensures
        p <= skip_ws(t, p),
        0 <= p <= t.len() ==> skip_ws(t, p) <= t.len(),
        peek(t, p) is Whitespace ==> p < skip_ws(t, p),
        !(peek(t, skip_ws(t, p)) is Whitespace),
    decreases t.len() - p,
{
    if peek(t, p) is Whitespace {
        lemma_skip_ws(t, p + 1);
    }
}

} // verus!
