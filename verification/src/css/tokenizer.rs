//! Tokenizer for CSS selector text.
//!
//! The input is read as a sequence of characters; `spec_tokenize` states the
//! token sequence, and `tokenize` computes it.
use vstd::prelude::*;

use super::text::{is_digit, is_ident_char, is_ws, spec_is_digit, spec_is_ident_char, spec_is_ws};

verus! {

/// A token of selector text, as the parser's contracts see it.
pub enum SpecToken {
    Ident(Seq<char>),
    /// `#name`, without the `#`.
    Hash(Seq<char>),
    /// A quoted string, without the quotes and with escapes resolved.
    Str(Seq<char>),
    Delim(char),
    /// `|=`
    DashMatch,
    /// `^=`
    PrefixMatch,
    /// `$=`
    SuffixMatch,
    /// `*=`
    SubstrMatch,
    /// `~=`
    IncludeMatch,
    Whitespace,
    Eof,
}

/// A token of selector text.
pub enum Token {
    Ident(Vec<char>),
    Hash(Vec<char>),
    Str(Vec<char>),
    Delim(char),
    DashMatch,
    PrefixMatch,
    SuffixMatch,
    SubstrMatch,
    IncludeMatch,
    Whitespace,
    Eof,
}

impl View for Token {
    type V = SpecToken;

    open spec fn view(&self) -> SpecToken {
        match self {
            Token::Ident(v) => SpecToken::Ident(v@),
            Token::Hash(v) => SpecToken::Hash(v@),
            Token::Str(v) => SpecToken::Str(v@),
            Token::Delim(c) => SpecToken::Delim(*c),
            Token::DashMatch => SpecToken::DashMatch,
            Token::PrefixMatch => SpecToken::PrefixMatch,
            Token::SuffixMatch => SpecToken::SuffixMatch,
            Token::SubstrMatch => SpecToken::SubstrMatch,
            Token::IncludeMatch => SpecToken::IncludeMatch,
            Token::Whitespace => SpecToken::Whitespace,
            Token::Eof => SpecToken::Eof,
        }
    }
}

/// The tokens of a token vector, as the contracts see them.
pub open spec fn tokens_view(v: Seq<Token>) -> Seq<SpecToken> {
    v.map_values(|t: Token| t@)
}

// ── Specification ───────────────────────────────────────────────────────────
/// The identifier that starts at `i`: identifier characters, and any
/// character after a backslash. Returns the name and the position after it.
pub open spec fn ident_run(s: Seq<char>, i: int) -> (Seq<char>, int)
    decreases s.len() - i,
{
    if i < 0 || i >= s.len() {
        (seq![], i)
    } else if spec_is_ident_char(s[i]) {
        let r = ident_run(s, i + 1);
        (seq![s[i]] + r.0, r.1)
    } else if s[i] == '\\' {
        if i + 1 < s.len() {
            let r = ident_run(s, i + 2);
            (seq![s[i + 1]] + r.0, r.1)
        } else {
            (seq![], i + 1)
        }
    } else {
        (seq![], i)
    }
}

/// The body of a string quoted by `q`, starting after the opening quote.
/// Returns the body and the position after the closing quote (or the end).
pub open spec fn string_run(s: Seq<char>, i: int, q: char) -> (Seq<char>, int)
    decreases s.len() - i,
{
    if i < 0 || i >= s.len() {
        (seq![], i)
    } else if s[i] == q {
        (seq![], i + 1)
    } else if s[i] == '\\' {
        if i + 1 < s.len() {
            let r = string_run(s, i + 2, q);
            (seq![s[i + 1]] + r.0, r.1)
        } else {
            (seq![], i + 1)
        }
    } else {
        let r = string_run(s, i + 1, q);
        (seq![s[i]] + r.0, r.1)
    }
}

/// The position after the comment whose body starts at `i` (after `/*`).
pub open spec fn comment_end(s: Seq<char>, i: int) -> int
    decreases s.len() - i,
{
    if i < 0 || i >= s.len() {
        i
    } else if s[i] == '*' && i + 1 < s.len() && s[i + 1] == '/' {
        i + 2
    } else {
        comment_end(s, i + 1)
    }
}

/// The position after the run of whitespace that starts at `i`.
pub open spec fn ws_end(s: Seq<char>, i: int) -> int
    decreases s.len() - i,
{
    if 0 <= i < s.len() && spec_is_ws(s[i]) {
        ws_end(s, i + 1)
    } else {
        i
    }
}

/// The token at `i` when it starts with a character other than `/`.
pub open spec fn token_at(s: Seq<char>, i: int) -> (Seq<SpecToken>, int)
    recommends
        0 <= i < s.len(),
{
    let c = s[i];
    let next_is_eq = i + 1 < s.len() && s[i + 1] == '=';
    if spec_is_ws(c) {
        (seq![SpecToken::Whitespace], ws_end(s, i))
    } else if c == '"' || c == '\'' {
        let r = string_run(s, i + 1, c);
        (seq![SpecToken::Str(r.0)], r.1)
    } else if c == '#' {
        let r = ident_run(s, i + 1);
        if r.0.len() == 0 {
            (seq![SpecToken::Delim('#')], r.1)
        } else {
            (seq![SpecToken::Hash(r.0)], r.1)
        }
    } else if c == '.' {
        if i + 1 < s.len() && spec_is_digit(s[i + 1]) {
            (seq![SpecToken::Delim('.')], i + 1)
        } else {
            let r = ident_run(s, i + 1);
            if r.0.len() == 0 {
                (seq![SpecToken::Delim('.')], r.1)
            } else {
                (seq![SpecToken::Delim('.'), SpecToken::Ident(r.0)], r.1)
            }
        }
    } else if c == '*' && next_is_eq {
        (seq![SpecToken::SubstrMatch], i + 2)
    } else if c == '~' && next_is_eq {
        (seq![SpecToken::IncludeMatch], i + 2)
    } else if c == '|' && next_is_eq {
        (seq![SpecToken::DashMatch], i + 2)
    } else if c == '^' && next_is_eq {
        (seq![SpecToken::PrefixMatch], i + 2)
    } else if c == '$' && next_is_eq {
        (seq![SpecToken::SuffixMatch], i + 2)
    } else if spec_is_ident_char(c) {
        let r = ident_run(s, i);
        (seq![SpecToken::Ident(r.0)], r.1)
    } else {
        (seq![SpecToken::Delim(c)], i + 1)
    }
}

/// The tokens that the next step of the tokenizer emits at `i`, after any
/// comments, and the position after them.
pub open spec fn next_token(s: Seq<char>, i: int) -> (Seq<SpecToken>, int)
    decreases s.len() - i,
{
    if i < 0 || i >= s.len() {
        (seq![SpecToken::Eof], i)
    } else if s[i] == '/' {
        if i + 1 < s.len() && s[i + 1] == '*' {
            let j = comment_end(s, i + 2);
            proof {
                lemma_comment_end(s, i + 2);
            }
            next_token(s, j)
        } else {
            (seq![SpecToken::Delim('/')], i + 1)
        }
    } else {
        token_at(s, i)
    }
}

/// The tokens of `s` from position `i` on, ending with `Eof`.
pub open spec fn tokenize_from(s: Seq<char>, i: int) -> Seq<SpecToken>
    decreases s.len() - i,
{
    let r = next_token(s, i);
    if r.0 == seq![SpecToken::Eof] {
        r.0
    } else {
        proof {
            lemma_next_token(s, i);
        }
        r.0 + tokenize_from(s, r.1)
    }
}

/// The tokens of `s`, ending with `Eof`.
pub open spec fn spec_tokenize(s: Seq<char>) -> Seq<SpecToken> {
    tokenize_from(s, 0)
}

// ── Lemmas ──────────────────────────────────────────────────────────────────
pub proof fn lemma_ident_run(s: Seq<char>, i: int)
    requires
        0 <= i <= s.len(),
    ensures
        i <= ident_run(s, i).1 <= s.len(),
        ident_run(s, i).0.len() == 0 ==> ident_run(s, i).1 <= i + 1,
    decreases s.len() - i,
{
    if i < s.len() {
        if spec_is_ident_char(s[i]) {
            lemma_ident_run(s, i + 1);
        } else if s[i] == '\\' && i + 1 < s.len() {
            lemma_ident_run(s, i + 2);
        }
    }
}

pub proof fn lemma_string_run(s: Seq<char>, i: int, q: char)
    requires
        0 <= i <= s.len(),
    ensures
        i <= string_run(s, i, q).1 <= s.len(),
    decreases s.len() - i,
{
    if i < s.len() {
        if s[i] == q {
        } else if s[i] == '\\' {
            if i + 1 < s.len() {
                lemma_string_run(s, i + 2, q);
            }
        } else {
            lemma_string_run(s, i + 1, q);
        }
    }
}

pub proof fn lemma_comment_end(s: Seq<char>, i: int)
    requires
        0 <= i,
    ensures
        i <= comment_end(s, i),
        i <= s.len() ==> comment_end(s, i) <= s.len(),
    decreases s.len() - i,
{
    if i < s.len() {
        if !(s[i] == '*' && i + 1 < s.len() && s[i + 1] == '/') {
            lemma_comment_end(s, i + 1);
        }
    }
}

pub proof fn lemma_ws_end(s: Seq<char>, i: int)
    requires
        0 <= i <= s.len(),
    ensures
        i <= ws_end(s, i) <= s.len(),
        i < s.len() && spec_is_ws(s[i]) ==> i < ws_end(s, i),
    decreases s.len() - i,
{
    if i < s.len() && spec_is_ws(s[i]) {
        lemma_ws_end(s, i + 1);
    }
}

pub proof fn lemma_token_at(s: Seq<char>, i: int)
    requires
        0 <= i < s.len(),
    ensures
        i < token_at(s, i).1 <= s.len(),
        token_at(s, i).0.len() > 0,
        token_at(s, i).0[0] !is Eof,
        token_at(s, i).0 != seq![SpecToken::Eof],
{
    let c = s[i];
    let next_is_eq = i + 1 < s.len() && s[i + 1] == '=';
    lemma_ws_end(s, i);
    lemma_string_run(s, i + 1, c);
    lemma_ident_run(s, i + 1);
    lemma_ident_run(s, i);
    let t = token_at(s, i).0;
    if spec_is_ws(c) {
        assert(t[0] == SpecToken::Whitespace);
    } else if c == '"' || c == '\'' {
        assert(t[0] is Str);
    } else if c == '#' {
        assert(t[0] is Delim || t[0] is Hash);
    } else if c == '.' {
        assert(t[0] is Delim);
    } else if c == '*' && next_is_eq {
        assert(t[0] is SubstrMatch);
    } else if c == '~' && next_is_eq {
        assert(t[0] is IncludeMatch);
    } else if c == '|' && next_is_eq {
        assert(t[0] is DashMatch);
    } else if c == '^' && next_is_eq {
        assert(t[0] is PrefixMatch);
    } else if c == '$' && next_is_eq {
        assert(t[0] is SuffixMatch);
    } else if spec_is_ident_char(c) {
        assert(ident_run(s, i).0.len() > 0);
        assert(t[0] is Ident);
    } else {
        lemma_single(SpecToken::Delim(c));
    }
}

pub proof fn lemma_next_token(s: Seq<char>, i: int)
    requires
        0 <= i,
    ensures
        next_token(s, i).0.len() > 0,
        next_token(s, i).0 != seq![SpecToken::Eof] ==> i < next_token(s, i).1 <= s.len(),
        next_token(s, i).0 != seq![SpecToken::Eof] ==> i < s.len(),
    decreases s.len() - i,
{
    if i < s.len() {
        if s[i] == '/' {
            if i + 1 < s.len() && s[i + 1] == '*' {
                lemma_comment_end(s, i + 2);
                lemma_next_token(s, comment_end(s, i + 2));
            } else {
                assert(next_token(s, i).0[0] == SpecToken::Delim('/'));
            }
        } else {
            lemma_token_at(s, i);
        }
    }
}

// ── Implementation ──────────────────────────────────────────────────────────
fn ident_at(s: &Vec<char>, i: usize) -> (r: (Vec<char>, usize))
    requires
        i <= s.len(),
    ensures
        r.0@ == ident_run(s@, i as int).0,
        r.1 == ident_run(s@, i as int).1,
        i <= r.1 <= s.len(),
{
    proof {
        lemma_ident_run(s@, i as int);
    }
    let mut name: Vec<char> = Vec::new();
    let mut j = i;
    loop
        invariant
            i <= j <= s.len(),
            ident_run(s@, i as int).0 == name@ + ident_run(s@, j as int).0,
            ident_run(s@, i as int).1 == ident_run(s@, j as int).1,
        decreases s.len() - j,
    {
        if j >= s.len() {
            assert(name@ + seq![] =~= name@);
            return (name, j);
        }
        let c = s[j];
        if is_ident_char(c) {
            name.push(c);
            j += 1;
        } else if c == '\\' && j + 1 < s.len() {
            name.push(s[j + 1]);
            j += 2;
        } else if c == '\\' {
            assert(name@ + seq![] =~= name@);
            return (name, j + 1);
        } else {
            assert(name@ + seq![] =~= name@);
            return (name, j);
        }
        assert(name@ + ident_run(s@, j as int).0 =~= name@.drop_last() + (seq![name@.last()]
            + ident_run(s@, j as int).0));
    }
}

fn string_at(s: &Vec<char>, i: usize, q: char) -> (r: (Vec<char>, usize))
    requires
        i <= s.len(),
    ensures
        r.0@ == string_run(s@, i as int, q).0,
        r.1 == string_run(s@, i as int, q).1,
        i <= r.1 <= s.len(),
{
    proof {
        lemma_string_run(s@, i as int, q);
    }
    let mut body: Vec<char> = Vec::new();
    let mut j = i;
    loop
        invariant
            i <= j <= s.len(),
            string_run(s@, i as int, q).0 == body@ + string_run(s@, j as int, q).0,
            string_run(s@, i as int, q).1 == string_run(s@, j as int, q).1,
        decreases s.len() - j,
    {
        if j >= s.len() {
            assert(body@ + seq![] =~= body@);
            return (body, j);
        }
        let c = s[j];
        if c == q {
            assert(body@ + seq![] =~= body@);
            return (body, j + 1);
        } else if c == '\\' && j + 1 < s.len() {
            body.push(s[j + 1]);
            j += 2;
        } else if c == '\\' {
            assert(body@ + seq![] =~= body@);
            return (body, j + 1);
        } else {
            body.push(c);
            j += 1;
        }
        assert(body@ + string_run(s@, j as int, q).0 =~= body@.drop_last() + (seq![body@.last()]
            + string_run(s@, j as int, q).0));
    }
}

fn skip_comment(s: &Vec<char>, i: usize) -> (j: usize)
    requires
        i <= s.len(),
    ensures
        j == comment_end(s@, i as int),
        i <= j <= s.len(),
{
    let mut j = i;
    while j < s.len()
        invariant
            i <= j <= s.len(),
            comment_end(s@, i as int) == comment_end(s@, j as int),
        decreases s.len() - j,
    {
        if s[j] == '*' && j + 1 < s.len() && s[j + 1] == '/' {
            return j + 2;
        }
        j += 1;
    }
    j
}

fn skip_ws_run(s: &Vec<char>, i: usize) -> (j: usize)
    requires
        i <= s.len(),
    ensures
        j == ws_end(s@, i as int),
        i <= j <= s.len(),
{
    let mut j = i;
    while j < s.len() && is_ws(s[j])
        invariant
            i <= j <= s.len(),
            ws_end(s@, i as int) == ws_end(s@, j as int),
        decreases s.len() - j,
    {
        j += 1;
    }
    j
}

proof fn lemma_push_view(v: Seq<Token>, t: Token)
    ensures
        tokens_view(v.push(t)) == tokens_view(v).push(t@),
        tokens_view(v.push(t)) == tokens_view(v) + seq![t@],
{
    assert(tokens_view(v.push(t)) =~= tokens_view(v).push(t@));
    assert(tokens_view(v).push(t@) =~= tokens_view(v) + seq![t@]);
}

proof fn lemma_single(t: SpecToken)
    ensures
        seq![t].len() == 1,
        seq![t][0] == t,
{
}

/// Emits one token (two for `.` followed by a name) at `i`.
fn push_token_at(s: &Vec<char>, i: usize, toks: &mut Vec<Token>) -> (j: usize)
    requires
        i < s.len(),
        s@[i as int] != '/',
    ensures
        tokens_view(final(toks)@) == tokens_view(old(toks)@) + token_at(s@, i as int).0,
        j == token_at(s@, i as int).1,
{
    let ghost old_view = tokens_view(toks@);
    let c = s[i];
    let next_is_eq = i + 1 < s.len() && s[i + 1] == '=';
    let (t, j) = if is_ws(c) {
        (Token::Whitespace, skip_ws_run(s, i))
    } else if c == '"' || c == '\'' {
        let (body, j) = string_at(s, i + 1, c);
        (Token::Str(body), j)
    } else if c == '#' {
        let (name, j) = ident_at(s, i + 1);
        if name.len() == 0 {
            (Token::Delim('#'), j)
        } else {
            (Token::Hash(name), j)
        }
    } else if c == '.' {
        if i + 1 < s.len() && is_digit(s[i + 1]) {
            (Token::Delim('.'), i + 1)
        } else {
            let (name, j) = ident_at(s, i + 1);
            if name.len() == 0 {
                (Token::Delim('.'), j)
            } else {
                proof {
                    lemma_push_view(toks@, Token::Delim('.'));
                }
                toks.push(Token::Delim('.'));
                let t = Token::Ident(name);
                proof {
                    lemma_push_view(toks@, t);
                    assert(tokens_view(toks@).push(t@) =~= old_view + token_at(s@, i as int).0);
                }
                toks.push(t);
                return j;
            }
        }
    } else if c == '*' && next_is_eq {
        (Token::SubstrMatch, i + 2)
    } else if c == '~' && next_is_eq {
        (Token::IncludeMatch, i + 2)
    } else if c == '|' && next_is_eq {
        (Token::DashMatch, i + 2)
    } else if c == '^' && next_is_eq {
        (Token::PrefixMatch, i + 2)
    } else if c == '$' && next_is_eq {
        (Token::SuffixMatch, i + 2)
    } else if is_ident_char(c) {
        let (name, j) = ident_at(s, i);
        (Token::Ident(name), j)
    } else {
        (Token::Delim(c), i + 1)
    };
    proof {
        lemma_push_view(toks@, t);
        assert(token_at(s@, i as int).0 == seq![t@]);
    }
    toks.push(t);
    j
}

/// Emits the tokens of the next tokenizer step at `i`; the flag tells whether
/// that was `Eof`.
fn push_next_token(s: &Vec<char>, i: usize, toks: &mut Vec<Token>) -> (r: (usize, bool))
    requires
        i <= s.len(),
    ensures
        tokens_view(final(toks)@) == tokens_view(old(toks)@) + next_token(s@, i as int).0,
        r.0 == next_token(s@, i as int).1,
        r.1 == (next_token(s@, i as int).0 == seq![SpecToken::Eof]),
{
    let i0 = i;
    let mut i = i;
    while i < s.len() && s[i] == '/' && i + 1 < s.len() && s[i + 1] == '*'
        invariant
            i0 <= i <= s.len(),
            next_token(s@, i0 as int) == next_token(s@, i as int),
            toks@ == old(toks)@,
        decreases s.len() - i,
    {
        i = skip_comment(s, i + 2);
    }
    if i >= s.len() {
        proof {
            lemma_push_view(toks@, Token::Eof);
        }
        toks.push(Token::Eof);
        return (i, true);
    }
    if s[i] == '/' {
        proof {
            lemma_push_view(toks@, Token::Delim('/'));
            assert(seq![SpecToken::Delim('/')][0] != seq![SpecToken::Eof][0]);
        }
        toks.push(Token::Delim('/'));
        return (i + 1, false);
    }
    let j = push_token_at(s, i, toks);
    proof {
        lemma_token_at(s@, i as int);
    }
    (j, false)
}

/// The tokens of the given characters, ending with `Eof`.
pub fn tokenize(s: &Vec<char>) -> (toks: Vec<Token>)
    ensures
        tokens_view(toks@) == spec_tokenize(s@),
{
    let mut toks: Vec<Token> = Vec::new();
    let mut i: usize = 0;
    assert(tokens_view(toks@) =~= seq![]);
    loop
        invariant
            i <= s.len(),
            spec_tokenize(s@) == tokens_view(toks@) + tokenize_from(s@, i as int),
        decreases s.len() - i,
    {
        let ghost before = tokens_view(toks@);
        let (j, eof) = push_next_token(s, i, &mut toks);
        proof {
            lemma_next_token(s@, i as int);
        }
        if eof {
            return toks;
        }
        assert(before + tokenize_from(s@, i as int) =~= tokens_view(toks@) + tokenize_from(s@, j as int));
        i = j;
    }
}

} // verus!
