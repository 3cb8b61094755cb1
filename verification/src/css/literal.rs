//! What the XPath string literals built for attribute values, ids and
//! classes stand for.
use vstd::prelude::*;

use super::xpath_spec::{concat_of, join, quote_fold, quote_parts, single_quoted, xpath_string};

verus! {

/// Whether `p` is an XPath string literal: text between two equal quote
/// characters (single or double) that does not hold that quote.
pub open spec fn is_literal(p: Seq<char>) -> bool {
    &&& p.len() >= 2
    &&& (p[0] == '\'' || p[0] == '"')
    &&& p.last() == p[0]
    &&& !p.subrange(1, p.len() - 1).contains(p[0])
}

/// The string that a literal stands for: the text between its quotes.
pub open spec fn literal_value(p: Seq<char>) -> Seq<char> {
    p.subrange(1, p.len() - 1)
}

/// Whether every piece is a literal.
pub open spec fn all_literals(parts: Seq<Seq<char>>) -> bool {
    forall|i: int| 0 <= i < parts.len() ==> is_literal(#[trigger] parts[i])
}

/// The strings that the pieces stand for, one after the other.
pub open spec fn values_of(parts: Seq<Seq<char>>) -> Seq<char>
    decreases parts.len(),
{
    if parts.len() == 0 {
        seq![]
    } else {
        values_of(parts.drop_last()) + literal_value(parts.last())
    }
}

/// Whether the XPath expression `x` stands for the string `s`: it is a
/// literal for `s`, or `concat()` of two or more literals whose strings make
/// up `s`.
pub open spec fn denotes(x: Seq<char>, s: Seq<char>) -> bool {
    ||| is_literal(x) && literal_value(x) == s
    ||| exists|parts: Seq<Seq<char>>|
        #![trigger values_of(parts)]
        parts.len() >= 2 && all_literals(parts) && x == "concat("@ + join(parts, ", "@) + ")"@
            && values_of(parts) == s
}

proof fn lemma_values_push(parts: Seq<Seq<char>>, p: Seq<char>)
    ensures
        values_of(parts.push(p)) == values_of(parts) + literal_value(p),
{
    assert(parts.push(p).drop_last() =~= parts);
}

proof fn lemma_single_quoted(run: Seq<char>)
    requires
        !run.contains('\''),
    ensures
        is_literal(single_quoted(run)),
        literal_value(single_quoted(run)) == run,
{
    reveal_strlit("'");
    let p = single_quoted(run);
    assert(p =~= seq!['\''] + run + seq!['\'']);
    assert(p.subrange(1, p.len() - 1) =~= run);
}

proof fn lemma_quote_pieces()
    ensures
        is_literal("\"'\""@),
        literal_value("\"'\""@) == seq!['\''],
        is_literal("'\"'"@),
        literal_value("'\"'"@) == seq!['"'],
{
    reveal_strlit("\"'\"");
    reveal_strlit("'\"'");
    assert("\"'\""@.subrange(1, 2) =~= seq!['\'']);
    assert("'\"'"@.subrange(1, 2) =~= seq!['"']);
}

/// Folding keeps every piece a literal and loses nothing of the text read.
proof fn lemma_fold(
    s: Seq<char>,
    parts: Seq<Seq<char>>,
    cur: Seq<char>,
    use_single: bool,
)
    requires
        all_literals(parts),
        !cur.contains('\''),
    ensures
        ({
            let r = quote_fold(s, parts, cur, use_single);
            &&& all_literals(r.0)
            &&& !r.1.contains('\'')
            &&& values_of(r.0) + r.1 == values_of(parts) + cur + s
        }),
    decreases s.len(),
{
    if s.len() == 0 {
        assert(values_of(parts) + cur + s =~= values_of(parts) + cur);
    } else {
        let c = s[0];
        let rest = s.drop_first();
        assert(s =~= seq![c] + rest);
        lemma_quote_pieces();
        if c == '\'' {
            let closed = if cur.len() > 0 {
                parts.push(single_quoted(cur))
            } else {
                parts
            };
            if cur.len() > 0 {
                lemma_single_quoted(cur);
                lemma_values_push(parts, single_quoted(cur));
            } else {
                assert(values_of(parts) + cur =~= values_of(parts));
            }
            assert(values_of(closed) == values_of(parts) + cur);
            let next = closed.push("\"'\""@);
            lemma_values_push(closed, "\"'\""@);
            assert(all_literals(next)) by {
                assert forall|i: int| 0 <= i < next.len() implies is_literal(#[trigger] next[i]) by {
                    if i < closed.len() {
                        assert(next[i] == closed[i]);
                        if cur.len() > 0 && i == parts.len() {
                        } else {
                            assert(closed[i] == parts[i]);
                        }
                    }
                }
            }
            assert(!Seq::<char>::empty().contains('\''));
            lemma_fold(rest, next, seq![], true);
            assert(values_of(next) + Seq::<char>::empty() + rest =~= values_of(parts) + cur + s);
        } else if c == '"' && use_single {
            let closed = if cur.len() > 0 {
                parts.push(single_quoted(cur))
            } else {
                parts
            };
            if cur.len() > 0 {
                lemma_single_quoted(cur);
                lemma_values_push(parts, single_quoted(cur));
            } else {
                assert(values_of(parts) + cur =~= values_of(parts));
            }
            assert(values_of(closed) == values_of(parts) + cur);
            let next = closed.push("'\"'"@);
            lemma_values_push(closed, "'\"'"@);
            assert(all_literals(next)) by {
                assert forall|i: int| 0 <= i < next.len() implies is_literal(#[trigger] next[i]) by {
                    if i < closed.len() {
                        assert(next[i] == closed[i]);
                        if cur.len() > 0 && i == parts.len() {
                        } else {
                            assert(closed[i] == parts[i]);
                        }
                    }
                }
            }
            assert(!Seq::<char>::empty().contains('\''));
            lemma_fold(rest, next, seq![], false);
            assert(values_of(next) + Seq::<char>::empty() + rest =~= values_of(parts) + cur + s);
        } else {
            let longer = cur.push(c);
            assert(!longer.contains('\'')) by {
                if longer.contains('\'') {
                    let k = choose|k: int| 0 <= k < longer.len() && longer[k] == '\'';
                    if k < cur.len() {
                        assert(cur[k] == '\'');
                    }
                }
            }
            lemma_fold(rest, parts, longer, use_single);
            assert(values_of(parts) + longer + rest =~= values_of(parts) + cur + s);
        }
    }
}

/// The pieces built for `s` are literals that together stand for `s`.
proof fn lemma_quote_parts(s: Seq<char>)
    ensures
        all_literals(quote_parts(s)),
        values_of(quote_parts(s)) == s,
{
    let empty_parts: Seq<Seq<char>> = seq![];
    let empty: Seq<char> = seq![];
    assert(!empty.contains('\''));
    lemma_fold(s, empty_parts, empty, true);
    let r = quote_fold(s, empty_parts, empty, true);
    assert(values_of(empty_parts) + empty + s =~= s);
    if r.1.len() > 0 {
        lemma_single_quoted(r.1);
        lemma_values_push(r.0, single_quoted(r.1));
        let next = r.0.push(single_quoted(r.1));
        assert(all_literals(next)) by {
            assert forall|i: int| 0 <= i < next.len() implies is_literal(#[trigger] next[i]) by {
                if i < r.0.len() {
                    assert(next[i] == r.0[i]);
                }
            }
        }
    } else {
        assert(values_of(r.0) + r.1 =~= values_of(r.0));
    }
}

/// The XPath literal built for a string stands for that string: a quoted
/// string when it holds no single quote, else a `concat()` of quoted runs and
/// quote characters.
pub proof fn lemma_xpath_string_denotes(s: Seq<char>)
    ensures
        denotes(xpath_string(s), s),
{
    if !s.contains('\'') {
        lemma_single_quoted(s);
    } else {
        let parts = quote_parts(s);
        lemma_quote_parts(s);
        let k = choose|k: int| 0 <= k < s.len() && s[k] == '\'';
        assert(s[k] == '\'');
        if parts.len() == 0 {
            assert(values_of(parts) =~= Seq::<char>::empty());
        }
        if parts.len() == 1 {
            assert(parts.drop_last() =~= Seq::<Seq<char>>::empty());
            assert(values_of(parts.drop_last()) =~= Seq::<char>::empty());
            assert(values_of(parts) =~= literal_value(parts[0]));
            assert(is_literal(parts[0]));
            assert(concat_of(parts) == parts[0]);
        } else {
            assert(concat_of(parts) == "concat("@ + join(parts, ", "@) + ")"@);
        }
    }
}

} // verus!
