//! The `an+b` argument of `:nth-child()` and its relatives.
use vstd::prelude::*;

use super::fast::{find_char, find_char_exec, lemma_find_char};
use super::text::{
    chars_eq_str, chars_of, lemma_trim_start_skip, lowercase, parse_i32, skip_ws_chars,
    spec_is_ws, spec_parse_i32, string_of, sub_chars, to_lowercase, trim, trim_chars, trim_start,
};

verus! {

/// A character at which the argument is split into parts.
pub open spec fn is_part_sep(c: char) -> bool {
    c == '+' || c == ' '
}

/// The non-empty pieces of `s` between separators, after the piece `cur`
/// that has been read so far.
pub open spec fn pieces(s: Seq<char>, cur: Seq<char>) -> Seq<Seq<char>>
    decreases s.len(),
{
    if s.len() == 0 {
        if cur.len() == 0 {
            seq![]
        } else {
            seq![cur]
        }
    } else if is_part_sep(s[0]) {
        (if cur.len() == 0 {
            seq![]
        } else {
            seq![cur]
        }) + pieces(s.drop_first(), seq![])
    } else {
        pieces(s.drop_first(), cur.push(s[0]))
    }
}

/// `s` without its leading `+` and `-` characters.
pub open spec fn strip_signs(s: Seq<char>) -> Seq<char>
    decreases s.len(),
{
    if s.len() > 0 && (s[0] == '+' || s[0] == '-') {
        strip_signs(s.drop_first())
    } else {
        s
    }
}

/// `-v` in two's complement, where `-i32::MIN` is `i32::MIN` again.
pub open spec fn neg_wrap(v: i32) -> i32 {
    if v == i32::MIN {
        v
    } else {
        (-v) as i32
    }
}

/// The coefficient `a` that the text before the `n` of a part gives: none
/// (or only signs) means 1, negated when the whole argument starts with `-`;
/// a number is taken, negated likewise; other text leaves `a` as it was.
pub open spec fn coefficient(a: i32, head: Seq<char>, negative: bool) -> i32 {
    let coef = trim(strip_signs(head));
    if coef.len() == 0 {
        if negative {
            -1i32
        } else {
            1i32
        }
    } else if coef == seq!['-'] {
        -1i32
    } else {
        match spec_parse_i32(coef) {
            Some(v) => if negative {
                neg_wrap(v)
            } else {
                v
            },
            None => a,
        }
    }
}

/// What the text after the `n` of a part says of the offset `b`: nothing
/// (`Some(b)` unchanged) when it is blank or only more `n`s (as in `2nn`), the number when it is a number with
/// a sign (as in `2n-1`), and `None` when it is anything else (as in `2n5`),
/// which makes the whole part count for nothing.
pub open spec fn offset(b: i32, tail: Seq<char>) -> Option<i32> {
    let t = trim(tail);
    if forall|i: int| 0 <= i < t.len() ==> t[i] == 'n' {
        Some(b)
    } else if t[0] == '-' || t[0] == '+' {
        spec_parse_i32(t)
    } else {
        None
    }
}

/// How one part of the argument changes `(a, b)`: a part with an `n` sets
/// the coefficient `a` from the text before its first `n`, and the offset
/// `b` from a signed number after it (a part with other text after its `n`
/// changes nothing); a part that is a number sets `b`.
pub open spec fn nth_step(ab: (i32, i32), part: Seq<char>, negative: bool) -> (i32, i32) {
    let k = find_char(part, 'n');
    if k >= 0 {
        match offset(ab.1, part.skip(k + 1)) {
            Some(b) => (coefficient(ab.0, part.take(k), negative), b),
            None => ab,
        }
    } else {
        match spec_parse_i32(part) {
            Some(v) => (ab.0, v),
            None => ab,
        }
    }
}

/// `(a, b)` after the given parts, in order.
pub open spec fn nth_fold(parts: Seq<Seq<char>>, negative: bool, ab: (i32, i32)) -> (i32, i32)
    decreases parts.len(),
{
    if parts.len() == 0 {
        ab
    } else {
        nth_fold(parts.drop_first(), negative, nth_step(ab, parts[0], negative))
    }
}

/// The `(a, b)` that an `:nth-*()` argument denotes: `odd`, `even`, a
/// number `b` (then `a` is 0), or parts such as `2n` and `1` separated by `+`
/// or spaces, read after lower-casing.
pub open spec fn spec_nth_values(arg: Seq<char>) -> (i32, i32) {
    let t = trim(arg);
    if t == "odd"@ {
        (2, 1)
    } else if t == "even"@ {
        (2, 0)
    } else {
        let lower = lowercase(t);
        match spec_parse_i32(trim(lower)) {
            Some(n) => (0, n),
            None => {
                let negative = trim_start(lower).len() > 0 && trim_start(lower)[0] == '-';
                nth_fold(pieces(lower, seq![]), negative, (0, 0))
            },
        }
    }
}

proof fn lemma_fold_cons(p: Seq<char>, rest: Seq<Seq<char>>, negative: bool, ab: (i32, i32))
    ensures
        nth_fold(seq![p] + rest, negative, ab) == nth_fold(rest, negative, nth_step(ab, p, negative)),
{
    assert((seq![p] + rest).drop_first() =~= rest);
    assert((seq![p] + rest)[0] == p);
}

fn strip_signs_exec(s: &Vec<char>) -> (r: Vec<char>)
    ensures
        r@ == strip_signs(s@),
{
    let mut i: usize = 0;
    assert(s@.subrange(0, s.len() as int) =~= s@);
    while i < s.len() && (s[i] == '+' || s[i] == '-')
        invariant
            i <= s.len(),
            strip_signs(s@) == strip_signs(s@.subrange(i as int, s.len() as int)),
        decreases s.len() - i,
    {
        assert(s@.subrange(i as int, s.len() as int).drop_first() =~= s@.subrange(
            i + 1,
            s.len() as int,
        ));
        i += 1;
    }
    sub_chars(s, i, s.len())
}

fn neg_wrap_exec(v: i32) -> (r: i32)
    ensures
        r == neg_wrap(v),
{
    if v == i32::MIN {
        v
    } else {
        -v
    }
}

fn coefficient_exec(a: i32, head: &Vec<char>, negative: bool) -> (r: i32)
    ensures
        r == coefficient(a, head@, negative),
{
    let stripped = strip_signs_exec(head);
    let coef = trim_chars(&stripped);
    if coef.len() == 0 {
        if negative {
            -1
        } else {
            1
        }
    } else if coef.len() == 1 && coef[0] == '-' {
        assert(coef@ =~= seq!['-']);
        -1
    } else {
        proof {
            if coef@ == seq!['-'] {
                assert(coef@[0] == '-');
            }
        }
        match parse_i32(&coef) {
            Some(v) => if negative {
                neg_wrap_exec(v)
            } else {
                v
            },
            None => a,
        }
    }
}

/// Whether every character of `v` is `n`.
fn only_ns(v: &Vec<char>) -> (r: bool)
    ensures
        r == forall|i: int| 0 <= i < v@.len() ==> v@[i] == 'n',
{
    let mut i: usize = 0;
    while i < v.len()
        invariant
            i <= v.len(),
            forall|k: int| 0 <= k < i ==> v@[k] == 'n',
        decreases v.len() - i,
    {
        if v[i] != 'n' {
            return false;
        }
        i += 1;
    }
    true
}

fn nth_step_exec(ab: (i32, i32), part: &Vec<char>, negative: bool) -> (r: (i32, i32))
    ensures
        r == nth_step(ab, part@, negative),
{
    match find_char_exec(part, 'n') {
        Some(k) => {
            proof {
                lemma_find_char(part@, 'n');
                assert(find_char(part@, 'n') == k as int);
            }
            assert(k < part.len());
            let head = sub_chars(part, 0, k);
            let tail = sub_chars(part, k + 1, part.len());
            assert(head@ =~= part@.take(k as int));
            assert(tail@ =~= part@.skip(k + 1));
            let trimmed = trim_chars(&tail);
            let b = if only_ns(&trimmed) {
                ab.1
            } else if trimmed[0] == '-' || trimmed[0] == '+' {
                match parse_i32(&trimmed) {
                    Some(v) => v,
                    None => {
                        return ab;
                    },
                }
            } else {
                return ab;
            };
            let a = coefficient_exec(ab.0, &head, negative);
            (a, b)
        },
        None => match parse_i32(part) {
            Some(v) => (ab.0, v),
            None => ab,
        },
    }
}

/// The `(a, b)` that an `:nth-*()` argument denotes.
pub fn nth_values(arg: &Vec<char>) -> (r: (i32, i32))
    ensures
        r == spec_nth_values(arg@),
{
    let t = trim_chars(arg);
    if chars_eq_str(&t, "odd") {
        return (2, 1);
    }
    if chars_eq_str(&t, "even") {
        return (2, 0);
    }
    let t_string = string_of(&t);
    let lower_string = to_lowercase(t_string.as_str());
    let lower = chars_of(lower_string.as_str());
    let trimmed = trim_chars(&lower);
    if let Some(n) = parse_i32(&trimmed) {
        return (0, n);
    }
    let first = skip_ws_chars(&lower, 0);
    let negative = first < lower.len() && lower[first] == '-';
    proof {
        lemma_trim_start_skip(lower@, first as int);
        let rest = lower@.subrange(first as int, lower.len() as int);
        if first < lower.len() {
            assert(rest[0] == lower@[first as int]);
            assert(!spec_is_ws(rest[0]));
            assert(trim_start(rest) == rest);
        } else {
            assert(rest.len() == 0);
        }
    }
    let mut ab: (i32, i32) = (0, 0);
    let mut cur: Vec<char> = Vec::new();
    assert(lower@ == lowercase(trim(arg@)));
    assert(lower@.subrange(0, lower.len() as int) =~= lower@);
    assert(cur@ =~= seq![]);
    let mut i: usize = 0;
    while i < lower.len()
        invariant
            i <= lower.len(),
            spec_nth_values(arg@) == nth_fold(
                pieces(lower@.subrange(i as int, lower.len() as int), cur@),
                negative,
                ab,
            ),
        decreases lower.len() - i,
    {
        let c = lower[i];
        let ghost rest = lower@.subrange(i as int, lower.len() as int);
        assert(rest.drop_first() =~= lower@.subrange(i + 1, lower.len() as int));
        assert(rest[0] == c);
        if c == '+' || c == ' ' {
            if cur.len() > 0 {
                proof {
                    lemma_fold_cons(cur@, pieces(rest.drop_first(), seq![]), negative, ab);
                }
                ab = nth_step_exec(ab, &cur, negative);
                cur = Vec::new();
            } else {
                assert(seq![] + pieces(rest.drop_first(), seq![]) =~= pieces(
                    rest.drop_first(),
                    seq![],
                ));
                cur = Vec::new();
                assert(cur@ =~= seq![]);
            }
        } else {
            cur.push(c);
        }
        i += 1;
    }
    let ghost empty = lower@.subrange(lower.len() as int, lower.len() as int);
    assert(empty.len() == 0);
    if cur.len() > 0 {
        proof {
            lemma_fold_cons(cur@, seq![], negative, ab);
            assert(seq![cur@] + Seq::<Seq<char>>::empty() =~= seq![cur@]);
        }
        ab = nth_step_exec(ab, &cur, negative);
    }
    ab
}

/// Whether `(a, b)` selects the 1-based position `i`: `i = a*n + b` for some
/// `n >= 0`.
pub open spec fn nth_selects(ab: (i32, i32), i: int) -> bool {
    exists|n: int| n >= 0 && #[trigger] (ab.0 * n) + ab.1 == i
}

/// `even` selects exactly the even positions and `odd` exactly the odd ones
/// (so the two select no position in common), whatever whitespace surrounds
/// them.
pub proof fn lemma_even_odd_positions(even: Seq<char>, odd: Seq<char>)
    requires
        trim(even) == "even"@,
        trim(odd) == "odd"@,
    ensures
        forall|i: int| i >= 1 ==> (nth_selects(spec_nth_values(even), i) <==> i % 2 == 0),
        forall|i: int| i >= 1 ==> (nth_selects(spec_nth_values(odd), i) <==> i % 2 == 1),
{
    reveal_strlit("even");
    reveal_strlit("odd");
    assert("even"@ != "odd"@) by {
        assert("even"@.len() != "odd"@.len());
    }
    let e = spec_nth_values(even);
    let o = spec_nth_values(odd);
    assert(e == (2i32, 0i32));
    assert(o == (2i32, 1i32));
    assert forall|i: int| i >= 1 implies (nth_selects(e, i) <==> i % 2 == 0) by {
        if i % 2 == 0 {
            let n = i / 2;
            assert(e.0 * n + e.1 == i);
        }
        if nth_selects(e, i) {
            let n = choose|n: int| n >= 0 && #[trigger] (e.0 * n) + e.1 == i;
            assert(i == 2 * n);
        }
    }
    assert forall|i: int| i >= 1 implies (nth_selects(o, i) <==> i % 2 == 1) by {
        if i % 2 == 1 {
            let n = (i - 1) / 2;
            assert(o.0 * n + o.1 == i);
        }
        if nth_selects(o, i) {
            let n = choose|n: int| n >= 0 && #[trigger] (o.0 * n) + o.1 == i;
            assert(i == 2 * n + 1);
        }
    }
}

/// A witness `n` shows that `(a, b)` selects position `i`.
pub proof fn lemma_nth_selects_witness(ab: (i32, i32), i: int, n: int)
    requires
        n >= 0,
        ab.0 * n + ab.1 == i,
    ensures
        nth_selects(ab, i),
{
}

} // verus!
