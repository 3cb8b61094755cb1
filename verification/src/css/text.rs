//! Character classes and small text operations shared by the tokenizer,
//! the parser and the XPath compiler.
use vstd::prelude::*;

verus! {

// ── Character classes ───────────────────────────────────────────────────────
/// The Unicode `White_Space` property, which `char::is_whitespace` tests.
pub open spec fn spec_is_ws(c: char) -> bool {
    ||| c == ' '
    ||| ('\t' <= c && c <= '\r')
    ||| c == '\u{85}'
    ||| c == '\u{a0}'
    ||| c == '\u{1680}'
    ||| ('\u{2000}' <= c && c <= '\u{200a}')
    ||| c == '\u{2028}'
    ||| c == '\u{2029}'
    ||| c == '\u{202f}'
    ||| c == '\u{205f}'
    ||| c == '\u{3000}'
}

/// Whether `c` is whitespace in the sense of `char::is_whitespace`.
pub fn is_ws(c: char) -> (r: bool)
    ensures
        r == spec_is_ws(c),
{
    c == ' ' || ('\t' <= c && c <= '\r') || c == '\u{85}' || c == '\u{a0}' || c == '\u{1680}'
        || ('\u{2000}' <= c && c <= '\u{200a}') || c == '\u{2028}' || c == '\u{2029}'
        || c == '\u{202f}' || c == '\u{205f}' || c == '\u{3000}'
}

/// An ASCII decimal digit.
pub open spec fn spec_is_digit(c: char) -> bool {
    '0' <= c && c <= '9'
}

/// An ASCII letter or digit.
pub open spec fn spec_is_alnum(c: char) -> bool {
    ('a' <= c && c <= 'z') || ('A' <= c && c <= 'Z') || spec_is_digit(c)
}

/// A character that may appear in an identifier: ASCII letters and
/// digits, `_` and `-`.
pub open spec fn spec_is_ident_char(c: char) -> bool {
    spec_is_alnum(c) || c == '_' || c == '-'
}

pub fn is_digit(c: char) -> (r: bool)
    ensures
        r == spec_is_digit(c),
{
    '0' <= c && c <= '9'
}

pub fn is_ident_char(c: char) -> (r: bool)
    ensures
        r == spec_is_ident_char(c),
{
    ('a' <= c && c <= 'z') || ('A' <= c && c <= 'Z') || ('0' <= c && c <= '9') || c == '_'
        || c == '-'
}

// ── Trimming ────────────────────────────────────────────────────────────────
/// `s` without its leading whitespace.
pub open spec fn trim_start(s: Seq<char>) -> Seq<char>
    decreases s.len(),
{
    if s.len() > 0 && spec_is_ws(s[0]) {
        trim_start(s.drop_first())
    } else {
        s
    }
}

/// `s` without its trailing whitespace.
pub open spec fn trim_end(s: Seq<char>) -> Seq<char>
    decreases s.len(),
{
    if s.len() > 0 && spec_is_ws(s.last()) {
        trim_end(s.drop_last())
    } else {
        s
    }
}

/// `s` without leading and trailing whitespace, as `str::trim` gives it.
pub open spec fn trim(s: Seq<char>) -> Seq<char> {
    trim_end(trim_start(s))
}

/// Every character of `s` is whitespace.
pub open spec fn all_ws(s: Seq<char>) -> bool {
    forall|i: int| 0 <= i < s.len() ==> spec_is_ws(#[trigger] s[i])
}

pub proof fn lemma_trim_start_skip(s: Seq<char>, i: int)
    requires
        0 <= i <= s.len(),
        forall|k: int| 0 <= k < i ==> spec_is_ws(#[trigger] s[k]),
    ensures
        trim_start(s) == trim_start(s.subrange(i, s.len() as int)),
    decreases i,
{
    if i > 0 {
        lemma_trim_start_skip(s, i - 1);
        assert(s.subrange(i - 1, s.len() as int).drop_first() =~= s.subrange(i, s.len() as int));
    } else {
        assert(s.subrange(0, s.len() as int) =~= s);
    }
}

pub proof fn lemma_trim_end_take(s: Seq<char>, j: int)
    requires
        0 <= j <= s.len(),
        forall|k: int| j <= k < s.len() ==> spec_is_ws(#[trigger] s[k]),
    ensures
        trim_end(s) == trim_end(s.subrange(0, j)),
    decreases s.len() - j,
{
    if j < s.len() {
        lemma_trim_end_take(s, j + 1);
        assert(s.subrange(0, j + 1).drop_last() =~= s.subrange(0, j));
    } else {
        assert(s.subrange(0, s.len() as int) =~= s);
    }
}

pub proof fn lemma_trim_start_all_ws(s: Seq<char>)
    ensures
        (trim_start(s).len() == 0) == all_ws(s),
        trim_start(s).len() > 0 ==> !spec_is_ws(trim_start(s)[0]),
        trim_start(s).len() <= s.len(),
    decreases s.len(),
{
    if s.len() > 0 && spec_is_ws(s[0]) {
        lemma_trim_start_all_ws(s.drop_first());
        if all_ws(s.drop_first()) {
            assert forall|i: int| 0 <= i < s.len() implies spec_is_ws(#[trigger] s[i]) by {
                if i > 0 {
                    assert(s[i] == s.drop_first()[i - 1]);
                }
            }
        }
        if all_ws(s) {
            assert forall|i: int| 0 <= i < s.drop_first().len() implies spec_is_ws(
                #[trigger] s.drop_first()[i],
            ) by {
                assert(s.drop_first()[i] == s[i + 1]);
            }
        }
    }
}

pub proof fn lemma_trim_end_nonempty(s: Seq<char>)
    requires
        s.len() > 0,
        !spec_is_ws(s[0]),
    ensures
        trim_end(s).len() > 0,
        trim_end(s)[0] == s[0],
        !spec_is_ws(trim_end(s).last()),
    decreases s.len(),
{
    if spec_is_ws(s.last()) {
        lemma_trim_end_nonempty(s.drop_last());
    }
}

/// Index of the first non-whitespace character at or after `i`.
pub fn skip_ws_chars(s: &Vec<char>, i: usize) -> (j: usize)
    requires
        i <= s.len(),
    ensures
        i <= j <= s.len(),
        forall|k: int| i <= k < j ==> spec_is_ws(#[trigger] s@[k]),
        j < s.len() ==> !spec_is_ws(s@[j as int]),
{
    let mut j = i;
    while j < s.len() && is_ws(s[j])
        invariant
            i <= j <= s.len(),
            forall|k: int| i <= k < j ==> spec_is_ws(#[trigger] s@[k]),
        decreases s.len() - j,
    {
        j += 1;
    }
    j
}

/// The characters of `s` from `a` to `b`.
pub fn sub_chars(s: &Vec<char>, a: usize, b: usize) -> (r: Vec<char>)
    requires
        a <= b <= s.len(),
    ensures
        r@ == s@.subrange(a as int, b as int),
{
    let mut r: Vec<char> = Vec::new();
    let mut k = a;
    while k < b
        invariant
            a <= k <= b <= s.len(),
            r@ == s@.subrange(a as int, k as int),
        decreases b - k,
    {
        r.push(s[k]);
        k += 1;
        assert(r@ =~= s@.subrange(a as int, k as int));
    }
    r
}

/// A copy of the characters of `v`.
pub fn copy_chars(v: &Vec<char>) -> (r: Vec<char>)
    ensures
        r@ == v@,
{
    let r = sub_chars(v, 0, v.len());
    assert(v@.subrange(0, v.len() as int) =~= v@);
    r
}

/// Appends the characters of `w` to `v`.
pub fn extend_chars(v: &mut Vec<char>, w: &Vec<char>)
    ensures
        final(v)@ == old(v)@ + w@,
{
    let mut k: usize = 0;
    while k < w.len()
        invariant
            k <= w.len(),
            v@ == old(v)@ + w@.subrange(0, k as int),
        decreases w.len() - k,
    {
        v.push(w[k]);
        k += 1;
        assert(v@ =~= old(v)@ + w@.subrange(0, k as int));
    }
    assert(w@.subrange(0, w.len() as int) =~= w@);
}

/// Whether every character of `v` is whitespace.
pub fn all_ws_chars(v: &Vec<char>) -> (r: bool)
    ensures
        r == all_ws(v@),
{
    let mut k: usize = 0;
    while k < v.len()
        invariant
            k <= v.len(),
            forall|j: int| 0 <= j < k ==> spec_is_ws(#[trigger] v@[j]),
        decreases v.len() - k,
    {
        if !is_ws(v[k]) {
            return false;
        }
        k += 1;
    }
    true
}

/// `s` with leading and trailing whitespace removed.
pub fn trim_chars(s: &Vec<char>) -> (r: Vec<char>)
    ensures
        r@ == trim(s@),
{
    let a = skip_ws_chars(s, 0);
    proof {
        lemma_trim_start_skip(s@, a as int);
    }
    let mut b = s.len();
    while b > a && is_ws(s[b - 1])
        invariant
            a <= b <= s.len(),
            forall|k: int| b <= k < s.len() ==> spec_is_ws(#[trigger] s@[k]),
        decreases b,
    {
        b -= 1;
    }
    let r = sub_chars(s, a, b);
    proof {
        let t = s@.subrange(a as int, s.len() as int);
        if a < s.len() {
            // the first character of the trimmed start is not whitespace
            assert(trim_start(t) == t) by {
                assert(!spec_is_ws(t[0]));
            }
            lemma_trim_end_take(t, (b - a) as int);
            assert(t.subrange(0, (b - a) as int) =~= s@.subrange(a as int, b as int));
        } else {
            assert(t.len() == 0);
            assert(s@.subrange(a as int, b as int).len() == 0);
        }
    }
    r
}

/// The characters of a string slice, in order.
pub fn chars_of(s: &str) -> (v: Vec<char>)
    ensures
        v@ == s@,
{
    let mut v: Vec<char> = Vec::new();
    for c in it: s.chars()
        invariant
            v@ == it.seq().take(it.index() as int),
    {
        v.push(c);
    }
    v
}

// ── Comparing ───────────────────────────────────────────────────────────────
/// Whether two character vectors hold the same characters.
pub fn chars_eq(a: &Vec<char>, b: &Vec<char>) -> (r: bool)
    ensures
        r == (a@ == b@),
{
    if a.len() != b.len() {
        return false;
    }
    let mut k: usize = 0;
    while k < a.len()
        invariant
            k <= a.len() == b.len(),
            forall|j: int| 0 <= j < k ==> a@[j] == b@[j],
        decreases a.len() - k,
    {
        if a[k] != b[k] {
            return false;
        }
        k += 1;
    }
    assert(a@ =~= b@);
    true
}

/// Whether the characters of `a` are those of `lit`.
pub fn chars_eq_str(a: &Vec<char>, lit: &str) -> (r: bool)
    ensures
        r == (a@ == lit@),
{
    let b = chars_of(lit);
    chars_eq(a, &b)
}

/// Whether `c` occurs in `v`.
pub fn has_char(v: &Vec<char>, c: char) -> (r: bool)
    ensures
        r == v@.contains(c),
{
    let mut k: usize = 0;
    while k < v.len()
        invariant
            k <= v.len(),
            forall|j: int| 0 <= j < k ==> v@[j] != c,
        decreases v.len() - k,
    {
        if v[k] == c {
            return true;
        }
        k += 1;
    }
    false
}

// ── Building strings ────────────────────────────────────────────────────────
/// `String::push`: appends one character.
#[verifier::external_body]
pub(crate) fn push_char(s: &mut String, c: char)
    ensures
        final(s)@ == old(s)@.push(c),
{
    s.push(c);
}

/// A `String` holding the given characters.
pub fn string_of(v: &Vec<char>) -> (s: String)
    ensures
        s@ == v@,
{
    let mut s = String::new();
    let mut k: usize = 0;
    while k < v.len()
        invariant
            k <= v.len(),
            s@ == v@.subrange(0, k as int),
        decreases v.len() - k,
    {
        push_char(&mut s, v[k]);
        k += 1;
        assert(s@ =~= v@.subrange(0, k as int));
    }
    assert(v@.subrange(0, v.len() as int) =~= v@);
    s
}

/// Appends the characters of `v` to `s`.
pub fn push_chars(s: &mut String, v: &Vec<char>)
    ensures
        final(s)@ == old(s)@ + v@,
{
    let mut k: usize = 0;
    while k < v.len()
        invariant
            k <= v.len(),
            s@ == old(s)@ + v@.subrange(0, k as int),
        decreases v.len() - k,
    {
        push_char(s, v[k]);
        k += 1;
        assert(s@ =~= old(s)@ + v@.subrange(0, k as int));
    }
    assert(v@.subrange(0, v.len() as int) =~= v@);
}

// ── Outside text functions ──────────────────────────────────────────────────
/// What `str::to_lowercase` returns for the given characters (full Unicode
/// lower-casing, independent of any locale).
pub uninterp spec fn lowercase(s: Seq<char>) -> Seq<char>;

/// The ASCII lower-case form of a character: `A`-`Z` become `a`-`z`, every
/// other character stays.
pub open spec fn ascii_lower(c: char) -> char {
    if 'A' <= c <= 'Z' {
        ((c as u32) + 32) as char
    } else {
        c
    }
}

/// `str::to_lowercase`. The result is a function of the characters of `s`,
/// named `lowercase`; for ASCII text (where Unicode lower-casing maps `A`-`Z`
/// to `a`-`z` and keeps every other character) the contract states it.
#[verifier::external_body]
pub(crate) fn to_lowercase(s: &str) -> (r: String)
    ensures
        r@ == lowercase(s@),
        (forall|i: int| 0 <= i < s@.len() ==> (#[trigger] s@[i] as u32) < 128) ==> r@ == s@.map_values(
            |c: char| ascii_lower(c),
        ),
{
    s.to_lowercase()
}

/// What `format!("{:?}", s)` writes for a string slice: the text in double
/// quotes with Rust's debug escapes.
pub uninterp spec fn str_debug(s: Seq<char>) -> Seq<char>;

/// `<str as Debug>::fmt`, through `format!`. The contract claims only that the
/// result is a function of the characters of `s`, named `str_debug`.
#[verifier::external_body]
pub(crate) fn debug_str(s: &str) -> (r: String)
    ensures
        r@ == str_debug(s@),
{
    format!("{:?}", s)
}

/// What `format!("{:?}", c)` writes for a character: the character in single
/// quotes with Rust's debug escapes.
pub uninterp spec fn char_debug(c: char) -> Seq<char>;

/// `<char as Debug>::fmt`, through `format!`. The contract claims only that the
/// result is a function of `c`, named `char_debug`.
#[verifier::external_body]
pub(crate) fn debug_char(c: char) -> (r: String)
    ensures
        r@ == char_debug(c),
{
    format!("{:?}", c)
}

// ── Integers ────────────────────────────────────────────────────────────────
/// The decimal value of an ASCII digit.
pub open spec fn digit_value(c: char) -> int {
    c as int - '0' as int
}

/// Every character of `s` is an ASCII digit.
pub open spec fn all_digits(s: Seq<char>) -> bool {
    forall|i: int| 0 <= i < s.len() ==> spec_is_digit(#[trigger] s[i])
}

/// The value of a string of decimal digits.
pub open spec fn digits_value(s: Seq<char>) -> int
    decreases s.len(),
{
    if s.len() == 0 {
        0
    } else {
        digits_value(s.drop_last()) * 10 + digit_value(s.last())
    }
}

/// What `str::parse::<i32>` accepts: an optional `+` or `-`, then one or more
/// ASCII digits, whose value fits in an `i32`.
pub open spec fn spec_parse_i32(s: Seq<char>) -> Option<i32> {
    let neg = s.len() > 0 && s[0] == '-';
    let signed = s.len() > 0 && (s[0] == '-' || s[0] == '+');
    let d = if signed {
        s.drop_first()
    } else {
        s
    };
    if d.len() == 0 || !all_digits(d) {
        None
    } else {
        let v = if neg {
            -digits_value(d)
        } else {
            digits_value(d)
        };
        if i32::MIN <= v <= i32::MAX {
            Some(v as i32)
        } else {
            None
        }
    }
}

proof fn lemma_digits_value_mono(d: Seq<char>, k: int)
    requires
        all_digits(d),
        0 <= k <= d.len(),
    ensures
        0 <= digits_value(d.subrange(0, k)) <= digits_value(d),
    decreases d.len(),
{
    if d.len() > 0 {
        assert(all_digits(d.drop_last())) by {
            assert forall|i: int| 0 <= i < d.drop_last().len() implies spec_is_digit(
                #[trigger] d.drop_last()[i],
            ) by {
                assert(d.drop_last()[i] == d[i]);
            }
        }
        assert(spec_is_digit(d[d.len() - 1]));
        if k < d.len() {
            lemma_digits_value_mono(d.drop_last(), k);
            assert(d.drop_last().subrange(0, k) =~= d.subrange(0, k));
        } else {
            assert(d.subrange(0, k) =~= d);
        }
        lemma_digits_value_mono(d.drop_last(), d.len() - 1);
        assert(d.drop_last().subrange(0, d.len() - 1) =~= d.drop_last());
    } else {
        assert(d.subrange(0, k) =~= d);
    }
}

/// `str::parse::<i32>` on the given characters.
pub fn parse_i32(s: &Vec<char>) -> (r: Option<i32>)
    ensures
        r == spec_parse_i32(s@),
{
    let n = s.len();
    if n == 0 {
        return None;
    }
    let neg = s[0] == '-';
    let start: usize = if s[0] == '-' || s[0] == '+' {
        1
    } else {
        0
    };
    let ghost d = if start == 1 {
        s@.drop_first()
    } else {
        s@
    };
    assert(d =~= s@.subrange(start as int, n as int));
    if start == n {
        return None;
    }
    let mut v: i64 = 0;
    let mut i = start;
    while i < n
        invariant
            start <= i <= n == s.len(),
            n > 0,
            start < n,
            neg == (s@[0] == '-'),
            (start == 1) == (s@[0] == '-' || s@[0] == '+'),
            start <= 1,
            d == (if start == 1 { s@.drop_first() } else { s@ }),
            d == s@.subrange(start as int, n as int),
            all_digits(s@.subrange(start as int, i as int)),
            v == digits_value(s@.subrange(start as int, i as int)),
            0 <= v <= 2147483648,
        decreases n - i,
    {
        let c = s[i];
        if !is_digit(c) {
            assert(d[i - start] == c);
            return None;
        }
        let dv = (c as u32 - '0' as u32) as i64;
        let ghost prev = s@.subrange(start as int, i as int);
        v = v * 10 + dv;
        i += 1;
        proof {
            let cur = s@.subrange(start as int, i as int);
            assert(cur.drop_last() =~= prev);
            assert(cur.last() == c);
            assert forall|k: int| 0 <= k < cur.len() implies spec_is_digit(#[trigger] cur[k]) by {
                if k < cur.len() - 1 {
                    assert(cur[k] == prev[k]);
                }
            }
        }
        if v > 2147483648 {
            proof {
                let cur = s@.subrange(start as int, i as int);
                if all_digits(d) {
                    lemma_digits_value_mono(d, (i - start) as int);
                    assert(d.subrange(0, (i - start) as int) =~= cur);
                }
            }
            return None;
        }
    }
    assert(s@.subrange(start as int, n as int) =~= d);
    if neg {
        let r = -v;
        if r < -2147483648 {
            None
        } else {
            Some(r as i32)
        }
    } else {
        if v > 2147483647 {
            None
        } else {
            Some(v as i32)
        }
    }
}

/// The decimal digits of a natural number.
pub open spec fn nat_text(n: nat) -> Seq<char>
    decreases n,
{
    if n < 10 {
        seq![(n + 48) as char]
    } else {
        nat_text(n / 10).push(((n % 10) + 48) as char)
    }
}

/// The decimal text of an integer, as `format!("{}", i)` writes it.
pub open spec fn int_text(i: int) -> Seq<char> {
    if i < 0 {
        seq!['-'] + nat_text((-i) as nat)
    } else {
        nat_text(i as nat)
    }
}

/// The decimal text of `i`.
pub fn i32_text(i: i32) -> (r: String)
    ensures
        r@ == int_text(i as int),
{
    let wide = i as i64;
    let m: u64 = if wide < 0 {
        (-wide) as u64
    } else {
        wide as u64
    };
    let mut cur = m;
    let mut digits: Vec<char> = Vec::new();
    while cur >= 10
        invariant
            nat_text(m as nat) == nat_text(cur as nat) + digits@,
        decreases cur,
    {
        let d = (cur % 10) as u32;
        let c = char_of_digit(d);
        let ghost old_digits = digits@;
        digits.insert(0, c);
        assert(nat_text(cur as nat) == nat_text((cur / 10) as nat).push(c));
        assert(digits@ =~= seq![c] + old_digits);
        assert(nat_text(cur as nat) + old_digits =~= nat_text((cur / 10) as nat) + digits@);
        cur = cur / 10;
    }
    let c = char_of_digit(cur as u32);
    digits.insert(0, c);
    assert(nat_text(cur as nat) =~= seq![c]);
    let mut r = String::new();
    if wide < 0 {
        push_char(&mut r, '-');
    }
    push_chars(&mut r, &digits);
    proof {
        if wide < 0 {
            assert(r@ =~= seq!['-'] + nat_text(m as nat));
        } else {
            assert(r@ =~= nat_text(m as nat));
        }
    }
    r
}

/// The decimal text of `n`.
pub fn usize_text(n: usize) -> (r: String)
    ensures
        r@ == nat_text(n as nat),
{
    let m = n as u64;
    let mut cur = m;
    let mut digits: Vec<char> = Vec::new();
    while cur >= 10
        invariant
            nat_text(m as nat) == nat_text(cur as nat) + digits@,
        decreases cur,
    {
        let d = (cur % 10) as u32;
        let c = char_of_digit(d);
        let ghost old_digits = digits@;
        digits.insert(0, c);
        assert(nat_text(cur as nat) == nat_text((cur / 10) as nat).push(c));
        assert(digits@ =~= seq![c] + old_digits);
        assert(nat_text(cur as nat) + old_digits =~= nat_text((cur / 10) as nat) + digits@);
        cur = cur / 10;
    }
    let c = char_of_digit(cur as u32);
    digits.insert(0, c);
    assert(nat_text(cur as nat) =~= seq![c]);
    let mut r = String::new();
    push_chars(&mut r, &digits);
    assert(r@ =~= nat_text(m as nat));
    r
}

fn char_of_digit(d: u32) -> (c: char)
    requires
        d < 10,
    ensures
        c == (d + 48) as char,
{
    if d == 0 {
        '0'
    } else if d == 1 {
        '1'
    } else if d == 2 {
        '2'
    } else if d == 3 {
        '3'
    } else if d == 4 {
        '4'
    } else if d == 5 {
        '5'
    } else if d == 6 {
        '6'
    } else if d == 7 {
        '7'
    } else if d == 8 {
        '8'
    } else {
        '9'
    }
}

} // verus!
