//! The JSON type a flag's value is written as: boolean, integer, float or
//! string, judged from its text.
use vstd::prelude::*;

use crate::text::{chars_of, lower_text, same_chars, to_lowercase};

verus! {

// ─── Digits ──────────────────────────────────────────────────────────────────

/// An ASCII decimal digit.
pub open spec fn is_digit(c: char) -> bool {
    '0' <= c && c <= '9'
}

/// Every character of `s` is a digit.
pub open spec fn all_digits(s: Seq<char>) -> bool {
    forall|i: int| 0 <= i < s.len() ==> is_digit(#[trigger] s[i])
}

/// The number a digit stands for.
pub open spec fn digit_value(c: char) -> int {
    (c as u32) - ('0' as u32)
}

/// The number a run of digits stands for, in base ten.
pub open spec fn digits_value(s: Seq<char>) -> int
    decreases s.len(),
{
    if s.len() == 0 {
        0
    } else {
        digits_value(s.drop_last()) * 10 + digit_value(s.last())
    }
}

/// `s` without a leading `+` or `-`.
pub open spec fn unsigned_part(s: Seq<char>) -> Seq<char> {
    if s.len() > 0 && (s[0] == '+' || s[0] == '-') {
        s.drop_first()
    } else {
        s
    }
}

/// `s` starts with `-`.
pub open spec fn is_negative(s: Seq<char>) -> bool {
    s.len() > 0 && s[0] == '-'
}

/// What `str::parse::<i64>` gives for `s`: an optional sign, then one or
/// more digits, standing for a number in the range of `i64`.
pub open spec fn i64_text(s: Seq<char>) -> Option<int> {
    let b = unsigned_part(s);
    let v = if is_negative(s) { -digits_value(b) } else { digits_value(b) };
    if b.len() > 0 && all_digits(b) && i64::MIN <= v <= i64::MAX {
        Some(v)
    } else {
        None
    }
}

proof fn lemma_digits_value_nonneg(s: Seq<char>)
    requires
        all_digits(s),
    ensures
        digits_value(s) >= 0,
    decreases s.len(),
{
    if s.len() > 0 {
        lemma_digits_value_nonneg(s.drop_last());
    }
}

/// A prefix of a run of digits stands for no larger a number.
proof fn lemma_digits_value_prefix(s: Seq<char>, k: int)
    requires
        all_digits(s),
        0 <= k <= s.len(),
    ensures
        digits_value(s.take(k)) <= digits_value(s),
    decreases s.len(),
{
    if k < s.len() {
        assert(s.drop_last().take(k) =~= s.take(k));
        lemma_digits_value_prefix(s.drop_last(), k);
        lemma_digits_value_nonneg(s.drop_last());
    } else {
        assert(s.take(k) =~= s);
    }
}

/// The digit `c` stands for `v`.
fn digit_of(c: char) -> (r: Option<u64>)
    ensures
        match r {
            Some(v) => is_digit(c) && v as int == digit_value(c) && v <= 9,
            None => !is_digit(c),
        },
{
    if '0' <= c && c <= '9' {
        Some((c as u32 - '0' as u32) as u64)
    } else {
        None
    }
}

/// Parses an `i64` as `str::parse` does.
pub fn parse_i64(s: &Vec<char>) -> (r: Option<i64>)
    ensures
        match r {
            Some(v) => i64_text(s@) == Some(v as int),
            None => i64_text(s@) is None,
        },
{
    let n = s.len();
    if n == 0 {
        return None;
    }
    let neg = s[0] == '-';
    let start: usize = if s[0] == '-' || s[0] == '+' { 1 } else { 0 };
    let ghost b = unsigned_part(s@);
    proof {
        assert(b =~= s@.skip(start as int));
    }
    if start == n {
        return None;
    }
    let limit: u128 = if neg { 9223372036854775808 } else { 9223372036854775807 };
    let mut acc: u64 = 0;
    let mut i: usize = start;
    proof {
        assert(b.take(0) =~= Seq::<char>::empty());
    }
    while i < n
        invariant
            n == s@.len(),
            start <= i <= n,
            b == s@.skip(start as int),
            b == unsigned_part(s@),
            b.len() == n - start,
            all_digits(b.take(i - start)),
            acc as int == digits_value(b.take(i - start)),
            acc as int <= limit,
            limit == if is_negative(s@) { 9223372036854775808u128 } else { 9223372036854775807u128 },
        decreases n - i,
    {
        let k: Ghost<int> = Ghost(i - start);
        match digit_of(s[i]) {
            None => {
                proof {
                    assert(b[k@] == s@[i as int]);
                    assert(!is_digit(b[k@]));
                    assert(!all_digits(b));
                }
                return None;
            },
            Some(d) => {
                proof {
                    assert(b.take(k@ + 1).drop_last() =~= b.take(k@));
                    assert(b.take(k@ + 1).last() == s@[i as int]);
                    assert(all_digits(b.take(k@ + 1)));
                }
                let next: u128 = (acc as u128) * 10 + (d as u128);
                proof {
                    assert(digits_value(b.take(k@ + 1)) == next as int);
                }
                if next > limit {
                    proof {
                        if all_digits(b) {
                            lemma_digits_value_prefix(b, k@ + 1);
                            assert(digits_value(b) > limit);
                        }
                    }
                    return None;
                }
                acc = next as u64;
                i = i + 1;
            },
        }
    }
    proof {
        assert(b.take(n - start) =~= b);
    }
    if neg {
        if acc == 9223372036854775808u64 {
            Some(i64::MIN)
        } else {
            Some(-(acc as i64))
        }
    } else {
        Some(acc as i64)
    }
}

// ─── Float syntax ────────────────────────────────────────────────────────────

/// How many digits `s` starts with.
pub open spec fn leading_digits(s: Seq<char>) -> nat
    decreases s.len(),
{
    if s.len() == 0 || !is_digit(s[0]) {
        0
    } else {
        1 + leading_digits(s.drop_first())
    }
}

/// `s` equals the lowercase ASCII word `w` when ASCII letters are compared
/// without regard to case.
pub open spec fn equals_ignoring_case(s: Seq<char>, w: Seq<char>) -> bool {
    s.len() == w.len() && forall|i: int|
        0 <= i < s.len() ==> (s[i] as u32) == (w[i] as u32) || (s[i] as u32) + 32 == (w[i] as u32)
}

/// `e` or `E`, an optional sign, and one or more digits.
pub open spec fn is_exponent(s: Seq<char>) -> bool {
    s.len() > 0 && (s[0] == 'e' || s[0] == 'E') && {
        let t = unsigned_part(s.drop_first());
        t.len() > 0 && all_digits(t)
    }
}

/// Digits, a point, digits (at least one digit in all), then an optional
/// exponent.
pub open spec fn is_decimal_number(s: Seq<char>) -> bool {
    let a = leading_digits(s);
    let r = s.skip(a as int);
    if r.len() > 0 && r[0] == '.' {
        let r2 = r.drop_first();
        let b = leading_digits(r2);
        let rest = r2.skip(b as int);
        a + b >= 1 && (rest.len() == 0 || is_exponent(rest))
    } else {
        a >= 1 && (r.len() == 0 || is_exponent(r))
    }
}

/// The texts `str::parse::<f64>` accepts, by the grammar in its
/// documentation: an optional sign, then `inf`, `infinity`, `nan` (in any
/// case) or a decimal number.
pub open spec fn f64_text(s: Seq<char>) -> bool {
    let b = unsigned_part(s);
    equals_ignoring_case(b, "inf"@) || equals_ignoring_case(b, "infinity"@)
        || equals_ignoring_case(b, "nan"@) || is_decimal_number(b)
}

/// Counting the leading digits from position `i` on.
proof fn lemma_leading_digits_step(s: Seq<char>, i: int)
    requires
        0 <= i < s.len(),
        is_digit(s[i]),
    ensures
        leading_digits(s.skip(i)) == 1 + leading_digits(s.skip(i + 1)),
{
    assert(s.skip(i).drop_first() =~= s.skip(i + 1));
}

/// How many digits `s` has from position `start` on.
fn count_digits(s: &Vec<char>, start: usize) -> (r: usize)
    requires
        start <= s@.len(),
    ensures
        start <= r <= s@.len(),
        r - start == leading_digits(s@.skip(start as int)),
{
    let mut i = start;
    while i < s.len() && '0' <= s[i] && s[i] <= '9'
        invariant
            start <= i <= s@.len(),
            leading_digits(s@.skip(start as int)) == (i - start) + leading_digits(s@.skip(i as int)),
        decreases s@.len() - i,
    {
        proof {
            lemma_leading_digits_step(s@, i as int);
        }
        i = i + 1;
    }
    proof {
        if i < s@.len() {
            assert(s@.skip(i as int)[0] == s@[i as int]);
        }
    }
    i
}

/// Whether `s[start..]` is an exponent.
fn exponent_at(s: &Vec<char>, start: usize) -> (r: bool)
    requires
        start <= s@.len(),
    ensures
        r == is_exponent(s@.skip(start as int)),
{
    let ghost t = s@.skip(start as int);
    if start == s.len() || (s[start] != 'e' && s[start] != 'E') {
        return false;
    }
    let mut j = start + 1;
    if j < s.len() && (s[j] == '+' || s[j] == '-') {
        j = j + 1;
    }
    proof {
        assert(unsigned_part(t.drop_first()) =~= s@.skip(j as int));
    }
    if j == s.len() {
        return false;
    }
    let e = count_digits(s, j);
    proof {
        let u = s@.skip(j as int);
        if e == s@.len() {
            assert forall|x: int| 0 <= x < u.len() implies is_digit(#[trigger] u[x]) by {
                lemma_leading_digits_all(u, x);
            }
        } else {
            lemma_leading_digits_stop(u);
            assert(u[e - j] == s@[e as int]);
        }
    }
    e == s.len()
}

/// The first `leading_digits(s)` characters are digits.
proof fn lemma_leading_digits_all(s: Seq<char>, x: int)
    requires
        0 <= x < leading_digits(s),
    ensures
        is_digit(s[x]),
    decreases s.len(),
{
    lemma_leading_digits_stop(s);
    if x > 0 {
        lemma_leading_digits_all(s.drop_first(), x - 1);
        assert(s.drop_first()[x - 1] == s[x]);
    }
}

/// The character after the leading digits is no digit.
proof fn lemma_leading_digits_stop(s: Seq<char>)
    ensures
        leading_digits(s) <= s.len(),
        leading_digits(s) < s.len() ==> !is_digit(s[leading_digits(s) as int]),
    decreases s.len(),
{
    if s.len() > 0 && is_digit(s[0]) {
        lemma_leading_digits_stop(s.drop_first());
    }
}

/// Whether `s` equals the lowercase ASCII word `w`, ignoring case.
fn matches_word(s: &Vec<char>, start: usize, w: &Vec<char>) -> (r: bool)
    requires
        start <= s@.len(),
    ensures
        r == equals_ignoring_case(s@.skip(start as int), w@),
{
    let ghost t = s@.skip(start as int);
    if s.len() - start != w.len() {
        return false;
    }
    let mut i: usize = 0;
    while i < w.len()
        invariant
            t == s@.skip(start as int),
            t.len() == w@.len(),
            start + w@.len() == s@.len(),
            s@.len() <= usize::MAX,
            i <= w@.len(),
            forall|x: int| 0 <= x < i ==> (t[x] as u32) == (w@[x] as u32) || (t[x] as u32) + 32 == (w@[x] as u32),
        decreases w@.len() - i,
    {
        let c = s[start + i] as u32 as u64;
        let d = w[i] as u32 as u64;
        assert(t[i as int] == s@[start + i]);
        if !(c == d || c + 32 == d) {
            return false;
        }
        i = i + 1;
    }
    true
}

/// Whether `str::parse::<f64>` accepts `s`.
pub fn parses_as_f64(s: &Vec<char>) -> (r: bool)
    ensures
        r == f64_text(s@),
{
    let start: usize = if s.len() > 0 && (s[0] == '+' || s[0] == '-') { 1 } else { 0 };
    let ghost b = unsigned_part(s@);
    proof {
        assert(b =~= s@.skip(start as int));
    }
    let inf = chars_of("inf");
    let infinity = chars_of("infinity");
    let nan = chars_of("nan");
    if matches_word(s, start, &inf) || matches_word(s, start, &infinity) || matches_word(s, start, &nan) {
        return true;
    }
    let a = count_digits(s, start);
    proof {
        assert(b.skip(a - start) =~= s@.skip(a as int));
    }
    if a < s.len() && s[a] == '.' {
        let c = count_digits(s, a + 1);
        proof {
            assert(s@.skip(a as int).drop_first() =~= s@.skip(a + 1));
            assert(s@.skip(a + 1).skip(c - a - 1) =~= s@.skip(c as int));
        }
        (a - start) + (c - a - 1) >= 1 && (c == s.len() || exponent_at(s, c))
    } else {
        proof {
            if a < s@.len() {
                assert(s@.skip(a as int)[0] == s@[a as int]);
            }
        }
        a - start >= 1 && (a == s.len() || exponent_at(s, a))
    }
}

// ─── Judging a value ─────────────────────────────────────────────────────────

/// A flag's value, as the JSON type it is written as.
pub enum JsonScalar {
    /// `true` or `false`, in any case.
    Bool(bool),
    /// An integer in the range of `i64`.
    Integer(i64),
    /// Text that parses as an `f64`; written as a JSON number when the
    /// number is finite, else as a string.
    Decimal(String),
    /// Anything else, written as a JSON string.
    Text(String),
}

/// What a `JsonScalar` holds, as plain values.
pub enum ScalarView {
    Bool(bool),
    Integer(int),
    Decimal(Seq<char>),
    Text(Seq<char>),
}

impl View for JsonScalar {
    type V = ScalarView;

    open spec fn view(&self) -> ScalarView {
        match self {
            JsonScalar::Bool(b) => ScalarView::Bool(*b),
            JsonScalar::Integer(v) => ScalarView::Integer(*v as int),
            JsonScalar::Decimal(t) => ScalarView::Decimal(t@),
            JsonScalar::Text(t) => ScalarView::Text(t@),
        }
    }
}

/// The JSON type of text `s` whose lowercase form is `lowered`: `true` or
/// `false` when lowered, then an `i64`, then `f64` syntax, else a string.
pub open spec fn scalar_of(s: Seq<char>, lowered: Seq<char>) -> ScalarView {
    if lowered == "true"@ {
        ScalarView::Bool(true)
    } else if lowered == "false"@ {
        ScalarView::Bool(false)
    } else if i64_text(s) is Some {
        ScalarView::Integer(i64_text(s)->0)
    } else if f64_text(s) {
        ScalarView::Decimal(s)
    } else {
        ScalarView::Text(s)
    }
}

/// The JSON type of `s`, given its lowercase form.
pub fn classify_lowered(s: &str, lowered: &str) -> (r: JsonScalar)
    ensures
        r@ == scalar_of(s@, lowered@),
{
    let lc = chars_of(lowered);
    let t = chars_of("true");
    let f = chars_of("false");
    if same_chars(&lc, &t) {
        return JsonScalar::Bool(true);
    }
    if same_chars(&lc, &f) {
        return JsonScalar::Bool(false);
    }
    let cs = chars_of(s);
    match parse_i64(&cs) {
        Some(v) => JsonScalar::Integer(v),
        None => {
            if parses_as_f64(&cs) {
                JsonScalar::Decimal(s.to_owned())
            } else {
                JsonScalar::Text(s.to_owned())
            }
        },
    }
}

/// The JSON type a value is written as.
pub fn classify_value(s: &str) -> (r: JsonScalar)
    ensures
        r@ == scalar_of(s@, lower_text(s@)),
{
    let lowered = to_lowercase(s);
    classify_lowered(s, lowered.as_str())
}

/// The type hint shown for text `s` whose lowercase form is `lowered`.
pub open spec fn type_label_of(s: Seq<char>, lowered: Seq<char>) -> Seq<char> {
    if s.len() == 0 {
        "string (empty)"@
    } else if lowered == "true"@ || lowered == "false"@ {
        "boolean"@
    } else if i64_text(s) is Some {
        "integer"@
    } else if f64_text(s) {
        "float"@
    } else {
        "string"@
    }
}

/// The type hint for `s`, given its lowercase form.
pub fn type_label(s: &str, lowered: &str) -> (r: &'static str)
    ensures
        r@ == type_label_of(s@, lowered@),
{
    if s.is_empty() {
        return "string (empty)";
    }
    let lc = chars_of(lowered);
    let t = chars_of("true");
    let f = chars_of("false");
    if same_chars(&lc, &t) || same_chars(&lc, &f) {
        return "boolean";
    }
    let cs = chars_of(s);
    if parse_i64(&cs).is_some() {
        return "integer";
    }
    if parses_as_f64(&cs) {
        return "float";
    }
    "string"
}

/// The type hint shown beside a value being typed: the JSON type it will
/// be written as.
pub fn infer_type_label(s: &str) -> (r: &'static str)
    ensures
        r@ == type_label_of(s@, lower_text(s@)),
{
    let lowered = to_lowercase(s);
    type_label(s, lowered.as_str())
}

} // verus!
