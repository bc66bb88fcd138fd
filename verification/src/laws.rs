//! What holds of the library's operations across calls and inputs.
use vstd::prelude::*;

use crate::detect::chosen_version;
use crate::detect::VersionDirView;
use crate::editor::{ticked, StatusView};
use crate::flags::{
    cleaned, flag_of, has_key, insert_sorted, lemma_insert_sorted, lemma_key_position,
    lemma_listing, lemma_lower_bound, lemma_sorted_distinct, lemma_with_flag_sorted,
    lemma_without_flag_sorted, listing, lower_bound, member_flag, sorted_by_key, with_flag,
    without_flag, FlagView,
};
use crate::json::{keys_distinct, value_text, ValueView};
use crate::query::flag_matches;
use crate::text::{
    ascii_uppered, contains_text, is_ascii_text, lemma_ascii_lowered_contains, lemma_ascii_uppered,
    lemma_contains_transitive, lower_text, decimal_digits, decimal_text, ascii_lowered,
};
use crate::text::{lemma_key_lt_asymmetric, lemma_key_lt_irreflexive};
use crate::value_type::{
    all_digits, digit_value, digits_value, equals_ignoring_case, f64_text, i64_text, is_decimal_number, is_digit,
    leading_digits, scalar_of, type_label_of, unsigned_part, ScalarView,
};

verus! {

// ─── Looking a key up ────────────────────────────────────────────────────────

/// In a sorted list, the flag under `k` is the one at its position.
proof fn lemma_flag_of_at(s: Seq<FlagView>, k: Seq<char>, i: int)
    requires
        sorted_by_key(s),
        0 <= i < s.len(),
        s[i].key == k,
    ensures
        flag_of(s, k) == Some(s[i]),
{
    assert forall|j: int| 0 <= j < i implies s[j].key != k by {
        lemma_sorted_distinct(s, j, i);
    }
    assert(has_key(s, k));
    let c = choose|c: int| 0 <= c < s.len() && s[c].key == k && forall|j: int| 0 <= j < c ==> s[j].key != k;
    if c != i {
        lemma_sorted_distinct(s, c, i);
    }
}

/// Where `with_flag` leaves the flag under `k`, and what it holds.
proof fn lemma_with_flag_at(s: Seq<FlagView>, k: Seq<char>, v: Seq<char>)
    requires
        sorted_by_key(s),
    ensures
        ({
            let p = lower_bound(s, k) as int;
            let r = with_flag(s, k, v);
            &&& 0 <= p < r.len()
            &&& r[p].key == k
            &&& r[p].value == v
            &&& !(p < s.len() && s[p].key == k && s[p].value == v) ==> r[p].dirty
            &&& (p < s.len() && s[p].key == k) ==> r.len() == s.len() && forall|j: int| 0 <= j < s.len() && j != p ==> r[j] == s[j]
            &&& !(p < s.len() && s[p].key == k) ==> r == s.insert(p, FlagView { key: k, value: v, dirty: true }) && !has_key(s, k)
        }),
{
    let p = lower_bound(s, k) as int;
    lemma_lower_bound(s, k);
    if !(p < s.len() && s[p].key == k) {
        assert(!has_key(s, k)) by {
            if has_key(s, k) {
                let i = choose|i: int| 0 <= i < s.len() && s[i].key == k;
                lemma_key_position(s, k, i);
            }
        }
        s.insert_ensures(p, FlagView { key: k, value: v, dirty: true });
    }
}

/// Reading after writing: after `k` is set to `v`, the flag under `k`
/// holds `v`.
pub proof fn law_set_then_get(s: Seq<FlagView>, k: Seq<char>, v: Seq<char>)
    requires
        sorted_by_key(s),
    ensures
        flag_of(with_flag(s, k, v), k) matches Some(f) && f.value == v,
{
    lemma_with_flag_sorted(s, k, v);
    lemma_with_flag_at(s, k, v);
    lemma_flag_of_at(with_flag(s, k, v), k, lower_bound(s, k) as int);
}

/// `with_flag` where `k` is present: the other flags stay at their places.
proof fn lemma_keeps_others_found(s: Seq<FlagView>, k: Seq<char>, v: Seq<char>, k2: Seq<char>)
    requires
        sorted_by_key(s),
        k2 != k,
        lower_bound(s, k) < s.len(),
        s[lower_bound(s, k) as int].key == k,
    ensures
        flag_of(with_flag(s, k, v), k2) == flag_of(s, k2),
{
    let r = with_flag(s, k, v);
    let p = lower_bound(s, k) as int;
    lemma_with_flag_sorted(s, k, v);
    lemma_with_flag_at(s, k, v);
    if has_key(s, k2) {
        let i = choose|i: int| 0 <= i < s.len() && s[i].key == k2;
        assert(i != p);
        assert(r[i] == s[i]);
        lemma_flag_of_at(s, k2, i);
        lemma_flag_of_at(r, k2, i);
    } else {
        assert(!has_key(r, k2)) by {
            if has_key(r, k2) {
                let i = choose|i: int| 0 <= i < r.len() && r[i].key == k2;
                assert(i != p);
                assert(r[i] == s[i]);
            }
        }
    }
}

/// `with_flag` where `k` is absent: the flags from its place on move up
/// by one.
proof fn lemma_keeps_others_absent(s: Seq<FlagView>, k: Seq<char>, v: Seq<char>, k2: Seq<char>)
    requires
        sorted_by_key(s),
        k2 != k,
        !(lower_bound(s, k) < s.len() && s[lower_bound(s, k) as int].key == k),
    ensures
        flag_of(with_flag(s, k, v), k2) == flag_of(s, k2),
{
    let r = with_flag(s, k, v);
    let p = lower_bound(s, k) as int;
    let f = FlagView { key: k, value: v, dirty: true };
    lemma_with_flag_sorted(s, k, v);
    lemma_with_flag_at(s, k, v);
    lemma_lower_bound(s, k);
    s.insert_ensures(p, f);
    if has_key(s, k2) {
        let i = choose|i: int| 0 <= i < s.len() && s[i].key == k2;
        lemma_flag_of_at(s, k2, i);
        if i < p {
            lemma_flag_of_at(r, k2, i);
        } else {
            assert(r[i + 1] == s[i]);
            lemma_flag_of_at(r, k2, i + 1);
        }
    } else {
        assert(!has_key(r, k2)) by {
            if has_key(r, k2) {
                let i = choose|i: int| 0 <= i < r.len() && r[i].key == k2;
                if i < p {
                    assert(r[i] == s[i]);
                } else if i > p {
                    assert(r[i] == s[i - 1]);
                }
            }
        }
    }
}

/// Setting a key leaves the flags under every other key as they were.
pub proof fn law_set_keeps_others(s: Seq<FlagView>, k: Seq<char>, v: Seq<char>, k2: Seq<char>)
    requires
        sorted_by_key(s),
        k2 != k,
    ensures
        flag_of(with_flag(s, k, v), k2) == flag_of(s, k2),
{
    let p = lower_bound(s, k) as int;
    if p < s.len() && s[p].key == k {
        lemma_keeps_others_found(s, k, v, k2);
    } else {
        lemma_keeps_others_absent(s, k, v, k2);
    }
}

/// Setting a key to the value it already holds changes nothing: no flag
/// is marked dirty.
pub proof fn law_set_same_value_is_noop(s: Seq<FlagView>, k: Seq<char>, v: Seq<char>)
    requires
        sorted_by_key(s),
        flag_of(s, k) matches Some(f) && f.value == v,
    ensures
        with_flag(s, k, v) == s,
{
    let i = choose|i: int| 0 <= i < s.len() && s[i].key == k;
    lemma_flag_of_at(s, k, i);
    lemma_key_position(s, k, i);
}

/// Setting a key to a value it does not hold marks its flag dirty.
pub proof fn law_set_new_value_is_dirty(s: Seq<FlagView>, k: Seq<char>, v: Seq<char>)
    requires
        sorted_by_key(s),
        !(flag_of(s, k) matches Some(f) && f.value == v),
    ensures
        flag_of(with_flag(s, k, v), k) matches Some(f) && f.dirty,
{
    let p = lower_bound(s, k) as int;
    lemma_with_flag_sorted(s, k, v);
    lemma_with_flag_at(s, k, v);
    if p < s.len() && s[p].key == k {
        lemma_flag_of_at(s, k, p);
    }
    lemma_flag_of_at(with_flag(s, k, v), k, p);
}

/// Setting the same key to the same value twice is setting it once.
pub proof fn law_set_idempotent(s: Seq<FlagView>, k: Seq<char>, v: Seq<char>)
    requires
        sorted_by_key(s),
    ensures
        with_flag(with_flag(s, k, v), k, v) == with_flag(s, k, v),
{
    law_set_then_get(s, k, v);
    lemma_with_flag_sorted(s, k, v);
    law_set_same_value_is_noop(with_flag(s, k, v), k, v);
}

/// After a key is removed, no flag has it.
pub proof fn law_remove_then_absent(s: Seq<FlagView>, k: Seq<char>)
    ensures
        !has_key(without_flag(s, k), k),
        flag_of(without_flag(s, k), k) is None,
{
    let r = without_flag(s, k);
    if has_key(r, k) {
        let i = choose|i: int| 0 <= i < r.len() && r[i].key == k;
        s.lemma_filter_pred(|f: FlagView| f.key != k, i);
    }
}

/// Removing the flag at `p`, whose key is `k`, leaves the flags under
/// every other key as they were.
proof fn lemma_remove_at_keeps_others(s: Seq<FlagView>, p: int, k2: Seq<char>)
    requires
        sorted_by_key(s),
        0 <= p < s.len(),
        s[p].key != k2,
        sorted_by_key(s.remove(p)),
    ensures
        flag_of(s.remove(p), k2) == flag_of(s, k2),
{
    let r = s.remove(p);
    s.remove_ensures(p);
    if has_key(s, k2) {
        let i = choose|i: int| 0 <= i < s.len() && s[i].key == k2;
        lemma_flag_of_at(s, k2, i);
        if i < p {
            lemma_flag_of_at(r, k2, i);
        } else {
            assert(i != p);
            assert(r[i - 1] == s[i]);
            lemma_flag_of_at(r, k2, i - 1);
        }
    } else {
        assert(!has_key(r, k2)) by {
            if has_key(r, k2) {
                let i = choose|i: int| 0 <= i < r.len() && r[i].key == k2;
                if i < p {
                    assert(r[i] == s[i]);
                } else {
                    assert(r[i] == s[i + 1]);
                }
            }
        }
    }
}

/// Removing a key leaves the flags under every other key as they were.
pub proof fn law_remove_keeps_others(s: Seq<FlagView>, k: Seq<char>, k2: Seq<char>)
    requires
        sorted_by_key(s),
        k2 != k,
    ensures
        flag_of(without_flag(s, k), k2) == flag_of(s, k2),
{
    let p = lower_bound(s, k) as int;
    lemma_lower_bound(s, k);
    lemma_without_flag_sorted(s, k);
    if p < s.len() && s[p].key == k {
        lemma_remove_at_keeps_others(s, p, k2);
    }
}

/// Removing a key that was just added, where it was absent, gives back
/// the list as it was.
pub proof fn law_remove_undoes_add(s: Seq<FlagView>, k: Seq<char>, v: Seq<char>)
    requires
        sorted_by_key(s),
        !has_key(s, k),
    ensures
        without_flag(with_flag(s, k, v), k) == s,
{
    let p = lower_bound(s, k) as int;
    let r = with_flag(s, k, v);
    lemma_with_flag_sorted(s, k, v);
    lemma_with_flag_at(s, k, v);
    assert(!(p < s.len() && s[p].key == k));
    lemma_key_position(r, k, p);
    lemma_without_flag_sorted(r, k);
    lemma_lower_bound(s, k);
    s.insert_ensures(p, FlagView { key: k, value: v, dirty: true });
    r.remove_ensures(p);
    assert(r.remove(p) =~= s);
}

// ─── Order ───────────────────────────────────────────────────────────────────

/// Two sorted lists that hold the same flags are the same list: the
/// store's order is fixed by what it holds.
pub proof fn law_sorted_list_is_determined(s1: Seq<FlagView>, s2: Seq<FlagView>)
    requires
        sorted_by_key(s1),
        sorted_by_key(s2),
        forall|x: FlagView| s1.contains(x) <==> s2.contains(x),
    ensures
        s1 == s2,
    decreases s1.len(),
{
    if s1.len() == 0 {
        if s2.len() > 0 {
            assert(s2.contains(s2[0]));
        }
        assert(s1 =~= s2);
    } else {
        assert(s1.contains(s1[0]));
        assert(s2.len() > 0);
        assert(s2.contains(s2[0]));
        let j = choose|j: int| 0 <= j < s2.len() && s2[j] == s1[0];
        let i = choose|i: int| 0 <= i < s1.len() && s1[i] == s2[0];
        if j > 0 && i > 0 {
            lemma_key_lt_asymmetric(s1[0].key, s1[i].key);
        } else if j > 0 {
            lemma_key_lt_irreflexive(s2[0].key);
        } else if i > 0 {
            lemma_key_lt_irreflexive(s1[0].key);
        }
        assert(s1[0] == s2[0]);
        let t1 = s1.drop_first();
        let t2 = s2.drop_first();
        assert forall|x: FlagView| t1.contains(x) <==> t2.contains(x) by {
            if t1.contains(x) {
                let a = choose|a: int| 0 <= a < t1.len() && t1[a] == x;
                assert(s1[a + 1] == x);
                assert(s2.contains(x));
                let b = choose|b: int| 0 <= b < s2.len() && s2[b] == x;
                if b == 0 {
                    lemma_sorted_distinct(s1, 0, a + 1);
                }
                assert(t2[b - 1] == x);
            }
            if t2.contains(x) {
                let a = choose|a: int| 0 <= a < t2.len() && t2[a] == x;
                assert(s2[a + 1] == x);
                assert(s1.contains(x));
                let b = choose|b: int| 0 <= b < s1.len() && s1[b] == x;
                if b == 0 {
                    lemma_sorted_distinct(s2, 0, a + 1);
                }
                assert(t1[b - 1] == x);
            }
        }
        law_sorted_list_is_determined(t1, t2);
        assert(s1 =~= seq![s1[0]] + t1);
        assert(s2 =~= seq![s2[0]] + t2);
    }
}

// ─── Loading and saving ──────────────────────────────────────────────────────

/// Loading a document gives one flag per member, sorted by key, each clean
/// and holding its member's text.
pub proof fn law_loaded_flags(ms: Seq<(Seq<char>, ValueView)>)
    requires
        keys_distinct(ms),
    ensures
        sorted_by_key(listing(ms)),
        listing(ms).len() == ms.len(),
        forall|j: int| 0 <= j < ms.len() ==> #[trigger] flag_of(listing(ms), ms[j].0) == Some(member_flag(ms[j])),
        forall|i: int| 0 <= i < listing(ms).len() ==> !(#[trigger] listing(ms)[i]).dirty,
{
    lemma_listing(ms);
    assert forall|j: int| 0 <= j < ms.len() implies #[trigger] flag_of(listing(ms), ms[j].0) == Some(member_flag(ms[j])) by {
        assert(listing(ms).contains(member_flag(ms[j])));
        let i = choose|i: int| 0 <= i < listing(ms).len() && listing(ms)[i] == member_flag(ms[j]);
        lemma_flag_of_at(listing(ms), ms[j].0, i);
    }
    assert forall|i: int| 0 <= i < listing(ms).len() implies !(#[trigger] listing(ms)[i]).dirty by {
        assert(listing(ms).contains(listing(ms)[i]));
    }
}

/// A successful save leaves every flag clean, with the same keys and
/// values in the same order, and the list sorted.
pub proof fn law_saved_flags_are_clean(s: Seq<FlagView>)
    requires
        sorted_by_key(s),
    ensures
        sorted_by_key(cleaned(s)),
        cleaned(s).len() == s.len(),
        forall|i: int| 0 <= i < s.len() ==> (#[trigger] cleaned(s)[i]).key == s[i].key
            && cleaned(s)[i].value == s[i].value && !cleaned(s)[i].dirty,
{
}

// ─── Version folder and type hints ───────────────────────────────────────────

/// At most one entry is the chosen version folder.
pub proof fn law_version_choice_unique(ds: Seq<VersionDirView>, i: int, j: int)
    requires
        chosen_version(ds, i),
        chosen_version(ds, j),
    ensures
        i == j,
{
}

/// The type hint shown while a value is typed names the kind the value is
/// classed as when saved: `boolean`, `integer`, `float` (text in `f64`
/// syntax, written as a JSON number when finite and as a string when it is
/// not, such as `inf`, `NaN` or `1e999`) or `string`.
pub proof fn law_type_hint_matches_value_type(s: Seq<char>, lowered: Seq<char>)
    requires
        s.len() > 0,
    ensures
        type_label_of(s, lowered) == "boolean"@ <==> scalar_of(s, lowered) is Bool,
        type_label_of(s, lowered) == "integer"@ <==> scalar_of(s, lowered) is Integer,
        type_label_of(s, lowered) == "float"@ <==> scalar_of(s, lowered) is Decimal,
        type_label_of(s, lowered) == "string"@ <==> scalar_of(s, lowered) is Text,
{
    reveal_strlit("boolean");
    reveal_strlit("integer");
    reveal_strlit("float");
    reveal_strlit("string");
    assert("boolean"@[0] == 'b' && "integer"@[0] == 'i' && "float"@[0] == 'f' && "string"@[0] == 's');
}

/// `true` or `false`, the two words that stand for a boolean.
pub open spec fn is_boolean_word(l: Seq<char>) -> bool {
    l == "true"@ || l == "false"@
}

/// A text that `str::parse::<i64>` accepts is ASCII, and its lowercase
/// form is no boolean word: it starts with a sign or a digit.
proof fn lemma_integer_text_is_no_word(s: Seq<char>)
    requires
        i64_text(s) is Some,
    ensures
        is_ascii_text(s),
        !is_boolean_word(lower_text(s)),
{
    let b = unsigned_part(s);
    assert(all_digits(b) && b.len() > 0);
    assert forall|i: int| 0 <= i < s.len() implies (s[i] as u32) < 128 by {
        if s.len() > 0 && (s[0] == '+' || s[0] == '-') {
            if i > 0 {
                assert(s[i] == b[i - 1]);
                assert(is_digit(b[i - 1]));
            }
        } else {
            assert(s[i] == b[i]);
            assert(is_digit(b[i]));
        }
    }
    assert(s[0] == '+' || s[0] == '-' || is_digit(s[0])) by {
        if !(s[0] == '+' || s[0] == '-') {
            assert(is_digit(b[0]));
        }
    }
    reveal_strlit("true");
    reveal_strlit("false");
    assert(lower_text(s)[0] == s[0]);
}

/// Only the words `true` and `false`, in any case, are written as booleans,
/// `true` as `true` and `false` as `false`; they, and nothing else, get the
/// hint `boolean`.
pub proof fn law_only_true_and_false_are_booleans(s: Seq<char>)
    ensures
        (scalar_of(s, lower_text(s)) is Bool) <==> is_boolean_word(lower_text(s)),
        scalar_of(s, lower_text(s)) matches ScalarView::Bool(b) ==> (b <==> lower_text(s) == "true"@),
        (type_label_of(s, lower_text(s)) == "boolean"@) <==> is_boolean_word(lower_text(s)),
{
    reveal_strlit("boolean");
    reveal_strlit("string (empty)");
    reveal_strlit("integer");
    reveal_strlit("float");
    reveal_strlit("string");
    reveal_strlit("true");
    reveal_strlit("false");
    assert("boolean"@[0] == 'b' && "integer"@[0] == 'i' && "float"@[0] == 'f' && "string"@[0] == 's'
        && "string (empty)"@[0] == 's');
    if s.len() == 0 {
        assert(lower_text(s) =~= Seq::<char>::empty());
    }
}

/// A text that `str::parse::<i64>` accepts, such as `0`, `42` or `-7`, is
/// written as that integer and gets the hint `integer`.
pub proof fn law_integer_texts_are_integers(s: Seq<char>)
    requires
        i64_text(s) is Some,
    ensures
        scalar_of(s, lower_text(s)) == ScalarView::Integer(i64_text(s)->0),
        type_label_of(s, lower_text(s)) == "integer"@,
{
    lemma_integer_text_is_no_word(s);
    assert(unsigned_part(s).len() > 0);
}

/// A text that `str::parse::<f64>` accepts and that is neither an integer
/// nor a boolean word, such as `1.5`, `-0.5`, `1e3` or `inf`, is written as
/// a decimal holding that very text and gets the hint `float`.
pub proof fn law_float_texts_are_decimals(s: Seq<char>)
    requires
        f64_text(s),
        i64_text(s) is None,
        !is_boolean_word(lower_text(s)),
    ensures
        scalar_of(s, lower_text(s)) == ScalarView::Decimal(s),
        s.len() > 0 ==> type_label_of(s, lower_text(s)) == "float"@,
{
}

/// Any other text is written as a string holding that very text, and gets
/// the hint `string`, or `string (empty)` when it is empty. Whatever its
/// lowercase form, a value written as text or as a decimal keeps the text
/// it was typed as.
pub proof fn law_other_texts_are_strings(s: Seq<char>, l: Seq<char>)
    ensures
        !f64_text(s) && i64_text(s) is None && !is_boolean_word(lower_text(s)) ==> scalar_of(
            s,
            lower_text(s),
        ) == ScalarView::Text(s) && type_label_of(s, lower_text(s)) == (if s.len() == 0 {
            "string (empty)"@
        } else {
            "string"@
        }),
        scalar_of(s, l) matches ScalarView::Text(t) ==> t == s,
        scalar_of(s, l) matches ScalarView::Decimal(t) ==> t == s,
{
}

// ─── Number syntax ───────────────────────────────────────────────────────────

/// The digit written for `d` is a digit that stands for `d`.
proof fn lemma_digit_char(d: int)
    requires
        0 <= d < 10,
    ensures
        is_digit(decimal_digits()[d]),
        digit_value(decimal_digits()[d]) == d,
{
    if d == 0 {
    } else if d == 1 {
    } else if d == 2 {
    } else if d == 3 {
    } else if d == 4 {
    } else if d == 5 {
    } else if d == 6 {
    } else if d == 7 {
    } else if d == 8 {
    } else {
    }
}

/// A number written in decimal is a non-empty run of digits standing for it.
proof fn lemma_decimal_text_value(n: nat)
    ensures
        decimal_text(n).len() > 0,
        all_digits(decimal_text(n)),
        digits_value(decimal_text(n)) == n,
    decreases n,
{
    if n < 10 {
        lemma_digit_char(n as int);
        let t = decimal_text(n);
        assert(t.drop_last() =~= Seq::<char>::empty());
        assert(t.last() == decimal_digits()[n as int]);
        assert(digits_value(t.drop_last()) == 0);
        assert(digits_value(t) == digits_value(t.drop_last()) * 10 + digit_value(t.last()));
    } else {
        lemma_decimal_text_value(n / 10);
        lemma_digit_char((n % 10) as int);
        let t = decimal_text(n);
        assert(t.drop_last() =~= decimal_text(n / 10));
        assert(t.last() == decimal_digits()[(n % 10) as int]);
        assert((n / 10) * 10 + n % 10 == n) by (nonlinear_arith);
        assert(digits_value(t) == digits_value(t.drop_last()) * 10 + digit_value(t.last()));
        assert(all_digits(t)) by {
            assert forall|i: int| 0 <= i < t.len() implies is_digit(#[trigger] t[i]) by {
                if i < t.len() - 1 {
                    assert(t[i] == decimal_text(n / 10)[i]);
                }
            }
        }
    }
}

/// A number written in decimal reads back as itself through
/// `str::parse::<i64>`, and so does its negation written with a `-`.
pub proof fn law_decimal_reads_back(n: nat)
    ensures
        n <= i64::MAX ==> i64_text(decimal_text(n)) == Some(n as int),
        n <= i64::MAX + 1 ==> i64_text(seq!['-'] + decimal_text(n)) == Some(-n),
{
    lemma_decimal_text_value(n);
    let t = decimal_text(n);
    assert(is_digit(t[0]));
    assert(unsigned_part(t) == t);
    assert(unsigned_part(seq!['-'] + t) =~= t);
}

/// A run of digits counts whole toward the leading digits of what it
/// starts.
proof fn lemma_leading_digits_append(x: Seq<char>, y: Seq<char>)
    requires
        all_digits(x),
    ensures
        leading_digits(x + y) == x.len() + leading_digits(y),
    decreases x.len(),
{
    if x.len() > 0 {
        assert((x + y).drop_first() =~= x.drop_first() + y);
        lemma_leading_digits_append(x.drop_first(), y);
    } else {
        assert(x + y =~= y);
    }
}

/// Every text that `str::parse::<i64>` accepts, `str::parse::<f64>`
/// accepts too; so does every decimal number with digits before or after
/// its point, under an optional sign, such as `1.5`, `-0.5`, `.5` or `2.`.
pub proof fn law_number_texts_are_float_texts(s: Seq<char>, sign: Seq<char>, d1: Seq<char>, d2: Seq<char>)
    ensures
        i64_text(s) is Some ==> f64_text(s),
        all_digits(d1) && all_digits(d2) && d1.len() + d2.len() >= 1 && (sign.len() == 0 || sign
            =~= seq!['-'] || sign =~= seq!['+']) ==> f64_text(sign + d1 + seq!['.'] + d2),
{
    if i64_text(s) is Some {
        let b = unsigned_part(s);
        lemma_leading_digits_append(b, Seq::empty());
        assert(b + Seq::<char>::empty() =~= b);
        assert(b.skip(b.len() as int) =~= Seq::<char>::empty());
        assert(is_decimal_number(b));
    }
    if all_digits(d1) && all_digits(d2) && d1.len() + d2.len() >= 1 && (sign.len() == 0 || sign
        =~= seq!['-'] || sign =~= seq!['+']) {
        let b = d1 + seq!['.'] + d2;
        let t = sign + b;
        assert(sign + d1 + seq!['.'] + d2 =~= t);
        if sign.len() == 0 {
            assert(t =~= b);
            if d1.len() > 0 {
                assert(is_digit(d1[0]));
                assert(b[0] == d1[0]);
            } else {
                assert(b[0] == '.');
            }
        } else {
            assert(t.drop_first() =~= b);
        }
        assert(unsigned_part(t) =~= b);
        lemma_leading_digits_append(d1, seq!['.'] + d2);
        assert(d1 + (seq!['.'] + d2) =~= b);
        let r = b.skip(d1.len() as int);
        assert(r =~= seq!['.'] + d2);
        assert(leading_digits(seq!['.'] + d2) == 0);
        assert(r.drop_first() =~= d2);
        lemma_leading_digits_append(d2, Seq::empty());
        assert(d2 + Seq::<char>::empty() =~= d2);
        assert(d2.skip(d2.len() as int) =~= Seq::<char>::empty());
        assert(is_decimal_number(b));
    }
}

/// A text whose ASCII letters made small spell the lowercase word `w` equals
/// `w` ignoring case.
proof fn lemma_word_ignoring_case(x: Seq<char>, w: Seq<char>)
    requires
        ascii_lowered(x) == w,
        forall|i: int| 0 <= i < w.len() ==> 'a' <= #[trigger] w[i] && w[i] <= 'z',
    ensures
        equals_ignoring_case(x, w),
{
    assert forall|i: int| 0 <= i < x.len() implies (x[i] as u32) == (w[i] as u32) || (x[i] as u32) + 32
        == (w[i] as u32) by {
        assert(ascii_lowered(x)[i] == w[i]);
        assert('a' <= w[i] && w[i] <= 'z');
    }
}

/// `inf`, `infinity` and `nan`, in any case and under an optional sign, are
/// texts that `str::parse::<f64>` accepts.
pub proof fn law_float_words_are_float_texts(sign: Seq<char>, x: Seq<char>)
    ensures
        (sign.len() == 0 || sign =~= seq!['-'] || sign =~= seq!['+']) && (ascii_lowered(x) == "inf"@
            || ascii_lowered(x) == "infinity"@ || ascii_lowered(x) == "nan"@) ==> f64_text(sign + x),
{
    reveal_strlit("inf");
    reveal_strlit("infinity");
    reveal_strlit("nan");
    if (sign.len() == 0 || sign =~= seq!['-'] || sign =~= seq!['+']) && (ascii_lowered(x) == "inf"@
        || ascii_lowered(x) == "infinity"@ || ascii_lowered(x) == "nan"@) {
        let w = ascii_lowered(x);
        lemma_word_ignoring_case(x, w);
        let t = sign + x;
        if sign.len() == 0 {
            assert(t =~= x);
            assert(w[0] == 'i' || w[0] == 'n');
            assert(ascii_lowered(x)[0] == w[0]);
            assert(x[0] != '+' && x[0] != '-');
        } else {
            assert(t.drop_first() =~= x);
        }
        assert(unsigned_part(t) =~= x);
    }
}

// ─── Loading values ──────────────────────────────────────────────────────────

/// A member of a loaded document becomes a clean flag under its key whose
/// value is the member's text: a string its own text, unchanged; `null`,
/// `true` and `false` those words; a number, array or object its JSON.
pub proof fn law_loaded_values_keep_their_text(ms: Seq<(Seq<char>, ValueView)>, j: int)
    requires
        keys_distinct(ms),
        0 <= j < ms.len(),
    ensures
        flag_of(listing(ms), ms[j].0) == Some(FlagView {
            key: ms[j].0,
            value: match ms[j].1 {
                ValueView::Text(t) => t,
                ValueView::Null => "null"@,
                ValueView::Bool(b) => if b { "true"@ } else { "false"@ },
                ValueView::Number(t) => t,
                ValueView::Array(t) => t,
                ValueView::Object(t) => t,
            },
            dirty: false,
        }),
        forall|t: Seq<char>| #[trigger] value_text(ValueView::Text(t)) == t,
{
    law_loaded_flags(ms);
    assert(flag_of(listing(ms), ms[j].0) == Some(member_flag(ms[j])));
}

// ─── Search ──────────────────────────────────────────────────────────────────

/// An empty search shows every flag.
pub proof fn law_empty_query_matches_all(f: FlagView, query: Seq<char>)
    requires
        query.len() == 0,
    ensures
        flag_matches(f, query),
{
}

/// The search ignores ASCII case: an ASCII query matches the same flags as
/// its capitalised form; a flag with an ASCII key matches the same queries
/// as the flag with that key capitalised, and likewise for an ASCII value;
/// whether a flag is edited plays no part.
pub proof fn law_query_ignores_case(f: FlagView, q: Seq<char>)
    requires
        is_ascii_text(q),
    ensures
        flag_matches(f, q) == flag_matches(f, ascii_uppered(q)),
        is_ascii_text(f.key) ==> flag_matches(f, q) == flag_matches(
            FlagView { key: ascii_uppered(f.key), ..f },
            q,
        ),
        is_ascii_text(f.value) ==> flag_matches(f, q) == flag_matches(
            FlagView { value: ascii_uppered(f.value), ..f },
            q,
        ),
        flag_matches(f, q) == flag_matches(FlagView { dirty: !f.dirty, ..f }, q),
{
    lemma_ascii_uppered(q);
    if is_ascii_text(f.key) {
        lemma_ascii_uppered(f.key);
    }
    if is_ascii_text(f.value) {
        lemma_ascii_uppered(f.value);
    }
}

/// A longer search never shows more flags: when an ASCII query occurs in
/// another ASCII query, every flag that the longer one matches, the shorter
/// one matches too.
pub proof fn law_longer_query_matches_less(f: FlagView, p: Seq<char>, q: Seq<char>)
    requires
        is_ascii_text(p),
        is_ascii_text(q),
        contains_text(q, p),
    ensures
        flag_matches(f, q) ==> flag_matches(f, p),
{
    if flag_matches(f, q) && p.len() > 0 {
        lemma_ascii_lowered_contains(q, p);
        if contains_text(lower_text(f.key), lower_text(q)) {
            lemma_contains_transitive(lower_text(f.key), lower_text(q), lower_text(p));
        } else {
            lemma_contains_transitive(lower_text(f.value), lower_text(q), lower_text(p));
        }
    }
}

// ─── Status line ─────────────────────────────────────────────────────────────

/// A status message after `n` frames.
pub open spec fn ticked_times(s: StatusView, n: nat) -> StatusView
    decreases n,
{
    if n == 0 {
        s
    } else {
        ticked(ticked_times(s, (n - 1) as nat))
    }
}

/// A message that counts down is gone after as many frames as it had
/// left, and keeps its text until then; a message with no count stays.
pub proof fn law_status_expires(s: StatusView, n: nat)
    ensures
        s.ttl > 0 && n < s.ttl ==> ticked_times(s, n).text == s.text && ticked_times(s, n).ttl == s.ttl - n,
        s.ttl > 0 ==> ticked_times(s, s.ttl).text.len() == 0 && ticked_times(s, s.ttl).ttl == 0,
        s.ttl == 0 ==> ticked_times(s, n) == s,
    decreases n,
{
    if n > 0 {
        law_status_expires(s, (n - 1) as nat);
    }
    if s.ttl > 0 {
        lemma_status_countdown(s, s.ttl);
    }
}

proof fn lemma_status_countdown(s: StatusView, n: nat)
    requires
        0 < n <= s.ttl,
    ensures
        ticked_times(s, (n - 1) as nat).text == s.text,
        ticked_times(s, (n - 1) as nat).ttl == s.ttl - (n - 1),
        n == s.ttl ==> ticked_times(s, n).text.len() == 0 && ticked_times(s, n).ttl == 0,
    decreases n,
{
    if n > 1 {
        lemma_status_countdown(s, (n - 1) as nat);
    }
    assert(ticked_times(s, n) == ticked(ticked_times(s, (n - 1) as nat)));
}

} // verus!
