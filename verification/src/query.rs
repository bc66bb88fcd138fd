//! The search filter of the flag table.
use vstd::prelude::*;

use crate::flags::{flags_view, Flag, FlagView};
use crate::text::{chars_of, contains_chars, contains_text, lower_text, to_lowercase};

verus! {

/// A flag matches a search query when the query is empty, or when the
/// lowercase query occurs in the lowercase key or the lowercase value.
pub open spec fn flag_matches(f: FlagView, query: Seq<char>) -> bool {
    query.len() == 0 || contains_text(lower_text(f.key), lower_text(query)) || contains_text(
        lower_text(f.value),
        lower_text(query),
    )
}

/// Whether the lowercase query occurs in the lowercase key or value.
pub fn hit_lowered(key_lc: &str, value_lc: &str, query_lc: &str) -> (r: bool)
    ensures
        r == (contains_text(key_lc@, query_lc@) || contains_text(value_lc@, query_lc@)),
{
    let q = chars_of(query_lc);
    let k = chars_of(key_lc);
    if contains_chars(&k, &q) {
        return true;
    }
    let v = chars_of(value_lc);
    contains_chars(&v, &q)
}

/// Whether a flag matches the search query, ignoring case.
pub fn matches_query(flag: &Flag, query: &str) -> (r: bool)
    ensures
        r == flag_matches(flag@, query@),
{
    if query.is_empty() {
        return true;
    }
    let q = to_lowercase(query);
    let k = to_lowercase(flag.key.as_str());
    let v = to_lowercase(flag.value.as_str());
    hit_lowered(k.as_str(), v.as_str(), q.as_str())
}

/// The positions of the flags that match the query, in increasing order.
pub fn matching_indices(flags: &Vec<Flag>, query: &str) -> (r: Vec<usize>)
    ensures
        forall|a: int, b: int| 0 <= a < b < r@.len() ==> r@[a] < r@[b],
        forall|a: int| 0 <= a < r@.len() ==> r@[a] < flags@.len() && flag_matches(
            flags_view(flags@)[r@[a] as int],
            query@,
        ),
        forall|i: int| 0 <= i < flags@.len() && flag_matches(flags_view(flags@)[i], query@) ==> r@.contains(i as usize),
{
    let mut r: Vec<usize> = Vec::new();
    let mut i: usize = 0;
    while i < flags.len()
        invariant
            i <= flags@.len(),
            forall|a: int, b: int| 0 <= a < b < r@.len() ==> r@[a] < r@[b],
            forall|a: int| 0 <= a < r@.len() ==> r@[a] < i && flag_matches(
                flags_view(flags@)[r@[a] as int],
                query@,
            ),
            forall|j: int| 0 <= j < i && flag_matches(flags_view(flags@)[j], query@) ==> r@.contains(j as usize),
        decreases flags@.len() - i,
    {
        if matches_query(&flags[i], query) {
            let ghost before = r@;
            r.push(i);
            proof {
                assert forall|j: int| 0 <= j < i + 1 && flag_matches(flags_view(flags@)[j], query@) implies r@.contains(j as usize) by {
                    if j < i {
                        let k = choose|k: int| 0 <= k < before.len() && before[k] == j as usize;
                        assert(r@[k] == j as usize);
                    } else {
                        assert(r@[r@.len() - 1] == i);
                    }
                }
            }
        }
        i = i + 1;
    }
    r
}

} // verus!
