//! The in-memory Fast Flag store: a list of flags kept sorted by key, with
//! no key twice.
use vstd::prelude::*;

use crate::json::{
    json_document, json_error_message, json_to_str, keys_distinct, members_view, parse_json_document,
    value_text, DocumentView, JsonDocument, ValueView,
};
use crate::value_type::{classify_value, scalar_of, JsonScalar};
use crate::text::{
    lower_text,
    chars_of, compare_chars, key_lt, lemma_key_lt_asymmetric, lemma_key_lt_irreflexive,
    lemma_key_lt_total, lemma_key_lt_transitive, same_text, KeyOrder,
};

verus! {

// ─── Data model ──────────────────────────────────────────────────────────────

/// A single Fast Flag entry.
#[derive(Debug, PartialEq, Eq)]
pub struct Flag {
    pub key: String,
    pub value: String,
    /// True when the value has been edited but not yet written to disk.
    pub dirty: bool,
}

/// What a flag holds, as plain values.
#[verifier::ext_equal]
pub struct FlagView {
    pub key: Seq<char>,
    pub value: Seq<char>,
    pub dirty: bool,
}

impl View for Flag {
    type V = FlagView;

    open spec fn view(&self) -> FlagView {
        FlagView { key: self.key@, value: self.value@, dirty: self.dirty }
    }
}

impl Clone for Flag {
    fn clone(&self) -> (r: Self)
        ensures
            r@ == self@,
    {
        Flag { key: self.key.clone(), value: self.value.clone(), dirty: self.dirty }
    }
}

/// The views of a list of flags.
pub open spec fn flags_view(v: Seq<Flag>) -> Seq<FlagView> {
    v.map_values(|f: Flag| f@)
}

// ─── The sorted list and what each operation makes of it ────────────────────

/// Keys strictly increase along the list: it is sorted by key and no key
/// occurs twice.
pub open spec fn sorted_by_key(s: Seq<FlagView>) -> bool {
    forall|i: int, j: int| 0 <= i < j < s.len() ==> key_lt(s[i].key, s[j].key)
}

/// How many flags at the front of `s` have a key before `k`: in a sorted
/// list, the position at which `k` is found or belongs.
pub open spec fn lower_bound(s: Seq<FlagView>, k: Seq<char>) -> nat
    decreases s.len(),
{
    if s.len() > 0 && key_lt(s[0].key, k) {
        1 + lower_bound(s.drop_first(), k)
    } else {
        0
    }
}

/// `s` with `f` put in the place its key belongs.
pub open spec fn insert_sorted(s: Seq<FlagView>, f: FlagView) -> Seq<FlagView> {
    s.insert(lower_bound(s, f.key) as int, f)
}

/// What setting `k` to `v` makes of the list: a flag already under `k`
/// takes the new value and is marked dirty, unless it holds that value
/// already; else a new dirty flag is put in its sorted place.
pub open spec fn with_flag(s: Seq<FlagView>, k: Seq<char>, v: Seq<char>) -> Seq<FlagView> {
    let p = lower_bound(s, k) as int;
    if p < s.len() && s[p].key == k {
        if s[p].value == v {
            s
        } else {
            s.update(p, FlagView { key: k, value: v, dirty: true })
        }
    } else {
        insert_sorted(s, FlagView { key: k, value: v, dirty: true })
    }
}

/// The flags of `s` whose key is not `k`.
pub open spec fn without_flag(s: Seq<FlagView>, k: Seq<char>) -> Seq<FlagView> {
    s.filter(|f: FlagView| f.key != k)
}

/// `s` with every dirty marker cleared.
pub open spec fn cleaned(s: Seq<FlagView>) -> Seq<FlagView> {
    s.map_values(|f: FlagView| FlagView { key: f.key, value: f.value, dirty: false })
}

/// `s` holds a flag with key `k`.
pub open spec fn has_key(s: Seq<FlagView>, k: Seq<char>) -> bool {
    exists|i: int| 0 <= i < s.len() && s[i].key == k
}

/// The flag under key `k`, if any flag has that key (the first one).
pub open spec fn flag_of(s: Seq<FlagView>, k: Seq<char>) -> Option<FlagView> {
    if has_key(s, k) {
        let i = choose|i: int| 0 <= i < s.len() && s[i].key == k && forall|j: int| 0 <= j < i ==> s[j].key != k;
        Some(s[i])
    } else {
        None
    }
}

// ─── Lemmas on the sorted list ───────────────────────────────────────────────

/// `lower_bound` is the first position whose key is not before `k`.
pub proof fn lemma_lower_bound(s: Seq<FlagView>, k: Seq<char>)
    ensures
        lower_bound(s, k) <= s.len(),
        forall|j: int| 0 <= j < lower_bound(s, k) ==> key_lt(#[trigger] s[j].key, k),
        lower_bound(s, k) < s.len() ==> !key_lt(s[lower_bound(s, k) as int].key, k),
    decreases s.len(),
{
    if s.len() > 0 && key_lt(s[0].key, k) {
        lemma_lower_bound(s.drop_first(), k);
        assert forall|j: int| 0 <= j < lower_bound(s, k) implies key_lt(#[trigger] s[j].key, k) by {
            if j > 0 {
                assert(s[j] == s.drop_first()[j - 1]);
            }
        }
    }
}

/// A position `i` with every key before it below `k`, and its own key not,
/// is `lower_bound(s, k)`.
pub proof fn lemma_lower_bound_at(s: Seq<FlagView>, k: Seq<char>, i: int)
    requires
        0 <= i <= s.len(),
        forall|j: int| 0 <= j < i ==> key_lt(#[trigger] s[j].key, k),
        i < s.len() ==> !key_lt(s[i].key, k),
    ensures
        lower_bound(s, k) == i,
    decreases i,
{
    if i > 0 {
        assert(key_lt(s[0].key, k));
        assert forall|j: int| 0 <= j < i - 1 implies key_lt(#[trigger] s.drop_first()[j].key, k) by {
            assert(s.drop_first()[j] == s[j + 1]);
        }
        lemma_lower_bound_at(s.drop_first(), k, i - 1);
    }
}

/// In a sorted list, keys at different positions differ.
pub proof fn lemma_sorted_distinct(s: Seq<FlagView>, i: int, j: int)
    requires
        sorted_by_key(s),
        0 <= i < s.len(),
        0 <= j < s.len(),
        i != j,
    ensures
        s[i].key != s[j].key,
{
    if i < j {
        lemma_key_lt_irreflexive(s[i].key);
    } else {
        lemma_key_lt_irreflexive(s[j].key);
    }
}

/// In a sorted list, `k` can only be found at `lower_bound(s, k)`.
pub proof fn lemma_key_position(s: Seq<FlagView>, k: Seq<char>, i: int)
    requires
        sorted_by_key(s),
        0 <= i < s.len(),
        s[i].key == k,
    ensures
        lower_bound(s, k) == i,
{
    assert forall|j: int| 0 <= j < i implies key_lt(#[trigger] s[j].key, k) by {}
    lemma_key_lt_irreflexive(k);
    lemma_lower_bound_at(s, k, i);
}

/// Putting a flag whose key is absent into its sorted place keeps the list
/// sorted.
pub proof fn lemma_insert_sorted(s: Seq<FlagView>, f: FlagView)
    requires
        sorted_by_key(s),
        !has_key(s, f.key),
    ensures
        sorted_by_key(insert_sorted(s, f)),
        insert_sorted(s, f).len() == s.len() + 1,
{
    let k = f.key;
    let p = lower_bound(s, k) as int;
    lemma_lower_bound(s, k);
    let r = insert_sorted(s, f);
    s.insert_ensures(p, f);
    assert forall|j: int| p <= j < s.len() implies key_lt(k, #[trigger] s[j].key) by {
        assert(!key_lt(s[p].key, k));
        if j > p {
            if key_lt(s[j].key, k) {
                lemma_key_lt_transitive(s[p].key, s[j].key, k);
            }
        }
        assert(!key_lt(s[j].key, k));
        assert(s[j].key != k);
        lemma_key_lt_total(s[j].key, k);
    }
    assert forall|a: int, b: int| 0 <= a < b < r.len() implies key_lt(r[a].key, r[b].key) by {
        if b < p {
            assert(r[a] == s[a] && r[b] == s[b]);
        } else if b == p {
            assert(r[a] == s[a]);
        } else if a < p {
            assert(r[a] == s[a]);
            assert(r[b] == s[b - 1]);
            assert(key_lt(s[a].key, k));
            lemma_key_lt_transitive(s[a].key, k, s[b - 1].key);
        } else if a == p {
            assert(r[b] == s[b - 1]);
        } else {
            assert(r[a] == s[a - 1] && r[b] == s[b - 1]);
        }
    }
}

/// Setting a flag keeps the list sorted.
pub proof fn lemma_with_flag_sorted(s: Seq<FlagView>, k: Seq<char>, v: Seq<char>)
    requires
        sorted_by_key(s),
    ensures
        sorted_by_key(with_flag(s, k, v)),
{
    let p = lower_bound(s, k) as int;
    lemma_lower_bound(s, k);
    if p < s.len() && s[p].key == k {
        let r = with_flag(s, k, v);
        assert forall|a: int, b: int| 0 <= a < b < r.len() implies key_lt(r[a].key, r[b].key) by {
            assert(r[a].key == s[a].key);
            assert(r[b].key == s[b].key);
        }
    } else {
        assert(!has_key(s, k)) by {
            if has_key(s, k) {
                let i = choose|i: int| 0 <= i < s.len() && s[i].key == k;
                lemma_key_position(s, k, i);
            }
        }
        lemma_insert_sorted(s, FlagView { key: k, value: v, dirty: true });
    }
}

/// Every flag passes the filter, so filtering keeps the list as it is.
proof fn lemma_filter_all(s: Seq<FlagView>, k: Seq<char>)
    requires
        forall|i: int| 0 <= i < s.len() ==> #[trigger] s[i].key != k,
    ensures
        without_flag(s, k) == s,
    decreases s.len(),
{
    reveal(Seq::filter);
    if s.len() > 0 {
        lemma_filter_all(s.drop_last(), k);
        assert(s.drop_last().push(s.last()) =~= s);
    }
}

/// In a sorted list, removing the flags under `k` removes the one at
/// `lower_bound(s, k)` if it has that key, and nothing otherwise.
pub proof fn lemma_without_flag_sorted(s: Seq<FlagView>, k: Seq<char>)
    requires
        sorted_by_key(s),
    ensures
        without_flag(s, k) == ({
            let p = lower_bound(s, k) as int;
            if p < s.len() && s[p].key == k {
                s.remove(p)
            } else {
                s
            }
        }),
        sorted_by_key(without_flag(s, k)),
{
    let p = lower_bound(s, k) as int;
    lemma_lower_bound(s, k);
    if p < s.len() && s[p].key == k {
        let a = s.subrange(0, p);
        let b = s.subrange(p + 1, s.len() as int);
        assert forall|i: int| 0 <= i < a.len() implies #[trigger] a[i].key != k by {
            lemma_sorted_distinct(s, i, p);
        }
        assert forall|i: int| 0 <= i < b.len() implies #[trigger] b[i].key != k by {
            lemma_sorted_distinct(s, i + p + 1, p);
        }
        lemma_filter_all(a, k);
        lemma_filter_all(b, k);
        assert(s =~= a + seq![s[p]] + b);
        Seq::filter_distributes_over_add(a + seq![s[p]], b, |f: FlagView| f.key != k);
        Seq::filter_distributes_over_add(a, seq![s[p]], |f: FlagView| f.key != k);
        reveal_with_fuel(Seq::filter, 2);
        assert(seq![s[p]].filter(|f: FlagView| f.key != k) =~= Seq::<FlagView>::empty());
        assert(without_flag(s, k) =~= a + b);
        assert(s.remove(p) =~= a + b);
        let r = s.remove(p);
        assert forall|x: int, y: int| 0 <= x < y < r.len() implies key_lt(r[x].key, r[y].key) by {
            let ox = if x < p { x } else { x + 1 };
            let oy = if y < p { y } else { y + 1 };
            assert(r[x] == s[ox]);
            assert(r[y] == s[oy]);
        }
    } else {
        assert forall|i: int| 0 <= i < s.len() implies #[trigger] s[i].key != k by {
            if s[i].key == k {
                lemma_key_position(s, k, i);
            }
        }
        lemma_filter_all(s, k);
    }
}


// ─── Finding a key ───────────────────────────────────────────────────────────

/// The position of `key` in a sorted list of flags, or the position it
/// belongs at, and whether a flag there has that key.
fn locate_key(flags: &Vec<Flag>, key: &Vec<char>) -> (r: (usize, bool))
    requires
        sorted_by_key(flags_view(flags@)),
    ensures
        r.0 <= flags@.len(),
        r.0 == lower_bound(flags_view(flags@), key@),
        r.1 == (r.0 < flags@.len() && flags_view(flags@)[r.0 as int].key == key@),
{
    let ghost s = flags_view(flags@);
    let mut i: usize = 0;
    while i < flags.len()
        invariant
            s == flags_view(flags@),
            s.len() == flags@.len(),
            i <= s.len(),
            forall|j: int| 0 <= j < i ==> key_lt(#[trigger] s[j].key, key@),
        decreases s.len() - i,
    {
        let k = chars_of(flags[i].key.as_str());
        match compare_chars(&k, key) {
            KeyOrder::Less => {
                i = i + 1;
            },
            KeyOrder::Same => {
                proof {
                    lemma_key_lt_irreflexive(key@);
                    lemma_lower_bound_at(s, key@, i as int);
                }
                return (i, true);
            },
            KeyOrder::Greater => {
                proof {
                    lemma_key_lt_asymmetric(key@, k@);
                    lemma_key_lt_irreflexive(key@);
                    lemma_lower_bound_at(s, key@, i as int);
                }
                return (i, false);
            },
        }
    }
    proof {
        lemma_lower_bound_at(s, key@, i as int);
    }
    (i, false)
}

// ─── Reading a document ──────────────────────────────────────────────────────

/// The flag a member of a document becomes: not dirty.
pub open spec fn member_flag(m: (Seq<char>, ValueView)) -> FlagView {
    FlagView { key: m.0, value: value_text(m.1), dirty: false }
}

/// The sorted list of the flags that the members of a document become.
pub open spec fn listing(ms: Seq<(Seq<char>, ValueView)>) -> Seq<FlagView>
    decreases ms.len(),
{
    if ms.len() == 0 {
        Seq::empty()
    } else {
        insert_sorted(listing(ms.drop_last()), member_flag(ms.last()))
    }
}

/// Every flag of `insert_sorted(s, f)` is `f` or a flag of `s`, and the
/// other way round.
pub proof fn lemma_insert_sorted_contents(s: Seq<FlagView>, f: FlagView)
    ensures
        forall|x: FlagView| #[trigger] insert_sorted(s, f).contains(x) <==> (x == f || s.contains(x)),
{
    let p = lower_bound(s, f.key) as int;
    lemma_lower_bound(s, f.key);
    let r = insert_sorted(s, f);
    s.insert_ensures(p, f);
    assert forall|x: FlagView| r.contains(x) implies (x == f || s.contains(x)) by {
        let i = choose|i: int| 0 <= i < r.len() && r[i] == x;
        if i < p {
            assert(s[i] == x);
        } else if i > p {
            assert(s[i - 1] == x);
        }
    }
    assert forall|x: FlagView| (x == f || s.contains(x)) implies r.contains(x) by {
        if x == f {
            assert(r[p] == x);
        } else {
            let i = choose|i: int| 0 <= i < s.len() && s[i] == x;
            if i < p {
                assert(r[i] == x);
            } else {
                assert(r[i + 1] == x);
            }
        }
    }
}

/// The listing of a document with distinct keys is sorted, has one flag
/// per member, and holds exactly the members' flags.
pub proof fn lemma_listing(ms: Seq<(Seq<char>, ValueView)>)
    requires
        keys_distinct(ms),
    ensures
        sorted_by_key(listing(ms)),
        listing(ms).len() == ms.len(),
        forall|x: FlagView| #[trigger] listing(ms).contains(x) <==> exists|j: int| 0 <= j < ms.len() && x == member_flag(ms[j]),
    decreases ms.len(),
{
    if ms.len() > 0 {
        let init = ms.drop_last();
        assert(keys_distinct(init)) by {
            assert forall|i: int, j: int| 0 <= i < init.len() && 0 <= j < init.len() && i != j implies init[i].0 != init[j].0 by {
                assert(init[i] == ms[i] && init[j] == ms[j]);
            }
        }
        lemma_listing(init);
        let f = member_flag(ms.last());
        assert(!has_key(listing(init), f.key)) by {
            if has_key(listing(init), f.key) {
                let i = choose|i: int| 0 <= i < listing(init).len() && listing(init)[i].key == f.key;
                assert(listing(init).contains(listing(init)[i]));
                let j = choose|j: int| 0 <= j < init.len() && listing(init)[i] == member_flag(init[j]);
                assert(ms[j].0 == ms[ms.len() - 1].0);
            }
        }
        lemma_insert_sorted(listing(init), f);
        lemma_insert_sorted_contents(listing(init), f);
        assert forall|x: FlagView| #[trigger] listing(ms).contains(x) <==> exists|j: int| 0 <= j < ms.len() && x == member_flag(ms[j]) by {
            if listing(ms).contains(x) {
                if x == f {
                    assert(x == member_flag(ms[ms.len() - 1]));
                } else {
                    assert(listing(init).contains(x));
                    let j = choose|j: int| 0 <= j < init.len() && x == member_flag(init[j]);
                    assert(x == member_flag(ms[j]));
                }
            }
            if exists|j: int| 0 <= j < ms.len() && x == member_flag(ms[j]) {
                let j = choose|j: int| 0 <= j < ms.len() && x == member_flag(ms[j]);
                if j < ms.len() - 1 {
                    assert(x == member_flag(init[j]));
                    assert(listing(init).contains(x));
                }
            }
        }
    }
}

// ─── Errors ──────────────────────────────────────────────────────────────────

/// Why a store operation failed.
pub enum StoreError {
    /// The text is not JSON; the parser's message.
    InvalidJson(String),
    /// The JSON is not an object.
    RootNotObject,
    /// No target path has been set.
    NoTargetPath,
}

/// The message shown for an error.
pub open spec fn store_error_message(e: StoreError) -> Seq<char> {
    match e {
        StoreError::InvalidJson(t) => "Invalid JSON: "@ + t@,
        StoreError::RootNotObject => "JSON root must be an object"@,
        StoreError::NoTargetPath => "No target path \u{2014} load or detect a Roblox version first."@,
    }
}

impl StoreError {
    /// The message shown for this error.
    pub fn message(&self) -> (r: String)
        ensures
            r@ == store_error_message(*self),
    {
        match self {
            StoreError::InvalidJson(t) => {
                let mut m = "Invalid JSON: ".to_owned();
                m.append(t.as_str());
                m
            },
            StoreError::RootNotObject => "JSON root must be an object".to_owned(),
            StoreError::NoTargetPath => "No target path \u{2014} load or detect a Roblox version first.".to_owned(),
        }
    }
}

// ─── The store ───────────────────────────────────────────────────────────────

/// In-memory flag store, sorted by key, with the path of the
/// `ClientAppSettings.json` it belongs to.
pub struct FlagStore {
    flags: Vec<Flag>,
    target_path: Option<String>,
}

impl FlagStore {
    /// The flags, in order.
    pub closed spec fn flag_list(&self) -> Seq<FlagView> {
        flags_view(self.flags@)
    }

    /// The target path, if one is set.
    pub closed spec fn target(&self) -> Option<Seq<char>> {
        match self.target_path {
            Some(p) => Some(p@),
            None => None,
        }
    }

    /// The store's invariant: flags sorted by key, no key twice.
    pub open spec fn wf(&self) -> bool {
        sorted_by_key(self.flag_list())
    }

    /// An empty store with no target path.
    pub fn new() -> (r: Self)
        ensures
            r.wf(),
            r.flag_list() == Seq::<FlagView>::empty(),
            r.target() == None::<Seq<char>>,
    {
        let r = FlagStore { flags: Vec::new(), target_path: None };
        assert(r.flag_list() =~= Seq::<FlagView>::empty());
        r
    }

    /// The flags, in order.
    pub fn flags(&self) -> (r: &Vec<Flag>)
        ensures
            flags_view(r@) == self.flag_list(),
    {
        &self.flags
    }

    /// The target path, if one is set.
    pub fn target_path(&self) -> (r: Option<String>)
        ensures
            match r {
                Some(p) => self.target() == Some(p@),
                None => self.target() == None::<Seq<char>>,
            },
    {
        match &self.target_path {
            Some(p) => Some(p.clone()),
            None => None,
        }
    }

    /// Sets the path flags are written to.
    pub fn set_target_path(&mut self, path: String)
        ensures
            final(self).flag_list() == old(self).flag_list(),
            final(self).target() == Some(path@),
    {
        self.target_path = Some(path);
    }

    /// Inserts a new flag or updates an existing one, keeping the list
    /// sorted. An update that changes the value marks the flag dirty; a
    /// new flag is dirty.
    pub fn set_flag(&mut self, key: String, value: String)
        requires
            old(self).wf(),
        ensures
            final(self).wf(),
            final(self).flag_list() == with_flag(old(self).flag_list(), key@, value@),
            final(self).target() == old(self).target(),
    {
        let ghost s = self.flag_list();
        let kc = chars_of(key.as_str());
        let (p, found) = locate_key(&self.flags, &kc);
        proof {
            lemma_with_flag_sorted(s, key@, value@);
            assert(self.flags@.len() == s.len());
        }
        if found {
            if !same_text(self.flags[p].value.as_str(), value.as_str()) {
                self.flags.set(p, Flag { key, value, dirty: true });
                assert(self.flag_list() =~= with_flag(s, kc@, value@));
            }
        } else {
            self.flags.insert(p, Flag { key, value, dirty: true });
            assert(self.flag_list() =~= with_flag(s, kc@, value@));
        }
    }

    /// Removes the flag with this key, if there is one.
    pub fn remove_flag(&mut self, key: &str)
        requires
            old(self).wf(),
        ensures
            final(self).wf(),
            final(self).flag_list() == without_flag(old(self).flag_list(), key@),
            final(self).target() == old(self).target(),
    {
        let ghost s = self.flag_list();
        let kc = chars_of(key);
        let (p, found) = locate_key(&self.flags, &kc);
        proof {
            lemma_without_flag_sorted(s, key@);
        }
        if found {
            self.flags.remove(p);
            assert(self.flag_list() =~= s.remove(p as int));
        }
    }

    /// Replaces the flags with those of a parsed document when it is an
    /// object: its members, each a clean flag, sorted by key. A document
    /// that is not an object leaves the store as it is.
    pub fn load_document(&mut self, doc: JsonDocument) -> (r: Result<(), StoreError>)
        requires
            old(self).wf(),
            doc matches JsonDocument::Object(ms) ==> keys_distinct(members_view(ms@)),
        ensures
            final(self).wf(),
            final(self).target() == old(self).target(),
            match doc {
                JsonDocument::Object(ms) => r is Ok && final(self).flag_list() == listing(members_view(ms@)),
                JsonDocument::Other(_) => r matches Err(StoreError::RootNotObject)
                    && final(self).flag_list() == old(self).flag_list(),
            },
    {
        match doc {
            JsonDocument::Other(_) => Err(StoreError::RootNotObject),
            JsonDocument::Object(ms) => {
                let ghost mv = members_view(ms@);
                let mut res: Vec<Flag> = Vec::new();
                let mut i: usize = 0;
                proof {
                    assert(mv.take(0) =~= Seq::<(Seq<char>, ValueView)>::empty());
                    assert(flags_view(res@) =~= Seq::<FlagView>::empty());
                }
                while i < ms.len()
                    invariant
                        mv == members_view(ms@),
                        keys_distinct(mv),
                        i <= ms@.len(),
                        flags_view(res@) == listing(mv.take(i as int)),
                        sorted_by_key(flags_view(res@)),
                    decreases ms@.len() - i,
                {
                    let ghost before = flags_view(res@);
                    let key = ms[i].0.clone();
                    let value = json_to_str(&ms[i].1);
                    let kc = chars_of(key.as_str());
                    let ghost f = FlagView { key: key@, value: value@, dirty: false };
                    proof {
                        assert(mv.take(i + 1).drop_last() =~= mv.take(i as int));
                        assert(mv.take(i + 1).last() == mv[i as int]);
                        assert(f == member_flag(mv[i as int]));
                        assert(keys_distinct(mv.take(i + 1))) by {
                            let t = mv.take(i + 1);
                            assert forall|a: int, b: int| 0 <= a < t.len() && 0 <= b < t.len() && a != b implies t[a].0 != t[b].0 by {
                                assert(t[a] == mv[a] && t[b] == mv[b]);
                            }
                        }
                        lemma_listing(mv.take(i + 1));
                        lemma_listing(mv.take(i as int));
                        assert(!has_key(before, f.key)) by {
                            if has_key(before, f.key) {
                                let a = choose|a: int| 0 <= a < before.len() && before[a].key == f.key;
                                assert(before.contains(before[a]));
                                let j = choose|j: int| 0 <= j < i && before[a] == member_flag(mv.take(i as int)[j]);
                                assert(mv[j].0 == mv[i as int].0);
                            }
                        }
                    }
                    let (p, found) = locate_key(&res, &kc);
                    proof {
                        if found {
                            assert(before[p as int].key == f.key);
                        }
                    }
                    res.insert(p, Flag { key, value, dirty: false });
                    proof {
                        assert(flags_view(res@) =~= insert_sorted(before, f));
                    }
                    i = i + 1;
                }
                proof {
                    assert(mv.take(ms@.len() as int) =~= mv);
                }
                self.flags = res;
                Ok(())
            },
        }
    }

    /// Parses a JSON text and, when it is an object, replaces the flags
    /// with its members; otherwise returns the error and leaves the store
    /// as it is.
    pub fn parse_json(&mut self, content: &str) -> (r: Result<(), StoreError>)
        requires
            old(self).wf(),
        ensures
            final(self).wf(),
            final(self).target() == old(self).target(),
            match json_document(content@) {
                None => r matches Err(StoreError::InvalidJson(t)) && t@ == json_error_message(content@)
                    && final(self).flag_list() == old(self).flag_list(),
                Some(DocumentView::Other(_)) => r matches Err(StoreError::RootNotObject)
                    && final(self).flag_list() == old(self).flag_list(),
                Some(DocumentView::Object(ms)) => r is Ok && final(self).flag_list() == listing(ms),
            },
    {
        match parse_json_document(content) {
            Err(m) => Err(StoreError::InvalidJson(m)),
            Ok(doc) => self.load_document(doc),
        }
    }

    /// Whether a flag has this key.
    pub fn contains_key(&self, key: &str) -> (r: bool)
        requires
            self.wf(),
        ensures
            r == has_key(self.flag_list(), key@),
    {
        let kc = chars_of(key);
        let (p, found) = locate_key(&self.flags, &kc);
        proof {
            if has_key(self.flag_list(), key@) {
                let i = choose|i: int| 0 <= i < self.flag_list().len() && self.flag_list()[i].key == key@;
                lemma_key_position(self.flag_list(), key@, i);
            }
        }
        found
    }

    /// The path a save writes to, or the error a save without one gives.
    pub fn save_target(&self) -> (r: Result<String, StoreError>)
        ensures
            match self.target() {
                Some(p) => r matches Ok(q) && q@ == p,
                None => r matches Err(StoreError::NoTargetPath),
            },
    {
        match &self.target_path {
            Some(p) => Ok(p.clone()),
            None => Err(StoreError::NoTargetPath),
        }
    }

    /// Each flag's key with the JSON type its value is written as, in
    /// order: what the settings file is made of.
    pub fn json_entries(&self) -> (r: Vec<(String, JsonScalar)>)
        ensures
            r@.len() == self.flag_list().len(),
            forall|i: int| 0 <= i < r@.len() ==> (#[trigger] r@[i]).0@ == self.flag_list()[i].key
                && r@[i].1@ == scalar_of(self.flag_list()[i].value, lower_text(self.flag_list()[i].value)),
    {
        let mut r: Vec<(String, JsonScalar)> = Vec::new();
        let mut i: usize = 0;
        while i < self.flags.len()
            invariant
                i <= self.flags@.len(),
                r@.len() == i,
                forall|j: int| 0 <= j < i ==> (#[trigger] r@[j]).0@ == self.flag_list()[j].key
                    && r@[j].1@ == scalar_of(self.flag_list()[j].value, lower_text(self.flag_list()[j].value)),
            decreases self.flags@.len() - i,
        {
            let f = &self.flags[i];
            let entry = (f.key.clone(), classify_value(f.value.as_str()));
            r.push(entry);
            i = i + 1;
        }
        r
    }

    /// Removes every flag.
    pub fn clear_flags(&mut self)
        ensures
            final(self).wf(),
            final(self).flag_list() == Seq::<FlagView>::empty(),
            final(self).target() == old(self).target(),
    {
        self.flags.clear();
        assert(self.flag_list() =~= Seq::<FlagView>::empty());
    }

    /// Records how reading the settings file at `path` went, after `path`
    /// has become the target: a missing file (`None`) leaves the list empty,
    /// to be created on the first save; a file that could not be read
    /// reports why; a file that was read is parsed. The message on success
    /// names the path; an error names what went wrong.
    pub fn load(&mut self, path: String, file: Option<Result<String, String>>) -> (r: Result<String, String>)
        requires
            old(self).wf(),
        ensures
            final(self).wf(),
            final(self).target() == Some(path@),
            match file {
                None => r matches Ok(m) && m@ == path@ + " (new \u{2014} created on Apply)"@
                    && final(self).flag_list() == Seq::<FlagView>::empty(),
                Some(Err(e)) => r matches Err(m) && m@ == "Cannot read "@ + path@ + ": "@ + e@
                    && final(self).flag_list() == old(self).flag_list(),
                Some(Ok(content)) => match json_document(content@) {
                    None => r matches Err(m) && m@ == "Invalid JSON: "@ + json_error_message(content@)
                        && final(self).flag_list() == old(self).flag_list(),
                    Some(DocumentView::Other(_)) => r matches Err(m) && m@ == "JSON root must be an object"@
                        && final(self).flag_list() == old(self).flag_list(),
                    Some(DocumentView::Object(ms)) => r matches Ok(m) && m@ == path@
                        && final(self).flag_list() == listing(ms),
                },
            },
    {
        self.target_path = Some(path.clone());
        match file {
            None => {
                self.clear_flags();
                let mut m = path;
                m.append(" (new \u{2014} created on Apply)");
                Ok(m)
            },
            Some(Err(e)) => {
                let mut m = "Cannot read ".to_owned();
                m.append(path.as_str());
                m.append(": ");
                m.append(e.as_str());
                Err(m)
            },
            Some(Ok(content)) => match self.parse_json(content.as_str()) {
                Ok(()) => Ok(path),
                Err(e) => Err(e.message()),
            },
        }
    }

    /// Records how reading a preset file went: its flags replace the list;
    /// the target path stays. A file that could not be read reports why.
    pub fn load_from_file(&mut self, path: &str, file: Result<String, String>) -> (r: Result<(), String>)
        requires
            old(self).wf(),
        ensures
            final(self).wf(),
            final(self).target() == old(self).target(),
            match file {
                Err(e) => r matches Err(m) && m@ == "Cannot read "@ + path@ + ": "@ + e@
                    && final(self).flag_list() == old(self).flag_list(),
                Ok(content) => match json_document(content@) {
                    None => r matches Err(m) && m@ == "Invalid JSON: "@ + json_error_message(content@)
                        && final(self).flag_list() == old(self).flag_list(),
                    Some(DocumentView::Other(_)) => r matches Err(m) && m@ == "JSON root must be an object"@
                        && final(self).flag_list() == old(self).flag_list(),
                    Some(DocumentView::Object(ms)) => r is Ok && final(self).flag_list() == listing(ms),
                },
            },
    {
        match file {
            Err(e) => {
                let mut m = "Cannot read ".to_owned();
                m.append(path);
                m.append(": ");
                m.append(e.as_str());
                Err(m)
            },
            Ok(content) => match self.parse_json(content.as_str()) {
                Ok(()) => Ok(()),
                Err(e) => Err(e.message()),
            },
        }
    }

    /// Records how writing the settings file went: on success every dirty
    /// marker is cleared and the written path is returned.
    pub fn save(&mut self, written: Result<String, String>) -> (r: Result<String, String>)
        requires
            old(self).wf(),
        ensures
            final(self).wf(),
            final(self).target() == old(self).target(),
            r == written,
            match written {
                Ok(_) => final(self).flag_list() == cleaned(old(self).flag_list()),
                Err(_) => final(self).flag_list() == old(self).flag_list(),
            },
    {
        if written.is_ok() {
            self.mark_saved();
        }
        written
    }

    /// Records how deleting the settings file went: on success the list is
    /// emptied (Roblox then uses its defaults).
    pub fn reset(&mut self, deleted: Result<(), String>) -> (r: Result<(), String>)
        requires
            old(self).wf(),
        ensures
            final(self).wf(),
            final(self).target() == old(self).target(),
            r == deleted,
            match deleted {
                Ok(()) => final(self).flag_list() == Seq::<FlagView>::empty(),
                Err(_) => final(self).flag_list() == old(self).flag_list(),
            },
    {
        if deleted.is_ok() {
            self.clear_flags();
        }
        deleted
    }

    /// Clears every dirty marker, as a successful write does.
    pub fn mark_saved(&mut self)
        requires
            old(self).wf(),
        ensures
            final(self).wf(),
            final(self).flag_list() == cleaned(old(self).flag_list()),
            final(self).target() == old(self).target(),
    {
        let ghost s = self.flag_list();
        let mut i: usize = 0;
        while i < self.flags.len()
            invariant
                s.len() == self.flags@.len(),
                i <= s.len(),
                forall|j: int| 0 <= j < i ==> #[trigger] self.flag_list()[j] == cleaned(s)[j],
                forall|j: int| i <= j < s.len() ==> #[trigger] self.flag_list()[j] == s[j],
                self.target() == old(self).target(),
            decreases s.len() - i,
        {
            let ghost prev = self.flag_list();
            let f = Flag {
                key: self.flags[i].key.clone(),
                value: self.flags[i].value.clone(),
                dirty: false,
            };
            assert(self.flag_list()[i as int] == s[i as int]);
            assert(f@ == cleaned(s)[i as int]);
            self.flags.set(i, f);
            assert(self.flag_list() =~= prev.update(i as int, f@));
            i = i + 1;
        }
        assert(self.flag_list() =~= cleaned(s));
    }

    /// Puts a new value into the flag at `index`, marking it dirty, as an
    /// edit in place does. Its key stays.
    pub fn edit_value(&mut self, index: usize, value: String)
        requires
            old(self).wf(),
            index < old(self).flag_list().len(),
        ensures
            final(self).wf(),
            final(self).flag_list() == old(self).flag_list().update(
                index as int,
                FlagView { key: old(self).flag_list()[index as int].key, value: value@, dirty: true },
            ),
            final(self).target() == old(self).target(),
    {
        let ghost s = self.flag_list();
        let key = self.flags[index].key.clone();
        self.flags.set(index, Flag { key, value, dirty: true });
        assert(self.flag_list() =~= s.update(
            index as int,
            FlagView { key: s[index as int].key, value: value@, dirty: true },
        ));
        assert forall|a: int, b: int| 0 <= a < b < s.len() implies key_lt(
            self.flag_list()[a].key,
            self.flag_list()[b].key,
        ) by {
            assert(self.flag_list()[a].key == s[a].key);
            assert(self.flag_list()[b].key == s[b].key);
        }
    }
}

} // verus!
