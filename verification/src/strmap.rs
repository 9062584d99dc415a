//! A map from strings to values that keeps its entries sorted by key, in the
//! byte order of the keys' UTF-8 encoding (the order of `String`'s `Ord`).

use crate::json::same_text;
use crate::loc::utf8_bytes;
use vstd::prelude::*;

verus! {

/// Strict lexicographic order on byte strings.
pub open spec fn bytes_lt(a: Seq<u8>, b: Seq<u8>) -> bool
    decreases a.len(),
{
    if a.len() == 0 {
        b.len() > 0
    } else if b.len() == 0 {
        false
    } else if a[0] < b[0] {
        true
    } else if a[0] > b[0] {
        false
    } else {
        bytes_lt(a.drop_first(), b.drop_first())
    }
}

/// Strict order on texts: the order of their UTF-8 bytes.
pub open spec fn text_lt(a: Seq<char>, b: Seq<char>) -> bool {
    bytes_lt(utf8_bytes(a), utf8_bytes(b))
}

pub proof fn lemma_bytes_lt_irreflexive(a: Seq<u8>)
    ensures
        !bytes_lt(a, a),
    decreases a.len(),
{
    if a.len() > 0 {
        lemma_bytes_lt_irreflexive(a.drop_first());
    }
}

pub proof fn lemma_bytes_lt_transitive(a: Seq<u8>, b: Seq<u8>, c: Seq<u8>)
    requires
        bytes_lt(a, b),
        bytes_lt(b, c),
    ensures
        bytes_lt(a, c),
    decreases a.len(),
{
    if a.len() > 0 && b.len() > 0 && c.len() > 0 && a[0] == b[0] && b[0] == c[0] {
        lemma_bytes_lt_transitive(a.drop_first(), b.drop_first(), c.drop_first());
    }
}

pub proof fn lemma_bytes_lt_total(a: Seq<u8>, b: Seq<u8>)
    ensures
        a == b || bytes_lt(a, b) || bytes_lt(b, a),
    decreases a.len(),
{
    if a.len() > 0 && b.len() > 0 && a[0] == b[0] {
        lemma_bytes_lt_total(a.drop_first(), b.drop_first());
        if a.drop_first() == b.drop_first() {
            assert(a =~= seq![a[0]] + a.drop_first());
            assert(b =~= seq![b[0]] + b.drop_first());
        }
    } else if a.len() == 0 && b.len() == 0 {
        assert(a =~= b);
    }
}

/// Texts with the same UTF-8 bytes are the same text.
pub proof fn lemma_utf8_injective(a: Seq<char>, b: Seq<char>)
    ensures
        utf8_bytes(a) == utf8_bytes(b) ==> a == b,
{
    vstd::utf8::encode_utf8_decode_utf8(a);
    vstd::utf8::encode_utf8_decode_utf8(b);
}

pub proof fn lemma_text_lt_irreflexive(a: Seq<char>)
    ensures
        !text_lt(a, a),
{
    lemma_bytes_lt_irreflexive(utf8_bytes(a));
}

pub proof fn lemma_text_lt_transitive(a: Seq<char>, b: Seq<char>, c: Seq<char>)
    requires
        text_lt(a, b),
        text_lt(b, c),
    ensures
        text_lt(a, c),
{
    lemma_bytes_lt_transitive(utf8_bytes(a), utf8_bytes(b), utf8_bytes(c));
}

pub proof fn lemma_text_lt_total(a: Seq<char>, b: Seq<char>)
    ensures
        a == b || text_lt(a, b) || text_lt(b, a),
{
    lemma_bytes_lt_total(utf8_bytes(a), utf8_bytes(b));
    lemma_utf8_injective(a, b);
}

/// Whether `a` comes strictly before `b` in the order of their UTF-8 bytes.
pub fn text_less(a: &str, b: &str) -> (r: bool)
    ensures
        r == text_lt(a@, b@),
{
    let x = a.as_bytes();
    let y = b.as_bytes();
    let ghost xs = utf8_bytes(a@);
    let ghost ys = utf8_bytes(b@);
    let mut i: usize = 0;
    assert(xs.skip(0) =~= xs);
    assert(ys.skip(0) =~= ys);
    while i < x.len() && i < y.len()
        invariant
            x@ == xs,
            y@ == ys,
            xs == utf8_bytes(a@),
            ys == utf8_bytes(b@),
            0 <= i <= xs.len(),
            i <= ys.len(),
            bytes_lt(xs, ys) == bytes_lt(xs.skip(i as int), ys.skip(i as int)),
        decreases xs.len() - i,
    {
        assert(xs.skip(i as int)[0] == xs[i as int]);
        assert(ys.skip(i as int)[0] == ys[i as int]);
        if x[i] < y[i] {
            return true;
        }
        if x[i] > y[i] {
            return false;
        }
        assert(xs.skip(i as int).drop_first() =~= xs.skip(i + 1));
        assert(ys.skip(i as int).drop_first() =~= ys.skip(i + 1));
        i = i + 1;
    }
    i < y.len()
}

/// The keys of the entries are strictly increasing.
pub open spec fn sorted_keys<V>(s: Seq<(Seq<char>, V)>) -> bool {
    forall|i: int, j: int| 0 <= i < j < s.len() ==> text_lt(#[trigger] s[i].0, #[trigger] s[j].0)
}

/// Whether some entry has the key `k`.
pub open spec fn has_key<V>(s: Seq<(Seq<char>, V)>, k: Seq<char>) -> bool {
    exists|i: int| 0 <= i < s.len() && #[trigger] s[i].0 == k
}

/// The number of leading entries whose keys come before `k`: where `k` is,
/// or belongs, in a sorted sequence.
pub open spec fn lower_bound<V>(s: Seq<(Seq<char>, V)>, k: Seq<char>) -> int
    decreases s.len(),
{
    if s.len() == 0 {
        0
    } else if text_lt(s[0].0, k) {
        1 + lower_bound(s.drop_first(), k)
    } else {
        0
    }
}

/// The value under `k`, if some entry has that key.
pub open spec fn lookup<V>(s: Seq<(Seq<char>, V)>, k: Seq<char>) -> Option<V> {
    if has_key(s, k) {
        Some(s[lower_bound(s, k)].1)
    } else {
        None
    }
}

/// The entries after putting `v` under `k`: the entry with key `k` is
/// replaced, or a new one is put where `k` belongs.
pub open spec fn map_insert<V>(s: Seq<(Seq<char>, V)>, k: Seq<char>, v: V) -> Seq<(Seq<char>, V)> {
    if has_key(s, k) {
        s.update(lower_bound(s, k), (k, v))
    } else {
        s.insert(lower_bound(s, k), (k, v))
    }
}

/// The keys of the entries.
pub open spec fn keys_of<V>(s: Seq<(Seq<char>, V)>) -> Seq<Seq<char>> {
    s.map_values(|e: (Seq<char>, V)| e.0)
}

/// In a sorted sequence, the entries before `lower_bound(s, k)` have keys
/// before `k`, and the others do not.
pub proof fn lemma_lower_bound<V>(s: Seq<(Seq<char>, V)>, k: Seq<char>)
    requires
        sorted_keys(s),
    ensures
        0 <= lower_bound(s, k) <= s.len(),
        forall|i: int| 0 <= i < lower_bound(s, k) ==> text_lt(#[trigger] s[i].0, k),
        forall|i: int| lower_bound(s, k) <= i < s.len() ==> !text_lt(#[trigger] s[i].0, k),
        has_key(s, k) <==> (lower_bound(s, k) < s.len() && s[lower_bound(s, k)].0 == k),
    decreases s.len(),
{
    if s.len() > 0 {
        let t = s.drop_first();
        assert(sorted_keys(t)) by {
            assert forall|i: int, j: int| 0 <= i < j < t.len() implies text_lt(
                #[trigger] t[i].0,
                #[trigger] t[j].0,
            ) by {
                assert(t[i] == s[i + 1]);
                assert(t[j] == s[j + 1]);
            }
        }
        lemma_lower_bound(t, k);
        if text_lt(s[0].0, k) {
            assert forall|i: int| 0 <= i < lower_bound(s, k) implies text_lt(#[trigger] s[i].0, k) by {
                if i > 0 {
                    assert(s[i] == t[i - 1]);
                }
            }
            assert forall|i: int| lower_bound(s, k) <= i < s.len() implies !text_lt(
                #[trigger] s[i].0,
                k,
            ) by {
                assert(s[i] == t[i - 1]);
            }
            if has_key(s, k) {
                let w = choose|i: int| 0 <= i < s.len() && #[trigger] s[i].0 == k;
                if w == 0 {
                    lemma_text_lt_irreflexive(k);
                } else {
                    assert(t[w - 1].0 == k);
                }
            }
            if lower_bound(s, k) < s.len() && s[lower_bound(s, k)].0 == k {
                assert(t[lower_bound(t, k)].0 == k);
            }
        } else {
            assert forall|i: int| 0 <= i < s.len() implies !text_lt(#[trigger] s[i].0, k) by {
                if i > 0 {
                    assert(text_lt(s[0].0, s[i].0));
                    if text_lt(s[i].0, k) {
                        lemma_text_lt_transitive(s[0].0, s[i].0, k);
                    }
                }
            }
            if has_key(s, k) {
                let w = choose|i: int| 0 <= i < s.len() && #[trigger] s[i].0 == k;
                if w > 0 {
                    lemma_text_lt_total(s[0].0, k);
                    assert(text_lt(s[0].0, s[w].0));
                }
            }
        }
    }
}

/// The entries of a sorted sequence with distinct keys have distinct keys.
pub proof fn lemma_sorted_distinct<V>(s: Seq<(Seq<char>, V)>, i: int, j: int)
    requires
        sorted_keys(s),
        0 <= i < s.len(),
        0 <= j < s.len(),
        i != j,
    ensures
        s[i].0 != s[j].0,
{
    if i < j {
        assert(text_lt(s[i].0, s[j].0));
        if s[i].0 == s[j].0 {
            lemma_text_lt_irreflexive(s[i].0);
        }
    } else {
        assert(text_lt(s[j].0, s[i].0));
        if s[i].0 == s[j].0 {
            lemma_text_lt_irreflexive(s[i].0);
        }
    }
}

/// Putting a value under a key keeps the keys sorted.
pub proof fn lemma_insert_sorted<V>(s: Seq<(Seq<char>, V)>, k: Seq<char>, v: V)
    requires
        sorted_keys(s),
    ensures
        sorted_keys(map_insert(s, k, v)),
{
    lemma_lower_bound(s, k);
    let p = lower_bound(s, k);
    let r = map_insert(s, k, v);
    if has_key(s, k) {
        assert forall|i: int, j: int| 0 <= i < j < r.len() implies text_lt(
            #[trigger] r[i].0,
            #[trigger] r[j].0,
        ) by {
            assert(s[i].0 == r[i].0 || i == p);
            assert(s[j].0 == r[j].0 || j == p);
        }
    } else {
        assert forall|i: int, j: int| 0 <= i < j < r.len() implies text_lt(
            #[trigger] r[i].0,
            #[trigger] r[j].0,
        ) by {
            if j < p {
                assert(r[i] == s[i] && r[j] == s[j]);
            } else if j == p {
                assert(r[i] == s[i]);
            } else if i < p {
                assert(r[i] == s[i] && r[j] == s[j - 1]);
                if j - 1 >= p {
                    lemma_text_lt_total(s[j - 1].0, k);
                    if text_lt(k, s[j - 1].0) {
                        lemma_text_lt_transitive(s[i].0, k, s[j - 1].0);
                    } else {
                        assert(s[j - 1].0 == k);
                    }
                }
            } else if i == p {
                assert(r[j] == s[j - 1]);
                lemma_text_lt_total(s[j - 1].0, k);
                if s[j - 1].0 == k {
                    assert(has_key(s, k));
                }
            } else {
                assert(r[i] == s[i - 1] && r[j] == s[j - 1]);
            }
        }
    }
}

/// What a read gives back after a write: after putting `v` under `k`,
/// looking up `k` gives `v`, looking up any other key gives what it gave
/// before, the keys are those before and `k`, and the keys stay sorted.
pub proof fn lemma_lookup_after_insert<V>(s: Seq<(Seq<char>, V)>, k: Seq<char>, v: V, other: Seq<char>)
    requires
        sorted_keys(s),
    ensures
        sorted_keys(map_insert(s, k, v)),
        lookup(map_insert(s, k, v), k) == Some(v),
        other != k ==> lookup(map_insert(s, k, v), other) == lookup(s, other),
        has_key(map_insert(s, k, v), other) <==> (has_key(s, other) || other == k),
        map_insert(s, k, v).len() == if has_key(s, k) { s.len() } else { s.len() + 1 },
{
    lemma_insert_sorted(s, k, v);
    let r = map_insert(s, k, v);
    let p = lower_bound(s, k);
    lemma_lower_bound(s, k);
    lemma_lower_bound(r, k);
    lemma_lower_bound(s, other);
    lemma_lower_bound(r, other);
    assert(r[p] == (k, v));
    assert(r[p].0 == k);
    assert(has_key(r, k));
    if lower_bound(r, k) != p {
        lemma_sorted_distinct(r, lower_bound(r, k), p);
    }
    if other != k {
        if has_key(s, other) {
            let q = lower_bound(s, other);
            let q2 = if has_key(s, k) || q < p { q } else { q + 1 };
            assert(r[q2] == s[q]);
            assert(r[q2].0 == other);
            assert(has_key(r, other));
            if lower_bound(r, other) != q2 {
                lemma_sorted_distinct(r, lower_bound(r, other), q2);
            }
        } else {
            if has_key(r, other) {
                let w = choose|i: int| 0 <= i < r.len() && #[trigger] r[i].0 == other;
                if has_key(s, k) {
                    assert(s[w].0 == other || w == p);
                } else if w < p {
                    assert(s[w].0 == other);
                } else if w > p {
                    assert(s[w - 1].0 == other);
                }
            }
        }
    } else {
        assert(r[p].0 == other);
    }
}

/// A map from strings to values, kept sorted by key: iteration follows key
/// order and each key occurs once.
#[derive(Debug)]
pub struct StrMap<V> {
    entries: Vec<(String, V)>,
}

impl<V> StrMap<V> {
    /// The entries, keys taken as texts.
    pub closed spec fn spec_entries(&self) -> Seq<(Seq<char>, V)> {
        self.entries@.map_values(|e: (String, V)| (e.0@, e.1))
    }

    /// The entries are sorted by key, so each key occurs once.
    #[verifier::type_invariant]
    pub open spec fn wf(self) -> bool {
        sorted_keys(self.spec_entries())
    }

    /// An empty map.
    pub fn new() -> (r: Self)
        ensures
            r@ == Seq::<(Seq<char>, V)>::empty(),
    {
        let r = StrMap { entries: Vec::new() };
        assert(r.spec_entries() =~= Seq::<(Seq<char>, V)>::empty());
        r
    }

    /// The entries, in key order.
    pub fn into_entries(self) -> (r: Vec<(String, V)>)
        ensures
            r@.map_values(|e: (String, V)| (e.0@, e.1)) == self@,
            sorted_keys(self@),
    {
        proof {
            use_type_invariant(&self);
        }
        self.entries
    }

    /// The map with the given entries, which are sorted by key.
    pub fn from_sorted(entries: Vec<(String, V)>) -> (r: Self)
        requires
            sorted_keys(entries@.map_values(|e: (String, V)| (e.0@, e.1))),
        ensures
            r@ == entries@.map_values(|e: (String, V)| (e.0@, e.1)),
    {
        StrMap { entries }
    }

    /// The number of entries; the keys are in order.
    pub fn len(&self) -> (r: usize)
        ensures
            r == self@.len(),
            sorted_keys(self@),
    {
        proof {
            use_type_invariant(self);
        }
        self.entries.len()
    }

    /// Whether the map has no entries.
    pub fn is_empty(&self) -> (r: bool)
        ensures
            r == (self@.len() == 0),
    {
        self.entries.len() == 0
    }

    /// The `i`-th entry in key order.
    pub fn entry(&self, i: usize) -> (r: (&String, &V))
        requires
            i < self@.len(),
        ensures
            r.0@ == self@[i as int].0,
            *r.1 == self@[i as int].1,
    {
        let e = &self.entries[i];
        (&e.0, &e.1)
    }

    /// The value stored under `key`, if any.
    pub fn get(&self, key: &str) -> (r: Option<&V>)
        ensures
            match lookup(self@, key@) {
                Some(v) => r matches Some(x) && *x == v,
                None => r is None,
            },
    {
        proof {
            use_type_invariant(self);
            lemma_lower_bound(self@, key@);
        }
        let i = self.position(key);
        if i < self.entries.len() && same_text(self.entries[i].0.as_str(), key) {
            proof {
                lemma_utf8_injective(self@[i as int].0, key@);
            }
            Some(&self.entries[i].1)
        } else {
            None
        }
    }

    /// Whether some entry has the key `key`.
    pub fn contains_key(&self, key: &str) -> (r: bool)
        ensures
            r == has_key(self@, key@),
    {
        proof {
            use_type_invariant(self);
            lemma_lower_bound(self@, key@);
        }
        match self.get(key) {
            Some(_) => true,
            None => false,
        }
    }

    /// Where `key` is, or belongs.
    fn position(&self, key: &str) -> (r: usize)
        ensures
            r == lower_bound(self@, key@),
    {
        proof {
            use_type_invariant(self);
            lemma_lower_bound(self@, key@);
        }
        let mut i: usize = 0;
        while i < self.entries.len() && text_less(self.entries[i].0.as_str(), key)
            invariant
                0 <= i <= self@.len(),
                self@.len() == self.entries@.len(),
                sorted_keys(self@),
                0 <= lower_bound(self@, key@) <= self@.len(),
                forall|j: int| 0 <= j < lower_bound(self@, key@) ==> text_lt(#[trigger] self@[j].0, key@),
                forall|j: int|
                    lower_bound(self@, key@) <= j < self@.len() ==> !text_lt(#[trigger] self@[j].0, key@),
                i <= lower_bound(self@, key@),
            decreases self@.len() - i,
        {
            assert(self@[i as int].0 == self.entries@[i as int].0@);
            i = i + 1;
        }
        if i < self.entries.len() {
            assert(self@[i as int].0 == self.entries@[i as int].0@);
        }
        i
    }

    /// Puts `value` under `key`, replacing the value stored there before.
    pub fn insert(&mut self, key: String, value: V)
        ensures
            final(self)@ == map_insert(old(self)@, key@, value),
    {
        proof {
            use_type_invariant(&*self);
            lemma_lower_bound(self@, key@);
            lemma_insert_sorted(self@, key@, value);
        }
        let i = self.position(key.as_str());
        let ghost old_view = self@;
        let found = i < self.entries.len() && same_text(self.entries[i].0.as_str(), key.as_str());
        proof {
            if found {
                lemma_utf8_injective(self@[i as int].0, key@);
            }
        }
        let mut entries = Vec::new();
        std::mem::swap(&mut entries, &mut self.entries);
        if found {
            let _old = entries.remove(i);
        }
        entries.insert(i, (key, value));
        proof {
            let n = StrMap { entries };
            assert(n.spec_entries() =~= map_insert(old_view, key@, value));
        }
        self.entries = entries;
    }
}

impl<V> View for StrMap<V> {
    type V = Seq<(Seq<char>, V)>;

    open spec fn view(&self) -> Seq<(Seq<char>, V)> {
        self.spec_entries()
    }
}

/// The entries with each value mapped by `f`.
pub open spec fn map_vals<V, W>(s: Seq<(Seq<char>, V)>, f: spec_fn(V) -> W) -> Seq<(Seq<char>, W)> {
    s.map_values(|e: (Seq<char>, V)| (e.0, f(e.1)))
}

pub proof fn lemma_map_vals_lower_bound<V, W>(s: Seq<(Seq<char>, V)>, f: spec_fn(V) -> W, k: Seq<char>)
    ensures
        lower_bound(map_vals(s, f), k) == lower_bound(s, k),
        0 <= lower_bound(s, k) <= s.len(),
    decreases s.len(),
{
    if s.len() > 0 {
        assert(map_vals(s, f).drop_first() =~= map_vals(s.drop_first(), f));
        lemma_map_vals_lower_bound(s.drop_first(), f, k);
    }
}

/// The place of a key is no later than any entry with that key.
pub proof fn lemma_lower_bound_at_most<V>(s: Seq<(Seq<char>, V)>, k: Seq<char>, w: int)
    requires
        0 <= w < s.len(),
        s[w].0 == k,
    ensures
        lower_bound(s, k) <= w,
    decreases s.len(),
{
    if w == 0 {
        lemma_text_lt_irreflexive(k);
    } else if text_lt(s[0].0, k) {
        lemma_lower_bound_at_most(s.drop_first(), k, w - 1);
    }
}

/// Mapping the values commutes with putting a value under a key.
pub proof fn lemma_map_vals_insert<V, W>(s: Seq<(Seq<char>, V)>, f: spec_fn(V) -> W, k: Seq<char>, v: V)
    ensures
        map_vals(map_insert(s, k, v), f) == map_insert(map_vals(s, f), k, f(v)),
{
    let t = map_vals(s, f);
    lemma_map_vals_lower_bound(s, f, k);
    if has_key(s, k) {
        let w = choose|i: int| 0 <= i < s.len() && #[trigger] s[i].0 == k;
        assert(t[w].0 == k);
        lemma_lower_bound_at_most(s, k, w);
    }
    if has_key(t, k) {
        let w = choose|i: int| 0 <= i < t.len() && #[trigger] t[i].0 == k;
        assert(s[w].0 == k);
    }
    let p = lower_bound(s, k);
    if has_key(s, k) {
        assert(map_vals(s.update(p, (k, v)), f) =~= t.update(p, (k, f(v))));
    } else {
        assert(map_vals(s.insert(p, (k, v)), f) =~= t.insert(p, (k, f(v))));
    }
}

pub proof fn lemma_map_vals_has_key<V, W>(s: Seq<(Seq<char>, V)>, f: spec_fn(V) -> W, k: Seq<char>)
    ensures
        has_key(map_vals(s, f), k) == has_key(s, k),
{
    if has_key(s, k) {
        let w = choose|i: int| 0 <= i < s.len() && #[trigger] s[i].0 == k;
        assert(map_vals(s, f)[w].0 == k);
    }
    if has_key(map_vals(s, f), k) {
        let w = choose|i: int| 0 <= i < map_vals(s, f).len() && #[trigger] map_vals(s, f)[i].0 == k;
        assert(s[w].0 == k);
    }
}

pub proof fn lemma_map_vals_lookup<V, W>(s: Seq<(Seq<char>, V)>, f: spec_fn(V) -> W, k: Seq<char>)
    requires
        sorted_keys(s),
    ensures
        lookup(map_vals(s, f), k) == match lookup(s, k) {
            Some(v) => Some(f(v)),
            None => None,
        },
{
    lemma_map_vals_has_key(s, f, k);
    lemma_map_vals_lower_bound(s, f, k);
    lemma_lower_bound(s, k);
}

/// The entries of an optional map; none when there is no map.
pub open spec fn opt_entries<V>(m: Option<StrMap<V>>) -> Seq<(Seq<char>, V)> {
    match m {
        Some(x) => x@,
        None => Seq::empty(),
    }
}

/// The map in `m` (or an empty one) with `value` put under `key`.
pub fn insert_into<V>(m: Option<StrMap<V>>, key: String, value: V) -> (r: StrMap<V>)
    ensures
        r@ == map_insert(opt_entries(m), key@, value),
{
    let mut map = match m {
        Some(x) => x,
        None => StrMap::new(),
    };
    map.insert(key, value);
    map
}

impl<V: Clone> Clone for StrMap<V> {
    /// A copy with the same keys, in the same order; each value is cloned.
    fn clone(&self) -> (r: Self)
        ensures
            keys_of(r@) == keys_of(self@),
    {
        proof {
            use_type_invariant(self);
        }
        let mut entries: Vec<(String, V)> = Vec::new();
        let mut i: usize = 0;
        while i < self.entries.len()
            invariant
                0 <= i <= self.entries@.len(),
                entries@.len() == i,
                forall|j: int| 0 <= j < i ==> #[trigger] entries@[j].0@ == self.entries@[j].0@,
            decreases self.entries@.len() - i,
        {
            let e = &self.entries[i];
            entries.push((e.0.clone(), e.1.clone()));
            i = i + 1;
        }
        let ghost rv = entries@.map_values(|e: (String, V)| (e.0@, e.1));
        assert(sorted_keys(rv)) by {
            assert forall|a: int, b: int| 0 <= a < b < rv.len() implies text_lt(
                #[trigger] rv[a].0,
                #[trigger] rv[b].0,
            ) by {
                assert(self@[a].0 == self.entries@[a].0@);
                assert(self@[b].0 == self.entries@[b].0@);
            }
        }
        let r = StrMap { entries };
        assert(keys_of(r@) =~= keys_of(self@)) by {
            assert forall|j: int| 0 <= j < r@.len() implies keys_of(r@)[j] == keys_of(self@)[j] by {
                assert(r@[j].0 == r.entries@[j].0@);
                assert(self@[j].0 == self.entries@[j].0@);
            }
        }
        r
    }
}

} // verus!
