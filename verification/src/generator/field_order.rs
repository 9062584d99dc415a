//! The fields of a leaf record come out in name order, holding exactly the
//! fields of its properties; properties with distinct names give the same
//! fields whatever order they come in.

use crate::description::PType;
use crate::generator::dedup::{insert_field, sort_fields};
use crate::strmap::{lemma_text_lt_irreflexive, lemma_text_lt_total, lemma_text_lt_transitive, text_lt};
use vstd::prelude::*;

verus! {

/// The fields are in name order: no field's name comes before that of a
/// field ahead of it.
pub open spec fn fields_sorted(s: Seq<(Seq<char>, PType, bool)>) -> bool {
    forall|i: int, j: int| 0 <= i < j < s.len() ==> !text_lt(#[trigger] s[j].0, #[trigger] s[i].0)
}

/// The fields are in strictly increasing name order.
pub open spec fn fields_strictly_sorted(s: Seq<(Seq<char>, PType, bool)>) -> bool {
    forall|i: int, j: int| 0 <= i < j < s.len() ==> text_lt(#[trigger] s[i].0, #[trigger] s[j].0)
}

/// No two fields have the same name.
pub open spec fn distinct_names(s: Seq<(Seq<char>, PType, bool)>) -> bool {
    forall|i: int, j: int| 0 <= i < j < s.len() ==> (#[trigger] s[i]).0 != (#[trigger] s[j]).0
}

/// An element of a sequence whose multiset is that of `s` with `x` added
/// is `x` or an element of `s`.
proof fn lemma_from_insert(
    r: Seq<(Seq<char>, PType, bool)>,
    s: Seq<(Seq<char>, PType, bool)>,
    x: (Seq<char>, PType, bool),
    k: int,
)
    requires
        r.to_multiset() == s.to_multiset().insert(x),
        0 <= k < r.len(),
    ensures
        r[k] == x || exists|m: int| 0 <= m < s.len() && s[m] == r[k],
{
    broadcast use vstd::seq_lib::group_to_multiset_ensures;
    broadcast use vstd::multiset::group_multiset_axioms;

    assert(r.contains(r[k]));
    assert(r.to_multiset().count(r[k]) > 0);
    if r[k] != x {
        assert(s.to_multiset().count(r[k]) > 0);
        assert(s.contains(r[k]));
    }
}

/// Putting a field into sorted fields keeps them sorted and adds it to
/// them; into strictly sorted fields without its name, keeps them strictly
/// sorted.
proof fn lemma_insert_field(s: Seq<(Seq<char>, PType, bool)>, x: (Seq<char>, PType, bool))
    requires
        fields_sorted(s),
    ensures
        fields_sorted(insert_field(s, x)),
        insert_field(s, x).to_multiset() == s.to_multiset().insert(x),
        fields_strictly_sorted(s) && (forall|m: int| 0 <= m < s.len() ==> (#[trigger] s[m]).0 != x.0)
            ==> fields_strictly_sorted(insert_field(s, x)),
    decreases s.len(),
{
    broadcast use vstd::seq_lib::group_to_multiset_ensures;

    if s.len() == 0 {
        assert(seq![x] =~= Seq::<(Seq<char>, PType, bool)>::empty().push(x));
    } else {
        let last = s.last();
        let s1 = s.drop_last();
        assert(s =~= s1.push(last));
        if text_lt(x.0, last.0) {
            lemma_insert_field(s1, x);
            let r1 = insert_field(s1, x);
            let r = r1.push(last);
            assert(r == insert_field(s, x));
            assert forall|i: int, j: int| 0 <= i < j < r.len() implies !text_lt(#[trigger] r[j].0, #[trigger] r[i].0) by {
                if j == r1.len() {
                    lemma_from_insert(r1, s1, x, i);
                    if r1[i] == x {
                        if text_lt(last.0, x.0) {
                            lemma_text_lt_transitive(x.0, last.0, x.0);
                            lemma_text_lt_irreflexive(x.0);
                        }
                    } else {
                        let m = choose|m: int| 0 <= m < s1.len() && s1[m] == r1[i];
                        assert(s[m] == r1[i]);
                        assert(s[s.len() - 1] == last);
                    }
                } else {
                    assert(r[i] == r1[i] && r[j] == r1[j]);
                }
            }
            if fields_strictly_sorted(s) && (forall|m: int| 0 <= m < s.len() ==> (#[trigger] s[m]).0 != x.0) {
                assert forall|m: int| 0 <= m < s1.len() implies (#[trigger] s1[m]).0 != x.0 by {
                    assert(s[m] == s1[m]);
                }
                assert forall|i: int, j: int| 0 <= i < j < r.len() implies text_lt(#[trigger] r[i].0, #[trigger] r[j].0) by {
                    if j == r1.len() {
                        lemma_from_insert(r1, s1, x, i);
                        if r1[i] != x {
                            let m = choose|m: int| 0 <= m < s1.len() && s1[m] == r1[i];
                            assert(s[m] == r1[i]);
                            assert(s[s.len() - 1] == last);
                        }
                    } else {
                        assert(r[i] == r1[i] && r[j] == r1[j]);
                    }
                }
            }
        } else {
            let r = s.push(x);
            assert(r == insert_field(s, x));
            assert forall|i: int, j: int| 0 <= i < j < r.len() implies !text_lt(#[trigger] r[j].0, #[trigger] r[i].0) by {
                if j == s.len() {
                    if i < s.len() - 1 && text_lt(x.0, s[i].0) {
                        lemma_text_lt_total(s[i].0, last.0);
                        assert(!text_lt(last.0, s[i].0)) by {
                            assert(s[s.len() - 1] == last);
                        }
                        if text_lt(s[i].0, last.0) {
                            lemma_text_lt_transitive(x.0, s[i].0, last.0);
                        }
                    }
                } else {
                    assert(r[i] == s[i] && r[j] == s[j]);
                }
            }
            if fields_strictly_sorted(s) && (forall|m: int| 0 <= m < s.len() ==> (#[trigger] s[m]).0 != x.0) {
                assert forall|i: int, j: int| 0 <= i < j < r.len() implies text_lt(#[trigger] r[i].0, #[trigger] r[j].0) by {
                    if j == s.len() {
                        assert(s[s.len() - 1] == last);
                        lemma_text_lt_total(last.0, x.0);
                        if i < s.len() - 1 {
                            lemma_text_lt_transitive(s[i].0, last.0, x.0);
                        }
                    } else {
                        assert(r[i] == s[i] && r[j] == s[j]);
                    }
                }
            }
        }
    }
}

/// The fields of a leaf record are in name order and are exactly the
/// fields of its properties; with distinct names, in strictly increasing
/// name order.
pub proof fn lemma_sort_fields(s: Seq<(Seq<char>, PType, bool)>)
    ensures
        fields_sorted(sort_fields(s)),
        sort_fields(s).to_multiset() == s.to_multiset(),
        distinct_names(s) ==> fields_strictly_sorted(sort_fields(s)),
    decreases s.len(),
{
    broadcast use vstd::seq_lib::group_to_multiset_ensures;

    if s.len() == 0 {
        assert(s.to_multiset() =~= vstd::multiset::Multiset::<(Seq<char>, PType, bool)>::empty());
        assert(sort_fields(s).to_multiset() =~= vstd::multiset::Multiset::<(Seq<char>, PType, bool)>::empty());
    } else {
        let s1 = s.drop_last();
        let x = s.last();
        assert(s =~= s1.push(x));
        lemma_sort_fields(s1);
        let r1 = sort_fields(s1);
        lemma_insert_field(r1, x);
        if distinct_names(s) {
            assert forall|i: int, j: int| 0 <= i < j < s1.len() implies (#[trigger] s1[i]).0 != (#[trigger] s1[j]).0 by {
                assert(s[i] == s1[i] && s[j] == s1[j]);
            }
            assert forall|m: int| 0 <= m < r1.len() implies (#[trigger] r1[m]).0 != x.0 by {
                assert(r1.contains(r1[m]));
                assert(s1.to_multiset().count(r1[m]) > 0);
                assert(s1.contains(r1[m]));
                let k = choose|k: int| 0 <= k < s1.len() && s1[k] == r1[m];
                assert(s[k] == s1[k]);
                assert(s[s.len() - 1] == x);
            }
        }
    }
}

/// Fields in strictly increasing name order are fixed by which fields they
/// are.
proof fn lemma_strictly_sorted_unique(a: Seq<(Seq<char>, PType, bool)>, b: Seq<(Seq<char>, PType, bool)>)
    requires
        fields_strictly_sorted(a),
        fields_strictly_sorted(b),
        a.to_multiset() == b.to_multiset(),
    ensures
        a == b,
    decreases a.len(),
{
    broadcast use vstd::seq_lib::group_to_multiset_ensures;

    vstd::seq_lib::to_multiset_len(a);
    vstd::seq_lib::to_multiset_len(b);
    assert(a.len() == b.len());
    if a.len() > 0 {
        let n = a.len() - 1;
        let la = a.last();
        let lb = b.last();
        assert(a.contains(la)) by {
            assert(a[n] == la);
        }
        assert(b.to_multiset().count(la) > 0);
        assert(b.contains(la));
        let k = choose|k: int| 0 <= k < b.len() && b[k] == la;
        assert(b.contains(lb)) by {
            assert(b[n] == lb);
        }
        assert(a.to_multiset().count(lb) > 0);
        assert(a.contains(lb));
        let m = choose|m: int| 0 <= m < a.len() && a[m] == lb;
        if k < n && m < n {
            assert(text_lt(b[k].0, b[n].0));
            assert(text_lt(a[m].0, a[n].0));
            lemma_text_lt_transitive(la.0, lb.0, la.0);
            lemma_text_lt_irreflexive(la.0);
        }
        assert(la == lb);
        let a1 = a.drop_last();
        let b1 = b.drop_last();
        assert(a1 =~= a.remove(n));
        assert(b1 =~= b.remove(n));
        assert(a1.to_multiset() == a.to_multiset().remove(la));
        assert(b1.to_multiset() == b.to_multiset().remove(lb));
        assert forall|i: int, j: int| 0 <= i < j < a1.len() implies text_lt(#[trigger] a1[i].0, #[trigger] a1[j].0) by {
            assert(a1[i] == a[i] && a1[j] == a[j]);
        }
        assert forall|i: int, j: int| 0 <= i < j < b1.len() implies text_lt(#[trigger] b1[i].0, #[trigger] b1[j].0) by {
            assert(b1[i] == b[i] && b1[j] == b[j]);
        }
        lemma_strictly_sorted_unique(a1, b1);
        assert(a =~= a1.push(la));
        assert(b =~= b1.push(lb));
    }
}

/// Properties with distinct names give the same leaf-record fields in
/// whatever order they come: the fields are those of the properties,
/// sorted by name.
pub proof fn lemma_leaf_fields_order_independent(s: Seq<(Seq<char>, PType, bool)>, s2: Seq<(Seq<char>, PType, bool)>)
    requires
        distinct_names(s),
        s.to_multiset() == s2.to_multiset(),
    ensures
        sort_fields(s) == sort_fields(s2),
{
    broadcast use vstd::seq_lib::group_to_multiset_ensures;

    lemma_sort_fields(s);
    lemma_sort_fields(s2);
    assert(distinct_names(s2)) by {
        assert forall|i: int, j: int| 0 <= i < j < s2.len() implies (#[trigger] s2[i]).0 != (#[trigger] s2[j]).0 by {
            if s2[i].0 == s2[j].0 {
                // Both come from `s`, at positions that differ unless the
                // two are the same field, which `s` then holds twice.
                assert(s2.contains(s2[i]));
                assert(s.to_multiset().count(s2[i]) > 0);
                assert(s.contains(s2[i]));
                let p = choose|p: int| 0 <= p < s.len() && s[p] == s2[i];
                assert(s2.contains(s2[j]));
                assert(s.to_multiset().count(s2[j]) > 0);
                assert(s.contains(s2[j]));
                let q = choose|q: int| 0 <= q < s.len() && s[q] == s2[j];
                if p == q {
                    assert(s2[i] == s2[j]);
                    let r = s2.remove(j);
                    assert(r[i] == s2[i]);
                    assert(r.contains(s2[i]));
                    assert(r.to_multiset() == s2.to_multiset().remove(s2[j]));
                    assert(r.to_multiset().count(s2[i]) > 0);
                    let t = s.remove(p);
                    assert(t.to_multiset() == s.to_multiset().remove(s[p]));
                    assert(t.to_multiset().count(s[p]) > 0);
                    assert(t.contains(s[p]));
                    let u = choose|u: int| 0 <= u < t.len() && t[u] == s[p];
                    let v = if u < p { u } else { u + 1 };
                    assert(s[v] == t[u]);
                }
            }
        }
    }
    lemma_strictly_sorted_unique(sort_fields(s), sort_fields(s2));
}

} // verus!
