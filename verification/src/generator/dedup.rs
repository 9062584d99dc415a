//! Finding entity types that several tools define alike, so that they can
//! be generated once, in the lowest namespace that contains all of them.
//!
//! Namespaces are paths of identifiers (outermost first); `None` is the
//! global namespace.

use crate::description::{ptype_view, PType, Parameters, Property, PropertyType, PropertyTypeDef};
use crate::strmap::{text_less, text_lt};
use crate::text::{strings_of, text_eq, u64_to_decimal, decimal};
use vstd::prelude::*;
use vstd::string::StringExecFns;

verus! {

// ---------------------------------------------------------------------------
// Primitive types and leaf records.
// ---------------------------------------------------------------------------
/// A primitive (leaf) type.
pub open spec fn is_primitive_type(pt: PropertyType) -> bool {
    match pt {
        PropertyType::Bool | PropertyType::Integer | PropertyType::Float | PropertyType::Number
        | PropertyType::String | PropertyType::Decimal | PropertyType::Datetime
        | PropertyType::Duration | PropertyType::IpAddr | PropertyType::Null
        | PropertyType::Unknown => true,
        _ => false,
    }
}

/// Whether `pt` is a primitive (leaf) type.
pub fn is_primitive(pt: &PropertyType) -> (r: bool)
    ensures
        r == is_primitive_type(*pt),
{
    match pt {
        PropertyType::Bool | PropertyType::Integer | PropertyType::Float | PropertyType::Number
        | PropertyType::String | PropertyType::Decimal | PropertyType::Datetime
        | PropertyType::Duration | PropertyType::IpAddr | PropertyType::Null
        | PropertyType::Unknown => true,
        _ => false,
    }
}

/// A leaf record: an object with at least one property, all of primitive
/// type, and no `additionalProperties`.
pub open spec fn is_leaf_record_type(pt: PropertyType) -> bool {
    match pt {
        PropertyType::Object { properties, additional_properties } => {
            &&& additional_properties is None
            &&& properties@.len() > 0
            &&& forall|i: int|
                0 <= i < properties@.len() ==> is_primitive_type(#[trigger] properties@[i].prop_type)
        },
        _ => false,
    }
}

/// Whether `p` is a leaf record.
pub fn is_leaf_record(p: &PropertyType) -> (r: bool)
    ensures
        r == is_leaf_record_type(*p),
{
    match p {
        PropertyType::Object { properties, additional_properties } => {
            if additional_properties.is_some() || properties.len() == 0 {
                return false;
            }
            let mut i: usize = 0;
            while i < properties.len()
                invariant
                    0 <= i <= properties@.len(),
                    is_leaf_record_type(*p) <==> (forall|j: int|
                        0 <= j < properties@.len() ==> is_primitive_type(
                            #[trigger] properties@[j].prop_type,
                        )),
                    forall|j: int|
                        0 <= j < i ==> is_primitive_type(#[trigger] properties@[j].prop_type),
                decreases properties@.len() - i,
            {
                if !is_primitive(&properties[i].prop_type) {
                    return false;
                }
                i = i + 1;
            }
            true
        },
        _ => false,
    }
}

// ---------------------------------------------------------------------------
// Fingerprints.
// ---------------------------------------------------------------------------
/// What identifies the definition of an entity type: two entity types are
/// candidates for deduplication exactly when their fingerprints are equal.
#[derive(Debug, Hash)]
pub enum EntityTypeFingerprint {
    /// An enum: its name and its variants, in order.
    Enum { base_name: String, variants: Vec<String> },
    /// A leaf record: its name and its fields (name, type, required),
    /// sorted by name.
    LeafRecord { base_name: String, fields: Vec<(String, PropertyType, bool)> },
}

/// The content of a fingerprint.
pub enum FingerprintView {
    Enum(Seq<char>, Seq<Seq<char>>),
    LeafRecord(Seq<char>, Seq<(Seq<char>, PType, bool)>),
}

/// The content of a field.
pub open spec fn field_view(f: (String, PropertyType, bool)) -> (Seq<char>, PType, bool) {
    (f.0@, ptype_view(f.1), f.2)
}

/// The contents of a list of fields.
pub open spec fn fields_view(s: Seq<(String, PropertyType, bool)>) -> Seq<(Seq<char>, PType, bool)> {
    s.map_values(|f: (String, PropertyType, bool)| field_view(f))
}

impl View for EntityTypeFingerprint {
    type V = FingerprintView;

    open spec fn view(&self) -> FingerprintView {
        match self {
            EntityTypeFingerprint::Enum { base_name, variants } => FingerprintView::Enum(
                base_name@,
                strings_of(variants@),
            ),
            EntityTypeFingerprint::LeafRecord { base_name, fields } => FingerprintView::LeafRecord(
                base_name@,
                fields_view(fields@),
            ),
        }
    }
}

/// The fields of a list of properties: name, type and whether required.
pub open spec fn prop_fields(props: Seq<Property>) -> Seq<(Seq<char>, PType, bool)> {
    props.map_values(|p: Property| (p.name@, ptype_view(p.prop_type), p.required))
}

/// `x` put into the sorted `s`, after every field whose name is not
/// greater than its name.
pub open spec fn insert_field(s: Seq<(Seq<char>, PType, bool)>, x: (Seq<char>, PType, bool)) -> Seq<
    (Seq<char>, PType, bool),
>
    decreases s.len(),
{
    if s.len() == 0 {
        seq![x]
    } else if text_lt(x.0, s.last().0) {
        insert_field(s.drop_last(), x).push(s.last())
    } else {
        s.push(x)
    }
}

/// The fields sorted by name; fields with equal names keep their order.
pub open spec fn sort_fields(s: Seq<(Seq<char>, PType, bool)>) -> Seq<(Seq<char>, PType, bool)>
    decreases s.len(),
{
    if s.len() == 0 {
        Seq::empty()
    } else {
        insert_field(sort_fields(s.drop_last()), s.last())
    }
}

/// Puts `x` into the sorted list `v`, after every field whose name is not
/// greater than its name.
fn insert_sorted_field(v: &mut Vec<(String, PropertyType, bool)>, x: (String, PropertyType, bool))
    ensures
        fields_view(final(v)@) == insert_field(fields_view(old(v)@), field_view(x)),
{
    let ghost s = fields_view(v@);
    let ghost fx = field_view(x);
    let mut j: usize = v.len();
    assert(s.subrange(0, j as int) =~= s);
    assert(s.subrange(j as int, s.len() as int) =~= Seq::<(Seq<char>, PType, bool)>::empty());
    while j > 0 && text_less(x.0.as_str(), v[j - 1].0.as_str())
        invariant
            0 <= j <= v@.len(),
            s == fields_view(v@),
            fx == field_view(x),
            insert_field(s, fx) == insert_field(s.subrange(0, j as int), fx) + s.subrange(
                j as int,
                s.len() as int,
            ),
        decreases j,
    {
        proof {
            let p = s.subrange(0, j as int);
            assert(p.last() == s[j - 1]);
            assert(p.drop_last() =~= s.subrange(0, j - 1));
            assert(insert_field(p, fx) == insert_field(s.subrange(0, j - 1), fx).push(s[j - 1]));
            assert(insert_field(s.subrange(0, j - 1), fx).push(s[j - 1]) + s.subrange(
                j as int,
                s.len() as int,
            ) =~= insert_field(s.subrange(0, j - 1), fx) + s.subrange(j - 1, s.len() as int));
        }
        j = j - 1;
    }
    proof {
        let p = s.subrange(0, j as int);
        if j > 0 {
            assert(p.last() == s[j - 1]);
        }
        assert(insert_field(p, fx) == p.push(fx));
    }
    let ghost before = v@;
    v.insert(j, x);
    proof {
        assert(fields_view(v@) =~= s.subrange(0, j as int).push(fx) + s.subrange(
            j as int,
            s.len() as int,
        )) by {
            assert(v@ == before.insert(j as int, x));
        }
    }
}

impl EntityTypeFingerprint {
    /// The name of the entity type.
    pub fn base_name(&self) -> (r: &String)
        ensures
            r@ == match self@ {
                FingerprintView::Enum(b, _) => b,
                FingerprintView::LeafRecord(b, _) => b,
            },
    {
        match self {
            EntityTypeFingerprint::Enum { base_name, .. } => base_name,
            EntityTypeFingerprint::LeafRecord { base_name, .. } => base_name,
        }
    }

    /// The fingerprint of a leaf record named `base_name` with the
    /// properties `props`: its fields sorted by name.
    pub fn new_leaf_record(base_name: String, props: &[Property]) -> (r: EntityTypeFingerprint)
        ensures
            r@ == FingerprintView::LeafRecord(base_name@, sort_fields(prop_fields(props@))),
    {
        let ghost ps = prop_fields(props@);
        let mut fields: Vec<(String, PropertyType, bool)> = Vec::new();
        let mut i: usize = 0;
        assert(ps.take(0) =~= Seq::<(Seq<char>, PType, bool)>::empty());
        while i < props.len()
            invariant
                0 <= i <= props@.len(),
                ps == prop_fields(props@),
                fields_view(fields@) == sort_fields(ps.take(i as int)),
            decreases props@.len() - i,
        {
            let p = &props[i];
            let f = (p.name.clone(), p.prop_type.deep_copy(), p.required);
            proof {
                assert(ps.take(i + 1).drop_last() =~= ps.take(i as int));
                assert(ps.take(i + 1).last() == field_view(f));
            }
            insert_sorted_field(&mut fields, f);
            i = i + 1;
        }
        assert(ps.take(props@.len() as int) =~= ps);
        EntityTypeFingerprint::LeafRecord { base_name, fields }
    }

    /// Whether two fingerprints are equal.
    pub fn same_as(&self, other: &EntityTypeFingerprint) -> (r: bool)
        ensures
            r == (self@ == other@),
    {
        match (self, other) {
            (
                EntityTypeFingerprint::Enum { base_name: a, variants: va },
                EntityTypeFingerprint::Enum { base_name: b, variants: vb },
            ) => text_eq(a.as_str(), b.as_str()) && same_strings(va, vb),
            (
                EntityTypeFingerprint::LeafRecord { base_name: a, fields: fa },
                EntityTypeFingerprint::LeafRecord { base_name: b, fields: fb },
            ) => {
                if !text_eq(a.as_str(), b.as_str()) || fa.len() != fb.len() {
                    assert(a@ != b@ || fields_view(fa@).len() != fields_view(fb@).len());
                    return false;
                }
                let mut i: usize = 0;
                while i < fa.len()
                    invariant
                        0 <= i <= fa@.len(),
                        fa@.len() == fb@.len(),
                        self@ == FingerprintView::LeafRecord(a@, fields_view(fa@)),
                        other@ == FingerprintView::LeafRecord(b@, fields_view(fb@)),
                        forall|j: int|
                            0 <= j < i ==> field_view(#[trigger] fa@[j]) == field_view(fb@[j]),
                    decreases fa@.len() - i,
                {
                    let x = &fa[i];
                    let y = &fb[i];
                    if !(text_eq(x.0.as_str(), y.0.as_str()) && x.1.same_as(&y.1) && x.2 == y.2) {
                        assert(fields_view(fa@)[i as int] != fields_view(fb@)[i as int]);
                        return false;
                    }
                    i = i + 1;
                }
                assert(fields_view(fa@) =~= fields_view(fb@));
                true
            },
            _ => false,
        }
    }
}

/// Whether two lists of strings hold the same texts.
pub(crate) fn same_strings(a: &Vec<String>, b: &Vec<String>) -> (r: bool)
    ensures
        r == (strings_of(a@) == strings_of(b@)),
{
    if a.len() != b.len() {
        assert(strings_of(a@).len() != strings_of(b@).len());
        return false;
    }
    let mut i: usize = 0;
    while i < a.len()
        invariant
            0 <= i <= a@.len(),
            a@.len() == b@.len(),
            forall|j: int| 0 <= j < i ==> (#[trigger] a@[j])@ == b@[j]@,
        decreases a@.len() - i,
    {
        if !text_eq(a[i].as_str(), b[i].as_str()) {
            assert(strings_of(a@)[i as int] != strings_of(b@)[i as int]);
            return false;
        }
        i = i + 1;
    }
    assert(strings_of(a@) =~= strings_of(b@));
    true
}

// ---------------------------------------------------------------------------
// Namespaces and the lowest common namespace.
// ---------------------------------------------------------------------------
/// The texts of a namespace path.
pub open spec fn ns_view(n: Option<Vec<String>>) -> Option<Seq<Seq<char>>> {
    match n {
        Some(v) => Some(strings_of(v@)),
        None => None,
    }
}

/// The texts of a list of namespace paths.
pub open spec fn ns_list_view(s: Seq<Option<Vec<String>>>) -> Seq<Option<Seq<Seq<char>>>> {
    s.map_values(|n: Option<Vec<String>>| ns_view(n))
}

/// A copy of a list of strings.
pub fn copy_strings(v: &Vec<String>) -> (r: Vec<String>)
    ensures
        r@ == v@,
{
    let mut out: Vec<String> = Vec::new();
    let mut i: usize = 0;
    while i < v.len()
        invariant
            0 <= i <= v@.len(),
            out@ == v@.take(i as int),
        decreases v@.len() - i,
    {
        out.push(v[i].clone());
        assert(v@.take(i + 1) =~= v@.take(i as int).push(v@[i as int]));
        i = i + 1;
    }
    assert(v@.take(v@.len() as int) =~= v@);
    out
}

/// A copy of a namespace path.
pub fn copy_namespace(n: &Option<Vec<String>>) -> (r: Option<Vec<String>>)
    ensures
        ns_view(r) == ns_view(*n),
{
    match n {
        Some(v) => Some(copy_strings(v)),
        None => None,
    }
}

/// Every path has at least `k` segments, and agrees with `first` on the
/// first `k`.
pub open spec fn common_prefix(paths: Seq<Seq<Seq<char>>>, first: Seq<Seq<char>>, k: int) -> bool {
    &&& 0 <= k <= first.len()
    &&& forall|j: int|
        0 <= j < paths.len() ==> k <= (#[trigger] paths[j]).len() && paths[j].subrange(0, k)
            == first.subrange(0, k)
}

/// The length of the longest common prefix of the paths, counting from `i`.
pub open spec fn prefix_len_from(paths: Seq<Seq<Seq<char>>>, first: Seq<Seq<char>>, i: int) -> int
    decreases first.len() - i,
{
    if 0 <= i < first.len() && forall|j: int|
        0 <= j < paths.len() ==> i < (#[trigger] paths[j]).len() && paths[j][i] == first[i] {
        prefix_len_from(paths, first, i + 1)
    } else {
        i
    }
}

/// The paths of a list of namespaces, none of them global.
pub open spec fn some_paths(ns: Seq<Option<Seq<Seq<char>>>>) -> Seq<Seq<Seq<char>>> {
    ns.map_values(|n: Option<Seq<Seq<char>>>| n->Some_0)
}

/// The lowest common namespace of a list of namespaces: their longest
/// common path prefix; the global namespace when the list is empty, when
/// one of them is global, or when they share no prefix.
pub open spec fn spec_lca(ns: Seq<Option<Seq<Seq<char>>>>) -> Option<Seq<Seq<char>>> {
    if ns.len() == 0 || exists|j: int| 0 <= j < ns.len() && (#[trigger] ns[j]) is None {
        None
    } else {
        let paths = some_paths(ns);
        let k = prefix_len_from(paths, paths[0], 0);
        if k == 0 {
            None
        } else {
            Some(paths[0].subrange(0, k))
        }
    }
}

/// The longest common prefix of the paths, counting from `i`: the prefix
/// before `prefix_len_from` is common, and no longer prefix is.
pub proof fn lemma_prefix_len_from(paths: Seq<Seq<Seq<char>>>, first: Seq<Seq<char>>, i: int)
    requires
        0 <= i <= first.len(),
        common_prefix(paths, first, i),
    ensures
        i <= prefix_len_from(paths, first, i) <= first.len(),
        common_prefix(paths, first, prefix_len_from(paths, first, i)),
        forall|k: int|
            prefix_len_from(paths, first, i) < k <= first.len() ==> !common_prefix(paths, first, k),
    decreases first.len() - i,
{
    let n = prefix_len_from(paths, first, i);
    if 0 <= i < first.len() && forall|j: int|
        0 <= j < paths.len() ==> i < (#[trigger] paths[j]).len() && paths[j][i] == first[i] {
        assert(common_prefix(paths, first, i + 1)) by {
            assert forall|j: int| 0 <= j < paths.len() implies i + 1 <= (#[trigger] paths[j]).len()
                && paths[j].subrange(0, i + 1) == first.subrange(0, i + 1) by {
                assert(paths[j].subrange(0, i) == first.subrange(0, i));
                assert(paths[j].subrange(0, i + 1) =~= paths[j].subrange(0, i).push(paths[j][i]));
                assert(first.subrange(0, i + 1) =~= first.subrange(0, i).push(first[i]));
            }
        }
        lemma_prefix_len_from(paths, first, i + 1);
    } else {
        assert forall|k: int| n < k <= first.len() implies !common_prefix(paths, first, k) by {
            if common_prefix(paths, first, k) {
                assert forall|j: int| 0 <= j < paths.len() implies i < (#[trigger] paths[j]).len()
                    && paths[j][i] == first[i] by {
                    assert(paths[j].subrange(0, k)[i] == first.subrange(0, k)[i]);
                }
            }
        }
    }
}

/// `q` is a prefix of the path `p`.
pub open spec fn is_path_prefix(q: Seq<Seq<char>>, p: Seq<Seq<char>>) -> bool {
    q.len() <= p.len() && p.subrange(0, q.len() as int) == q
}

/// The lowest common namespace of namespaces none of which is global is
/// their longest common path prefix: it is a prefix of each of them, and
/// no longer path is; it is the global namespace exactly when they share
/// no first segment.
pub proof fn lemma_lca_is_longest_common_prefix(ns: Seq<Option<Seq<Seq<char>>>>)
    requires
        ns.len() > 0,
        forall|j: int| 0 <= j < ns.len() ==> (#[trigger] ns[j]) is Some,
    ensures
        match spec_lca(ns) {
            Some(p) => {
                &&& p.len() > 0
                &&& forall|j: int| 0 <= j < ns.len() ==> is_path_prefix(p, #[trigger] ns[j]->Some_0)
                &&& forall|q: Seq<Seq<char>>|
                    q.len() > p.len() ==> exists|j: int|
                        0 <= j < ns.len() && !is_path_prefix(q, #[trigger] ns[j]->Some_0)
            },
            None => forall|q: Seq<Seq<char>>|
                q.len() > 0 ==> exists|j: int|
                    0 <= j < ns.len() && !is_path_prefix(q, #[trigger] ns[j]->Some_0),
        },
{
    let paths = some_paths(ns);
    let first = paths[0];
    assert forall|j: int| 0 <= j < ns.len() implies paths[j] == (#[trigger] ns[j])->Some_0 by {}
    assert(common_prefix(paths, first, 0)) by {
        assert forall|j: int| 0 <= j < paths.len() implies 0 <= (#[trigger] paths[j]).len()
            && paths[j].subrange(0, 0) == first.subrange(0, 0) by {
            assert(paths[j].subrange(0, 0) =~= first.subrange(0, 0));
        }
    }
    lemma_prefix_len_from(paths, first, 0);
    let k = prefix_len_from(paths, first, 0);
    assert(!exists|j: int| 0 <= j < ns.len() && (#[trigger] ns[j]) is None);
    // A longer common prefix would be a common prefix of `first`.
    assert forall|q: Seq<Seq<char>>| q.len() > k implies exists|j: int|
        0 <= j < ns.len() && !is_path_prefix(q, #[trigger] ns[j]->Some_0) by {
        if forall|j: int| 0 <= j < ns.len() ==> is_path_prefix(q, #[trigger] ns[j]->Some_0) {
            assert(is_path_prefix(q, ns[0]->Some_0));
            assert(q == first.subrange(0, q.len() as int));
            assert(common_prefix(paths, first, q.len() as int)) by {
                assert forall|j: int| 0 <= j < paths.len() implies q.len() <= (
                #[trigger] paths[j]).len() && paths[j].subrange(0, q.len() as int) == first.subrange(
                    0,
                    q.len() as int,
                ) by {
                    assert(is_path_prefix(q, ns[j]->Some_0));
                }
            }
        }
    }
    if k > 0 {
        let p = first.subrange(0, k);
        assert forall|j: int| 0 <= j < ns.len() implies is_path_prefix(p, #[trigger] ns[j]->Some_0) by {
            assert(paths[j].subrange(0, k) == first.subrange(0, k));
        }
    }
}

/// The lowest common namespace does not depend on the order of the
/// namespaces, nor on how often each occurs: two lists with the same
/// namespaces have the same one.
pub proof fn lemma_lca_order_independent(ns: Seq<Option<Seq<Seq<char>>>>, ns2: Seq<Option<Seq<Seq<char>>>>)
    requires
        forall|j: int| 0 <= j < ns.len() ==> ns2.contains(#[trigger] ns[j]),
        forall|j: int| 0 <= j < ns2.len() ==> ns.contains(#[trigger] ns2[j]),
    ensures
        spec_lca(ns) == spec_lca(ns2),
{
    if ns.len() == 0 || ns2.len() == 0 {
        if ns.len() > 0 {
            assert(ns2.contains(ns[0]));
        }
        if ns2.len() > 0 {
            assert(ns.contains(ns2[0]));
        }
    } else if exists|j: int| 0 <= j < ns.len() && (#[trigger] ns[j]) is None {
        let j = choose|j: int| 0 <= j < ns.len() && (#[trigger] ns[j]) is None;
        assert(ns2.contains(ns[j]));
    } else if exists|j: int| 0 <= j < ns2.len() && (#[trigger] ns2[j]) is None {
        let j = choose|j: int| 0 <= j < ns2.len() && (#[trigger] ns2[j]) is None;
        assert(ns.contains(ns2[j]));
        let k = choose|k: int| 0 <= k < ns.len() && ns[k] == ns2[j];
        assert(ns[k] is None);
    } else {
        lemma_lca_is_longest_common_prefix(ns);
        lemma_lca_is_longest_common_prefix(ns2);
        match (spec_lca(ns), spec_lca(ns2)) {
            (Some(p), Some(p2)) => {
                if p.len() > p2.len() {
                    let j = choose|j: int| 0 <= j < ns2.len() && !is_path_prefix(p, #[trigger] ns2[j]->Some_0);
                    assert(ns.contains(ns2[j]));
                    let k = choose|k: int| 0 <= k < ns.len() && ns[k] == ns2[j];
                    assert(is_path_prefix(p, ns[k]->Some_0));
                }
                if p2.len() > p.len() {
                    let j = choose|j: int| 0 <= j < ns.len() && !is_path_prefix(p2, #[trigger] ns[j]->Some_0);
                    assert(ns2.contains(ns[j]));
                    let k = choose|k: int| 0 <= k < ns2.len() && ns2[k] == ns[j];
                    assert(is_path_prefix(p2, ns2[k]->Some_0));
                }
                assert(is_path_prefix(p, ns[0]->Some_0));
                assert(is_path_prefix(p2, ns[0]->Some_0));
                assert(p =~= p2);
            },
            (Some(p), None) => {
                let j = choose|j: int| 0 <= j < ns2.len() && !is_path_prefix(p, #[trigger] ns2[j]->Some_0);
                assert(ns.contains(ns2[j]));
                let k = choose|k: int| 0 <= k < ns.len() && ns[k] == ns2[j];
                assert(is_path_prefix(p, ns[k]->Some_0));
            },
            (None, Some(p2)) => {
                let j = choose|j: int| 0 <= j < ns.len() && !is_path_prefix(p2, #[trigger] ns[j]->Some_0);
                assert(ns2.contains(ns[j]));
                let k = choose|k: int| 0 <= k < ns2.len() && ns2[k] == ns[j];
                assert(is_path_prefix(p2, ns2[k]->Some_0));
            },
            (None, None) => {},
        }
    }
}

/// The lowest common namespace of a list of namespaces.
pub fn compute_lca(namespaces: &[Option<Vec<String>>]) -> (r: Option<Vec<String>>)
    ensures
        ns_view(r) == spec_lca(ns_list_view(namespaces@)),
{
    let ghost ns = ns_list_view(namespaces@);
    if namespaces.len() == 0 {
        return None;
    }
    let mut j: usize = 0;
    while j < namespaces.len()
        invariant
            0 <= j <= namespaces@.len(),
            ns == ns_list_view(namespaces@),
            forall|k: int| 0 <= k < j ==> (#[trigger] namespaces@[k]) is Some,
        decreases namespaces@.len() - j,
    {
        if namespaces[j].is_none() {
            assert(ns[j as int] is None);
            return None;
        }
        j = j + 1;
    }
    let ghost paths = some_paths(ns);
    assert forall|k: int| 0 <= k < paths.len() implies #[trigger] paths[k] == strings_of(
        namespaces@[k]->Some_0@,
    ) by {}
    let first = match &namespaces[0] {
        Some(p) => p,
        None => {
            return None;
        },
    };
    assert(paths[0] == strings_of(first@));
    let mut prefix_len: usize = 0;
    proof {
        assert(common_prefix(paths, paths[0], 0)) by {
            assert forall|k: int| 0 <= k < paths.len() implies 0 <= (#[trigger] paths[k]).len()
                && paths[k].subrange(0, 0) == paths[0].subrange(0, 0) by {
                assert(paths[k].subrange(0, 0) =~= paths[0].subrange(0, 0));
            }
        }
        lemma_prefix_len_from(paths, paths[0], 0);
    }
    while prefix_len < first.len()
        invariant
            0 <= prefix_len <= first@.len(),
            paths == some_paths(ns),
            ns == ns_list_view(namespaces@),
            paths.len() == namespaces@.len(),
            paths[0] == strings_of(first@),
            forall|k: int| 0 <= k < paths.len() ==> #[trigger] paths[k] == strings_of(
                namespaces@[k]->Some_0@,
            ),
            forall|k: int| 0 <= k < namespaces@.len() ==> (#[trigger] namespaces@[k]) is Some,
            prefix_len_from(paths, paths[0], 0) == prefix_len_from(
                paths,
                paths[0],
                prefix_len as int,
            ),
        ensures
            0 <= prefix_len <= first@.len(),
            prefix_len_from(paths, paths[0], 0) == prefix_len as int,
        decreases first@.len() - prefix_len,
    {
        let segment = first[prefix_len].as_str();
        let mut all_agree = true;
        let mut j: usize = 0;
        while j < namespaces.len()
            invariant
                0 <= j <= namespaces@.len(),
                0 <= prefix_len < first@.len(),
                paths.len() == namespaces@.len(),
                paths[0] == strings_of(first@),
                segment@ == paths[0][prefix_len as int],
                forall|k: int| 0 <= k < paths.len() ==> #[trigger] paths[k] == strings_of(
                    namespaces@[k]->Some_0@,
                ),
                forall|k: int| 0 <= k < namespaces@.len() ==> (#[trigger] namespaces@[k]) is Some,
                all_agree == (forall|k: int|
                    0 <= k < j ==> prefix_len < (#[trigger] paths[k]).len() && paths[k][prefix_len as int]
                        == paths[0][prefix_len as int]),
            decreases namespaces@.len() - j,
        {
            let agrees = match &namespaces[j] {
                Some(p) => prefix_len < p.len() && text_eq(p[prefix_len].as_str(), segment),
                None => false,
            };
            proof {
                assert(paths[j as int] == strings_of(namespaces@[j as int]->Some_0@));
            }
            all_agree = all_agree && agrees;
            j = j + 1;
        }
        if !all_agree {
            break;
        }
        prefix_len = prefix_len + 1;
    }
    assert forall|k: int| 0 <= k < ns.len() implies (#[trigger] ns[k]) is Some by {
        assert(namespaces@[k] is Some);
    }
    if prefix_len == 0 {
        return None;
    }
    let mut out: Vec<String> = Vec::new();
    let mut i: usize = 0;
    while i < prefix_len
        invariant
            0 <= i <= prefix_len <= first@.len(),
            strings_of(out@) == strings_of(first@).subrange(0, i as int),
        decreases prefix_len - i,
    {
        let seg = first[i].clone();
        proof {
            crate::text::lemma_strings_of_push(out@, seg);
        }
        out.push(seg);
        assert(strings_of(first@).subrange(0, i + 1) =~= strings_of(first@).subrange(
            0,
            i as int,
        ).push(first@[i as int]@));
        i = i + 1;
    }
    Some(out)
}

// ---------------------------------------------------------------------------
// The deduplication map.
// ---------------------------------------------------------------------------
/// The records of a deduplication map: each fingerprint, with the
/// namespaces it was seen in.
pub open spec fn occurrences_view(s: Seq<(EntityTypeFingerprint, Vec<Option<Vec<String>>>)>) -> Seq<
    (FingerprintView, Seq<Option<Seq<Seq<char>>>>),
> {
    s.map_values(
        |e: (EntityTypeFingerprint, Vec<Option<Vec<String>>>)| (e.0@, ns_list_view(e.1@)),
    )
}

/// No fingerprint is recorded twice.
pub open spec fn distinct_fingerprints(m: Seq<(FingerprintView, Seq<Option<Seq<Seq<char>>>>)>) -> bool {
    forall|i: int, j: int| 0 <= i < j < m.len() ==> (#[trigger] m[i]).0 != (#[trigger] m[j]).0
}

/// The records after `f` was seen in namespace `n`: the namespace is added
/// to the record of `f`, or a new record is made for `f`.
pub open spec fn record_occurrence(
    m: Seq<(FingerprintView, Seq<Option<Seq<Seq<char>>>>)>,
    f: FingerprintView,
    n: Option<Seq<Seq<char>>>,
) -> Seq<(FingerprintView, Seq<Option<Seq<Seq<char>>>>)> {
    if exists|i: int| 0 <= i < m.len() && (#[trigger] m[i]).0 == f {
        let i = choose|i: int| 0 <= i < m.len() && (#[trigger] m[i]).0 == f;
        m.update(i, (f, m[i].1.push(n)))
    } else {
        m.push((f, seq![n]))
    }
}

/// The records after each occurrence of `rs` was recorded, in order.
pub open spec fn record_all(
    m: Seq<(FingerprintView, Seq<Option<Seq<Seq<char>>>>)>,
    rs: Seq<(FingerprintView, Option<Seq<Seq<char>>>)>,
) -> Seq<(FingerprintView, Seq<Option<Seq<Seq<char>>>>)>
    decreases rs.len(),
{
    if rs.len() == 0 {
        m
    } else {
        record_occurrence(record_all(m, rs.drop_last()), rs.last().0, rs.last().1)
    }
}

/// Recording an occurrence keeps each fingerprint of the records, and may
/// add the one recorded.
pub proof fn lemma_record_occurrence_keys(
    m: Seq<(FingerprintView, Seq<Option<Seq<Seq<char>>>>)>,
    f: FingerprintView,
    n: Option<Seq<Seq<char>>>,
)
    ensures
        forall|x: int|
            0 <= x < record_occurrence(m, f, n).len() ==> (#[trigger] record_occurrence(m, f, n)[x]).0 == f
                || (x < m.len() && record_occurrence(m, f, n)[x].0 == m[x].0),
{
    let r = record_occurrence(m, f, n);
    if exists|k: int| 0 <= k < m.len() && (#[trigger] m[k]).0 == f {
        assert forall|x: int| 0 <= x < r.len() implies (#[trigger] r[x]).0 == f || (x < m.len() && r[x].0 == m[x].0) by {
            assert(r.len() == m.len());
        }
    } else {
        assert(r == m.push((f, seq![n])));
        assert forall|x: int| 0 <= x < r.len() implies (#[trigger] r[x]).0 == f || (x < m.len() && r[x].0 == m[x].0) by {
            if x < m.len() {
                assert(r[x] == m[x]);
            }
        }
    }
}

/// Recording one occurrence.
pub proof fn lemma_record_all_one(
    m: Seq<(FingerprintView, Seq<Option<Seq<Seq<char>>>>)>,
    x: (FingerprintView, Option<Seq<Seq<char>>>),
)
    ensures
        record_all(m, seq![x]) == record_occurrence(m, x.0, x.1),
{
    let rs = seq![x];
    assert(rs.drop_last() =~= Seq::<(FingerprintView, Option<Seq<Seq<char>>>)>::empty());
    assert(record_all(m, rs.drop_last()) == m);
    assert(rs.last() == x);
}

/// Recording two lists of occurrences records the first, then the second.
pub proof fn lemma_record_all_add(
    m: Seq<(FingerprintView, Seq<Option<Seq<Seq<char>>>>)>,
    a: Seq<(FingerprintView, Option<Seq<Seq<char>>>)>,
    b: Seq<(FingerprintView, Option<Seq<Seq<char>>>)>,
)
    ensures
        record_all(m, a + b) == record_all(record_all(m, a), b),
    decreases b.len(),
{
    if b.len() == 0 {
        assert(a + b =~= a);
    } else {
        assert((a + b).drop_last() =~= a + b.drop_last());
        assert((a + b).last() == b.last());
        lemma_record_all_add(m, a, b.drop_last());
    }
}

/// Where each fingerprint was seen. Each fingerprint has one record.
#[derive(Debug)]
pub struct DeduplicationMap {
    occurrences: Vec<(EntityTypeFingerprint, Vec<Option<Vec<String>>>)>,
}

/// Where a deduplicated entity type goes, and where it came from.
#[derive(Debug)]
pub struct DeduplicatedEntityType {
    /// The lowest common namespace, where the shared entity type goes.
    pub lca_namespace: Option<Vec<String>>,
    /// The namespaces where the entity type was seen.
    pub source_namespaces: Vec<Option<Vec<String>>>,
}

/// The fingerprints seen more than once, each with the lowest common
/// namespace of the namespaces it was seen in, and those namespaces.
pub open spec fn duplicates(m: Seq<(FingerprintView, Seq<Option<Seq<Seq<char>>>>)>) -> Seq<
    (FingerprintView, Option<Seq<Seq<char>>>, Seq<Option<Seq<Seq<char>>>>),
>
    decreases m.len(),
{
    if m.len() == 0 {
        Seq::empty()
    } else if m.last().1.len() > 1 {
        duplicates(m.drop_last()).push((m.last().0, spec_lca(m.last().1), m.last().1))
    } else {
        duplicates(m.drop_last())
    }
}

/// Each entity type that deduplication places was seen in more than one
/// namespace, goes to the lowest common namespace of those namespaces,
/// and keeps the list of them that the map holds for it.
pub proof fn lemma_duplicates_were_seen_twice(
    m: Seq<(FingerprintView, Seq<Option<Seq<Seq<char>>>>)>,
    i: int,
)
    requires
        0 <= i < duplicates(m).len(),
    ensures
        duplicates(m)[i].2.len() > 1,
        duplicates(m)[i].1 == spec_lca(duplicates(m)[i].2),
        exists|j: int| 0 <= j < m.len() && (#[trigger] m[j]) == (duplicates(m)[i].0, duplicates(m)[i].2),
    decreases m.len(),
{
    let d = duplicates(m);
    let rest = duplicates(m.drop_last());
    if m.last().1.len() > 1 && i == d.len() - 1 {
        assert(m[m.len() - 1] == m.last());
    } else {
        assert(d[i] == rest[i]);
        lemma_duplicates_were_seen_twice(m.drop_last(), i);
        let j = choose|j: int|
            0 <= j < m.drop_last().len() && (#[trigger] m.drop_last()[j]) == (rest[i].0, rest[i].2);
        assert(m[j] == m.drop_last()[j]);
    }
}

impl DeduplicationMap {
    pub closed spec fn spec_occurrences(&self) -> Seq<(FingerprintView, Seq<Option<Seq<Seq<char>>>>)> {
        occurrences_view(self.occurrences@)
    }

    #[verifier::type_invariant]
    closed spec fn wf(self) -> bool {
        distinct_fingerprints(self.spec_occurrences())
    }

    /// An empty map.
    pub fn new() -> (r: Self)
        ensures
            r@ == Seq::<(FingerprintView, Seq<Option<Seq<Seq<char>>>>)>::empty(),
    {
        let r = DeduplicationMap { occurrences: Vec::new() };
        assert(r.spec_occurrences() =~= Seq::<(FingerprintView, Seq<Option<Seq<Seq<char>>>>)>::empty());
        r
    }

    /// Records that `fingerprint` was seen in `namespace`.
    pub fn record(&mut self, fingerprint: EntityTypeFingerprint, namespace: Option<Vec<String>>)
        ensures
            final(self)@ == record_occurrence(old(self)@, fingerprint@, ns_view(namespace)),
    {
        proof {
            use_type_invariant(&*self);
        }
        let ghost m = self@;
        let ghost f = fingerprint@;
        let ghost n = ns_view(namespace);
        let mut i: usize = 0;
        while i < self.occurrences.len() && !self.occurrences[i].0.same_as(&fingerprint)
            invariant
                0 <= i <= self.occurrences@.len(),
                m == self@,
                m == occurrences_view(self.occurrences@),
                f == fingerprint@,
                forall|j: int| 0 <= j < i ==> (#[trigger] m[j]).0 != f,
            decreases self.occurrences@.len() - i,
        {
            assert(m[i as int].0 == self.occurrences@[i as int].0@);
            i = i + 1;
        }
        let mut occ = Vec::new();
        std::mem::swap(&mut occ, &mut self.occurrences);
        let ghost before = occ@;
        if i < occ.len() {
            proof {
                assert(m[i as int].0 == f);
                assert(exists|k: int| 0 <= k < m.len() && (#[trigger] m[k]).0 == f);
                let c = choose|k: int| 0 <= k < m.len() && (#[trigger] m[k]).0 == f;
                if c != i {
                    if c < i {
                    } else {
                        assert(m[i as int].0 != m[c].0);
                    }
                }
            }
            let (fp, mut nss) = occ.remove(i);
            let ghost old_nss = nss@;
            nss.push(namespace);
            occ.insert(i, (fp, nss));
            proof {
                assert(ns_list_view(nss@) =~= ns_list_view(old_nss).push(n));
                assert(occurrences_view(occ@) =~= m.update(i as int, (f, m[i as int].1.push(n))));
            }
        } else {
            proof {
                assert(!exists|k: int| 0 <= k < m.len() && (#[trigger] m[k]).0 == f);
            }
            let nss = vec![namespace];
            occ.push((fingerprint, nss));
            proof {
                assert(ns_list_view(nss@) =~= seq![n]);
                assert(occurrences_view(occ@) =~= m.push((f, seq![n])));
            }
        }
        proof {
            let r = occurrences_view(occ@);
            assert(r == record_occurrence(m, f, n));
            assert(distinct_fingerprints(r)) by {
                assert forall|a: int, b: int| 0 <= a < b < r.len() implies (#[trigger] r[a]).0 != (
                #[trigger] r[b]).0 by {
                    if a < m.len() && b < m.len() {
                        assert(r[a].0 == m[a].0 && r[b].0 == m[b].0);
                    }
                }
            }
        }
        self.occurrences = occ;
    }
}

impl View for DeduplicationMap {
    type V = Seq<(FingerprintView, Seq<Option<Seq<Seq<char>>>>)>;

    open spec fn view(&self) -> Seq<(FingerprintView, Seq<Option<Seq<Seq<char>>>>)> {
        self.spec_occurrences()
    }
}

impl EntityTypeFingerprint {
    /// A copy of the fingerprint.
    pub fn deep_copy(&self) -> (r: EntityTypeFingerprint)
        ensures
            r@ == self@,
    {
        match self {
            EntityTypeFingerprint::Enum { base_name, variants } => EntityTypeFingerprint::Enum {
                base_name: base_name.clone(),
                variants: copy_strings(variants),
            },
            EntityTypeFingerprint::LeafRecord { base_name, fields } => {
                let mut out: Vec<(String, PropertyType, bool)> = Vec::new();
                let mut i: usize = 0;
                while i < fields.len()
                    invariant
                        0 <= i <= fields@.len(),
                        fields_view(out@) == fields_view(fields@).take(i as int),
                    decreases fields@.len() - i,
                {
                    let f = &fields[i];
                    let c = (f.0.clone(), f.1.deep_copy(), f.2);
                    proof {
                        assert(fields_view(out@.push(c)) =~= fields_view(out@).push(field_view(c)));
                        assert(fields_view(fields@).take(i + 1) =~= fields_view(fields@).take(
                            i as int,
                        ).push(field_view(fields@[i as int])));
                    }
                    out.push(c);
                    i = i + 1;
                }
                assert(fields_view(fields@).take(fields@.len() as int) =~= fields_view(fields@));
                EntityTypeFingerprint::LeafRecord { base_name: base_name.clone(), fields: out }
            },
        }
    }
}

/// A copy of a list of namespaces.
fn copy_namespaces(v: &Vec<Option<Vec<String>>>) -> (r: Vec<Option<Vec<String>>>)
    ensures
        ns_list_view(r@) == ns_list_view(v@),
{
    let mut out: Vec<Option<Vec<String>>> = Vec::new();
    let mut i: usize = 0;
    while i < v.len()
        invariant
            0 <= i <= v@.len(),
            ns_list_view(out@) == ns_list_view(v@).take(i as int),
        decreases v@.len() - i,
    {
        let c = copy_namespace(&v[i]);
        proof {
            assert(ns_list_view(out@.push(c)) =~= ns_list_view(out@).push(ns_view(c)));
            assert(ns_list_view(v@).take(i + 1) =~= ns_list_view(v@).take(i as int).push(
                ns_view(v@[i as int]),
            ));
        }
        out.push(c);
        i = i + 1;
    }
    assert(ns_list_view(v@).take(v@.len() as int) =~= ns_list_view(v@));
    out
}

/// The view of a resolved duplicate.
pub open spec fn resolved_view(e: (EntityTypeFingerprint, DeduplicatedEntityType)) -> (
    FingerprintView,
    Option<Seq<Seq<char>>>,
    Seq<Option<Seq<Seq<char>>>>,
) {
    (e.0@, ns_view(e.1.lca_namespace), ns_list_view(e.1.source_namespaces@))
}

impl DeduplicationMap {
    /// The fingerprints seen in more than one namespace, each with the
    /// lowest common namespace of those namespaces, where the shared entity
    /// type goes.
    pub fn resolve_duplicates(&self) -> (r: Vec<(EntityTypeFingerprint, DeduplicatedEntityType)>)
        ensures
            r@.map_values(|e: (EntityTypeFingerprint, DeduplicatedEntityType)| resolved_view(e))
                == duplicates(self@),
    {
        let ghost m = self@;
        let mut out: Vec<(EntityTypeFingerprint, DeduplicatedEntityType)> = Vec::new();
        let mut i: usize = 0;
        assert(m.take(0) =~= Seq::<(FingerprintView, Seq<Option<Seq<Seq<char>>>>)>::empty());
        while i < self.occurrences.len()
            invariant
                0 <= i <= self.occurrences@.len(),
                m == self@,
                m == occurrences_view(self.occurrences@),
                out@.map_values(|e: (EntityTypeFingerprint, DeduplicatedEntityType)| resolved_view(e))
                    == duplicates(m.take(i as int)),
            decreases self.occurrences@.len() - i,
        {
            let (fp, nss) = (&self.occurrences[i].0, &self.occurrences[i].1);
            proof {
                assert(m.take(i + 1).drop_last() =~= m.take(i as int));
                assert(m.take(i + 1).last() == m[i as int]);
                assert(m[i as int] == (fp@, ns_list_view(nss@)));
            }
            if nss.len() > 1 {
                let lca = compute_lca(nss.as_slice());
                let e = (
                    fp.deep_copy(),
                    DeduplicatedEntityType { lca_namespace: lca, source_namespaces: copy_namespaces(nss) },
                );
                proof {
                    let f = |e: (EntityTypeFingerprint, DeduplicatedEntityType)| resolved_view(e);
                    assert(out@.push(e).map_values(f) =~= out@.map_values(f).push(resolved_view(e)));
                }
                out.push(e);
            }
            i = i + 1;
        }
        assert(m.take(m.len() as int) =~= m);
        out
    }
}

// ---------------------------------------------------------------------------
// Collecting fingerprints.
// ---------------------------------------------------------------------------
/// The message of the error Cedar reports when `s` is not an identifier
/// that is free to use (not a Cedar identifier, or reserved), or `None`.
pub uninterp spec fn unreserved_id_error(s: Seq<char>) -> Option<Seq<char>>;

/// Whether `s` is a Cedar identifier that is not reserved, as Cedar's
/// parser decides.
pub open spec fn unreserved_id(s: Seq<char>) -> bool {
    unreserved_id_error(s) is None
}

/// Checks that `s` is an unreserved Cedar identifier (`str::parse` into
/// `cedar_policy_core::ast::UnreservedId`), giving the message of the error
/// otherwise. The contract claims only that the outcome is a function of
/// the text, named `unreserved_id_error`.
#[verifier::external_body]
pub(crate) fn check_unreserved_id(s: &str) -> (r: Result<(), String>)
    ensures
        match unreserved_id_error(s@) {
            None => r is Ok,
            Some(m) => r matches Err(e) && e@ == m,
        },
{
    match s.parse::<cedar_policy_core::ast::UnreservedId>() {
        Ok(_) => Ok(()),
        Err(e) => Err(e.to_string()),
    }
}

/// Whether `s` is an unreserved Cedar identifier.
pub(crate) fn is_unreserved_id(s: &str) -> (r: bool)
    ensures
        r == unreserved_id(s@),
{
    check_unreserved_id(s).is_ok()
}

/// The namespace `name` inside `ns`.
pub open spec fn child_ns(ns: Option<Seq<Seq<char>>>, name: Seq<char>) -> Seq<Seq<char>> {
    match ns {
        Some(p) => p.push(name),
        None => seq![name],
    }
}

/// The fingerprints found in the type `pt` named `name`, in namespace
/// `ns`, each with the namespace it was found in, in the order they are
/// found: enums (by name and variants) and leaf records (by name and
/// sorted fields), looking into objects, arrays, unions and tuples; the
/// parts of an object, union or tuple are in the namespace named after it.
pub open spec fn collected(name: Seq<char>, pt: PropertyType, ns: Option<Seq<Seq<char>>>) -> Seq<
    (FingerprintView, Option<Seq<Seq<char>>>),
>
    decreases pt,
{
    match pt {
        PropertyType::Enum { variants } => if variants@.len() > 0 && unreserved_id(name) {
            seq![(FingerprintView::Enum(name, strings_of(variants@)), ns)]
        } else {
            Seq::empty()
        },
        PropertyType::Object { properties, additional_properties } => if unreserved_id(name) {
            let child = Some(child_ns(ns, name));
            let from_props = props_collected(properties@, child);
            let from_additional = match additional_properties {
                Some(a) => collected(name + "Tag"@, *a, child),
                None => Seq::empty(),
            };
            let own = if is_leaf_record_type(pt) {
                seq![(FingerprintView::LeafRecord(name, sort_fields(prop_fields(properties@))), ns)]
            } else {
                Seq::empty()
            };
            from_props + from_additional + own
        } else {
            Seq::empty()
        },
        PropertyType::Array { element_ty } => collected(name, *element_ty, ns),
        PropertyType::Union { types } => if unreserved_id(name) {
            indexed_collected(types@, "TypeChoice"@, Some(child_ns(ns, name)))
        } else {
            Seq::empty()
        },
        PropertyType::Tuple { types } => if unreserved_id(name) {
            indexed_collected(types@, "Proj"@, Some(child_ns(ns, name)))
        } else {
            Seq::empty()
        },
        _ => Seq::empty(),
    }
}

/// The fingerprints found in a list of properties, each under its name.
pub open spec fn props_collected(props: Seq<Property>, ns: Option<Seq<Seq<char>>>) -> Seq<
    (FingerprintView, Option<Seq<Seq<char>>>),
>
    decreases props,
{
    if props.len() == 0 {
        Seq::empty()
    } else {
        props_collected(props.drop_last(), ns) + collected(
            props.last().name@,
            props.last().prop_type,
            ns,
        )
    }
}

/// The fingerprints found in a list of types, the `i`-th named `prefix`
/// followed by `i`.
pub open spec fn indexed_collected(
    types: Seq<PropertyType>,
    prefix: Seq<char>,
    ns: Option<Seq<Seq<char>>>,
) -> Seq<(FingerprintView, Option<Seq<Seq<char>>>)>
    decreases types,
{
    if types.len() == 0 {
        Seq::empty()
    } else {
        indexed_collected(types.drop_last(), prefix, ns) + collected(
            prefix + decimal((types.len() - 1) as nat),
            types.last(),
            ns,
        )
    }
}

/// The namespace `name` inside `namespace`.
fn child_namespace(namespace: &Option<Vec<String>>, name: &str) -> (r: Option<Vec<String>>)
    ensures
        ns_view(r) == Some(child_ns(ns_view(*namespace), name@)),
{
    Some(crate::generator::names::qualified_name(namespace, name))
}

/// Records the fingerprint of the enum `name` with `variants`, in
/// `namespace`, when it has variants and its name is an unreserved
/// identifier.
fn record_enum(
    name: &str,
    variants: &Vec<String>,
    namespace: &Option<Vec<String>>,
    dedup_map: &mut DeduplicationMap,
)
    ensures
        final(dedup_map)@ == if variants@.len() > 0 && unreserved_id(name@) {
            record_occurrence(
                old(dedup_map)@,
                FingerprintView::Enum(name@, strings_of(variants@)),
                ns_view(*namespace),
            )
        } else {
            old(dedup_map)@
        },
{
    if variants.len() > 0 && is_unreserved_id(name) {
        let fp = EntityTypeFingerprint::Enum {
            base_name: name.to_string(),
            variants: copy_strings(variants),
        };
        dedup_map.record(fp, copy_namespace(namespace));
    }
}

/// Records, in `dedup_map`, the fingerprints found in the type
/// `property_type` named `name`, in `namespace`.
pub fn collect_enum_fingerprints_from_property_type(
    name: &str,
    property_type: &PropertyType,
    namespace: &Option<Vec<String>>,
    dedup_map: &mut DeduplicationMap,
)
    ensures
        final(dedup_map)@ == record_all(
            old(dedup_map)@,
            collected(name@, *property_type, ns_view(*namespace)),
        ),
    decreases *property_type,
{
    let ghost m0 = dedup_map@;
    match property_type {
        PropertyType::Enum { variants } => {
            record_enum(name, variants, namespace, dedup_map);
            proof {
                let x = (FingerprintView::Enum(name@, strings_of(variants@)), ns_view(*namespace));
                lemma_record_all_one(m0, x);
                if variants@.len() > 0 && unreserved_id(name@) {
                    assert(collected(name@, *property_type, ns_view(*namespace)) == seq![x]);
                    assert(dedup_map@ == record_all(m0, seq![x]));
                } else {
                    assert(collected(name@, *property_type, ns_view(*namespace)) =~= Seq::<
                        (FingerprintView, Option<Seq<Seq<char>>>),
                    >::empty());
                    assert(dedup_map@ == m0);
                }
                assert(dedup_map@ == record_all(m0, collected(name@, *property_type, ns_view(*namespace))));
            }
        },
        PropertyType::Object { properties, additional_properties } => {
            if is_unreserved_id(name) {
                let child = child_namespace(namespace, name);
                let ghost cv = ns_view(child);
                assert forall|j: int|
                    0 <= j < properties@.len() implies decreases_to!(
                        *property_type => (#[trigger] properties@[j]).prop_type) by {
                    assert(decreases_to!(*property_type => *properties));
                    assert(decreases_to!(*properties => properties@));
                    assert(decreases_to!(properties@ => properties@[j]));
                    assert(decreases_to!(properties@[j] => properties@[j].prop_type));
                }
                let mut i: usize = 0;
                assert(properties@.take(0) =~= Seq::<Property>::empty());
                while i < properties.len()
                    invariant
                        0 <= i <= properties@.len(),
                        cv == ns_view(child),
                        forall|j: int|
                            0 <= j < properties@.len() ==> decreases_to!(
                                *property_type => (#[trigger] properties@[j]).prop_type),
                        dedup_map@ == record_all(m0, props_collected(properties@.take(i as int), cv)),
                    decreases properties@.len() - i,
                {
                    let ghost before = dedup_map@;
                    let prop = &properties[i];
                    collect_enum_fingerprints_from_property_type(
                        prop.name.as_str(),
                        &prop.prop_type,
                        &child,
                        dedup_map,
                    );
                    proof {
                        let t = properties@.take(i + 1);
                        assert(t.drop_last() =~= properties@.take(i as int));
                        assert(t.last() == properties@[i as int]);
                        lemma_record_all_add(
                            m0,
                            props_collected(properties@.take(i as int), cv),
                            collected(prop.name@, prop.prop_type, cv),
                        );
                    }
                    i = i + 1;
                }
                assert(properties@.take(properties@.len() as int) =~= properties@);
                let ghost after_props = dedup_map@;
                let ghost from_props = props_collected(properties@, cv);
                match additional_properties {
                    Some(additional) => {
                        let mut tag_name = name.to_string();
                        tag_name.append("Tag");
                        collect_enum_fingerprints_from_property_type(
                            tag_name.as_str(),
                            &**additional,
                            &child,
                            dedup_map,
                        );
                        proof {
                            lemma_record_all_add(
                                m0,
                                from_props,
                                collected(name@ + "Tag"@, **additional, cv),
                            );
                        }
                    },
                    None => {
                        assert(from_props + Seq::<(FingerprintView, Option<Seq<Seq<char>>>)>::empty()
                            =~= from_props);
                    },
                }
                let ghost from_additional = match additional_properties {
                    Some(a) => collected(name@ + "Tag"@, **a, cv),
                    None => Seq::<(FingerprintView, Option<Seq<Seq<char>>>)>::empty(),
                };
                let ghost so_far = dedup_map@;
                assert(so_far == record_all(m0, from_props + from_additional));
                if is_leaf_record(property_type) {
                    if is_unreserved_id(name) {
                        let fp = EntityTypeFingerprint::new_leaf_record(
                            name.to_string(),
                            properties.as_slice(),
                        );
                        dedup_map.record(fp, copy_namespace(namespace));
                        proof {
                            let own = seq![
                                (
                                    FingerprintView::LeafRecord(
                                        name@,
                                        sort_fields(prop_fields(properties@)),
                                    ),
                                    ns_view(*namespace),
                                ),
                            ];
                            lemma_record_all_add(m0, from_props + from_additional, own);
                            lemma_record_all_one(so_far, own[0]);
                            assert(own == seq![own[0]]);
                        }
                    }
                } else {
                    assert(from_props + from_additional + Seq::<
                        (FingerprintView, Option<Seq<Seq<char>>>),
                    >::empty() =~= from_props + from_additional);
                }
                assert(dedup_map@ == record_all(m0, collected(name@, *property_type, ns_view(*namespace))));
            } else {
                assert(collected(name@, *property_type, ns_view(*namespace)) =~= Seq::<
                    (FingerprintView, Option<Seq<Seq<char>>>),
                >::empty());
            }
        },
        PropertyType::Array { element_ty } => {
            collect_enum_fingerprints_from_property_type(name, &**element_ty, namespace, dedup_map);
            assert(dedup_map@ == record_all(m0, collected(name@, *property_type, ns_view(*namespace))));
        },
        PropertyType::Union { types } => {
            if is_unreserved_id(name) {
                let child = child_namespace(namespace, name);
                collect_indexed(types, "TypeChoice", &child, dedup_map);
                assert(dedup_map@ == record_all(m0, collected(name@, *property_type, ns_view(*namespace))));
            } else {
                assert(collected(name@, *property_type, ns_view(*namespace)) =~= Seq::<
                    (FingerprintView, Option<Seq<Seq<char>>>),
                >::empty());
            }
        },
        PropertyType::Tuple { types } => {
            if is_unreserved_id(name) {
                let child = child_namespace(namespace, name);
                collect_indexed(types, "Proj", &child, dedup_map);
                assert(dedup_map@ == record_all(m0, collected(name@, *property_type, ns_view(*namespace))));
            } else {
                assert(collected(name@, *property_type, ns_view(*namespace)) =~= Seq::<
                    (FingerprintView, Option<Seq<Seq<char>>>),
                >::empty());
            }
        },
        _ => {
            assert(collected(name@, *property_type, ns_view(*namespace)) =~= Seq::<
                (FingerprintView, Option<Seq<Seq<char>>>),
            >::empty());
        },
    }
}

/// Records the fingerprints found in `types`, the `i`-th named `prefix`
/// followed by `i`.
fn collect_indexed(
    types: &Vec<PropertyType>,
    prefix: &str,
    namespace: &Option<Vec<String>>,
    dedup_map: &mut DeduplicationMap,
)
    ensures
        final(dedup_map)@ == record_all(
            old(dedup_map)@,
            indexed_collected(types@, prefix@, ns_view(*namespace)),
        ),
    decreases types,
{
    let ghost m0 = dedup_map@;
    let ghost nv = ns_view(*namespace);
    let mut i: usize = 0;
    assert(types@.take(0) =~= Seq::<PropertyType>::empty());
    while i < types.len()
        invariant
            0 <= i <= types@.len(),
            nv == ns_view(*namespace),
            dedup_map@ == record_all(m0, indexed_collected(types@.take(i as int), prefix@, nv)),
        decreases types@.len() - i,
    {
        assert(decreases_to!(*types => types@[i as int]));
        let mut item_name = prefix.to_string();
        item_name.append(u64_to_decimal(i as u64).as_str());
        collect_enum_fingerprints_from_property_type(
            item_name.as_str(),
            &types[i],
            namespace,
            dedup_map,
        );
        proof {
            let t = types@.take(i + 1);
            assert(t.drop_last() =~= types@.take(i as int));
            assert(t.last() == types@[i as int]);
            assert(t.len() - 1 == i);
            lemma_record_all_add(
                m0,
                indexed_collected(types@.take(i as int), prefix@, nv),
                collected(prefix@ + decimal(i as nat), types@[i as int], nv),
            );
        }
        i = i + 1;
    }
    assert(types@.take(types@.len() as int) =~= types@);
}

/// The fingerprints found in a list of type definitions, each under its
/// name.
pub open spec fn typedefs_collected(defs: Seq<PropertyTypeDef>, ns: Option<Seq<Seq<char>>>) -> Seq<
    (FingerprintView, Option<Seq<Seq<char>>>),
>
    decreases defs.len(),
{
    if defs.len() == 0 {
        Seq::empty()
    } else {
        typedefs_collected(defs.drop_last(), ns) + collected(
            defs.last().name@,
            defs.last().prop_type,
            ns,
        )
    }
}

/// The fingerprints found in parameters: in their properties, then in
/// their type definitions.
pub open spec fn params_collected(p: Parameters, ns: Option<Seq<Seq<char>>>) -> Seq<
    (FingerprintView, Option<Seq<Seq<char>>>),
> {
    props_collected(p.properties@, ns) + typedefs_collected(p.type_defs@, ns)
}

/// Records, in `dedup_map`, the fingerprints found in the properties and
/// the type definitions of `parameters`, in `namespace`.
pub fn collect_enum_fingerprints(
    parameters: &Parameters,
    namespace: &Option<Vec<String>>,
    dedup_map: &mut DeduplicationMap,
)
    ensures
        final(dedup_map)@ == record_all(
            old(dedup_map)@,
            params_collected(*parameters, ns_view(*namespace)),
        ),
{
    let ghost m0 = dedup_map@;
    let ghost nv = ns_view(*namespace);
    let properties = &parameters.properties;
    let mut i: usize = 0;
    assert(properties@.take(0) =~= Seq::<Property>::empty());
    while i < properties.len()
        invariant
            0 <= i <= properties@.len(),
            nv == ns_view(*namespace),
            dedup_map@ == record_all(m0, props_collected(properties@.take(i as int), nv)),
        decreases properties@.len() - i,
    {
        let prop = &properties[i];
        collect_enum_fingerprints_from_property_type(
            prop.name.as_str(),
            &prop.prop_type,
            namespace,
            dedup_map,
        );
        proof {
            let t = properties@.take(i + 1);
            assert(t.drop_last() =~= properties@.take(i as int));
            assert(t.last() == properties@[i as int]);
            lemma_record_all_add(
                m0,
                props_collected(properties@.take(i as int), nv),
                collected(prop.name@, prop.prop_type, nv),
            );
        }
        i = i + 1;
    }
    assert(properties@.take(properties@.len() as int) =~= properties@);
    let ghost from_props = props_collected(properties@, nv);
    let defs = &parameters.type_defs;
    let mut k: usize = 0;
    assert(defs@.take(0) =~= Seq::<PropertyTypeDef>::empty());
    assert(from_props + typedefs_collected(defs@.take(0), nv) =~= from_props);
    while k < defs.len()
        invariant
            0 <= k <= defs@.len(),
            nv == ns_view(*namespace),
            from_props == props_collected(properties@, nv),
            dedup_map@ == record_all(m0, from_props + typedefs_collected(defs@.take(k as int), nv)),
        decreases defs@.len() - k,
    {
        let def = &defs[k];
        collect_enum_fingerprints_from_property_type(
            def.name.as_str(),
            &def.prop_type,
            namespace,
            dedup_map,
        );
        proof {
            let t = defs@.take(k + 1);
            assert(t.drop_last() =~= defs@.take(k as int));
            assert(t.last() == defs@[k as int]);
            let before = from_props + typedefs_collected(defs@.take(k as int), nv);
            let c = collected(def.name@, def.prop_type, nv);
            lemma_record_all_add(m0, before, c);
            assert(before + c =~= from_props + typedefs_collected(t, nv));
        }
        k = k + 1;
    }
    assert(defs@.take(defs@.len() as int) =~= defs@);
}

} // verus!
