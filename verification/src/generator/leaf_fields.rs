//! The fields of a leaf record are of primitive types: this holds of each
//! fingerprint that collecting finds, and of each duplicate and candidate
//! that deduplication makes of them.

use crate::description::{PType, Parameters, Property, PropertyType, PropertyTypeDef, ToolDescription};
use crate::generator::dedup::{
    collected, duplicates, indexed_collected, insert_field, is_primitive_type, params_collected,
    prop_fields, props_collected, record_all, record_occurrence, sort_fields, typedefs_collected,
    FingerprintView,
};
use crate::generator::plan::{candidates, server_collected, tool_collected, typedef_enums, ResolvedView};
use vstd::prelude::*;

verus! {

/// A primitive type, by content.
pub open spec fn prim_ptype(p: PType) -> bool {
    match p {
        PType::Bool | PType::Integer | PType::Float | PType::Number | PType::String | PType::Decimal
        | PType::Datetime | PType::Duration | PType::IpAddr | PType::Null | PType::Unknown => true,
        _ => false,
    }
}

/// Each field is of a primitive type.
pub open spec fn prim_fields(fs: Seq<(Seq<char>, PType, bool)>) -> bool {
    forall|i: int| 0 <= i < fs.len() ==> prim_ptype(#[trigger] fs[i].1)
}

/// A fingerprint of a leaf record has fields of primitive types.
pub open spec fn fp_wf(fp: FingerprintView) -> bool {
    match fp {
        FingerprintView::LeafRecord(_, fs) => prim_fields(fs),
        _ => true,
    }
}

/// Each fingerprint of the list is well formed.
pub open spec fn items_wf<X>(s: Seq<(FingerprintView, X)>) -> bool {
    forall|i: int| 0 <= i < s.len() ==> fp_wf(#[trigger] s[i].0)
}

/// Each fingerprint of the resolved duplicates is well formed.
pub open spec fn resolved_wf(s: Seq<ResolvedView>) -> bool {
    forall|i: int| 0 <= i < s.len() ==> fp_wf(#[trigger] s[i].0)
}

pub proof fn lemma_items_wf_add<X>(a: Seq<(FingerprintView, X)>, b: Seq<(FingerprintView, X)>)
    requires
        items_wf(a),
        items_wf(b),
    ensures
        items_wf(a + b),
{
    assert forall|i: int| 0 <= i < (a + b).len() implies fp_wf(#[trigger] (a + b)[i].0) by {
        if i < a.len() {
            assert((a + b)[i] == a[i]);
        } else {
            assert((a + b)[i] == b[i - a.len()]);
        }
    }
}

proof fn lemma_insert_field_wf(s: Seq<(Seq<char>, PType, bool)>, x: (Seq<char>, PType, bool))
    requires
        prim_fields(s),
        prim_ptype(x.1),
    ensures
        prim_fields(insert_field(s, x)),
    decreases s.len(),
{
    if s.len() > 0 && crate::strmap::text_lt(x.0, s.last().0) {
        assert(prim_fields(s.drop_last())) by {
            assert forall|i: int| 0 <= i < s.drop_last().len() implies prim_ptype(#[trigger] s.drop_last()[i].1) by {
                assert(s.drop_last()[i] == s[i]);
            }
        }
        lemma_insert_field_wf(s.drop_last(), x);
        assert(prim_ptype(s.last().1)) by {
            assert(s.last() == s[s.len() - 1]);
        }
        let r = insert_field(s.drop_last(), x);
        assert forall|i: int| 0 <= i < r.push(s.last()).len() implies prim_ptype(#[trigger] r.push(s.last())[i].1) by {
            if i < r.len() {
                assert(r.push(s.last())[i] == r[i]);
            }
        }
    }
}

proof fn lemma_sort_fields_wf(s: Seq<(Seq<char>, PType, bool)>)
    requires
        prim_fields(s),
    ensures
        prim_fields(sort_fields(s)),
    decreases s.len(),
{
    if s.len() > 0 {
        assert(prim_fields(s.drop_last())) by {
            assert forall|i: int| 0 <= i < s.drop_last().len() implies prim_ptype(#[trigger] s.drop_last()[i].1) by {
                assert(s.drop_last()[i] == s[i]);
            }
        }
        lemma_sort_fields_wf(s.drop_last());
        assert(s.last() == s[s.len() - 1]);
        lemma_insert_field_wf(sort_fields(s.drop_last()), s.last());
    }
}

/// The content of a primitive type is primitive.
pub proof fn lemma_prim_view(pt: PropertyType)
    ensures
        prim_ptype(crate::description::ptype_view(pt)) == is_primitive_type(pt),
{
}

/// The fingerprints found in a type are well formed.
pub proof fn lemma_collected_wf(name: Seq<char>, pt: PropertyType, ns: Option<Seq<Seq<char>>>)
    ensures
        items_wf(collected(name, pt, ns)),
    decreases pt,
{
    match pt {
        PropertyType::Object { properties, additional_properties } => {
            let child = Some(crate::generator::dedup::child_ns(ns, name));
            lemma_props_collected_wf(properties@, child);
            let from_additional = match additional_properties {
                Some(a) => {
                    lemma_collected_wf(name + "Tag"@, *a, child);
                    collected(name + "Tag"@, *a, child)
                },
                None => Seq::empty(),
            };
            let own = if crate::generator::dedup::is_leaf_record_type(pt) {
                let fs = prop_fields(properties@);
                assert(prim_fields(fs)) by {
                    assert forall|i: int| 0 <= i < fs.len() implies prim_ptype(#[trigger] fs[i].1) by {
                        lemma_prim_view(properties@[i].prop_type);
                    }
                }
                lemma_sort_fields_wf(fs);
                seq![(FingerprintView::LeafRecord(name, sort_fields(fs)), ns)]
            } else {
                Seq::empty()
            };
            assert(items_wf(own));
            assert(items_wf(from_additional));
            lemma_items_wf_add(props_collected(properties@, child), from_additional);
            lemma_items_wf_add(props_collected(properties@, child) + from_additional, own);
        },
        PropertyType::Array { element_ty } => {
            lemma_collected_wf(name, *element_ty, ns);
        },
        PropertyType::Union { types } => {
            lemma_indexed_wf(types@, "TypeChoice"@, Some(crate::generator::dedup::child_ns(ns, name)));
        },
        PropertyType::Tuple { types } => {
            lemma_indexed_wf(types@, "Proj"@, Some(crate::generator::dedup::child_ns(ns, name)));
        },
        _ => {},
    }
}

pub proof fn lemma_props_collected_wf(props: Seq<Property>, ns: Option<Seq<Seq<char>>>)
    ensures
        items_wf(props_collected(props, ns)),
    decreases props,
{
    if props.len() > 0 {
        lemma_props_collected_wf(props.drop_last(), ns);
        lemma_collected_wf(props.last().name@, props.last().prop_type, ns);
        lemma_items_wf_add(
            props_collected(props.drop_last(), ns),
            collected(props.last().name@, props.last().prop_type, ns),
        );
    }
}

pub proof fn lemma_indexed_wf(types: Seq<PropertyType>, prefix: Seq<char>, ns: Option<Seq<Seq<char>>>)
    ensures
        items_wf(indexed_collected(types, prefix, ns)),
    decreases types,
{
    if types.len() > 0 {
        lemma_indexed_wf(types.drop_last(), prefix, ns);
        let n = prefix + crate::text::decimal((types.len() - 1) as nat);
        lemma_collected_wf(n, types.last(), ns);
        lemma_items_wf_add(indexed_collected(types.drop_last(), prefix, ns), collected(n, types.last(), ns));
    }
}

proof fn lemma_typedefs_collected_wf(defs: Seq<PropertyTypeDef>, ns: Option<Seq<Seq<char>>>)
    ensures
        items_wf(typedefs_collected(defs, ns)),
    decreases defs.len(),
{
    if defs.len() > 0 {
        lemma_typedefs_collected_wf(defs.drop_last(), ns);
        lemma_collected_wf(defs.last().name@, defs.last().prop_type, ns);
        lemma_items_wf_add(
            typedefs_collected(defs.drop_last(), ns),
            collected(defs.last().name@, defs.last().prop_type, ns),
        );
    }
}

proof fn lemma_params_collected_wf(p: Parameters, ns: Option<Seq<Seq<char>>>)
    ensures
        items_wf(params_collected(p, ns)),
{
    lemma_props_collected_wf(p.properties@, ns);
    lemma_typedefs_collected_wf(p.type_defs@, ns);
    lemma_items_wf_add(props_collected(p.properties@, ns), typedefs_collected(p.type_defs@, ns));
}

proof fn lemma_typedef_enums_wf(defs: Seq<PropertyTypeDef>, tool_ns: Seq<Seq<char>>)
    ensures
        items_wf(typedef_enums(defs, tool_ns)),
    decreases defs.len(),
{
    if defs.len() > 0 {
        lemma_typedef_enums_wf(defs.drop_last(), tool_ns);
        let rest = typedef_enums(defs.drop_last(), tool_ns);
        let r = typedef_enums(defs, tool_ns);
        assert forall|i: int| 0 <= i < r.len() implies fp_wf(#[trigger] r[i].0) by {
            if i < rest.len() {
                assert(r[i] == rest[i]);
            }
        }
    }
}

proof fn lemma_tool_collected_wf(t: ToolDescription, root: Option<Seq<Seq<char>>>, include_outputs: bool)
    ensures
        tool_collected(t, root, include_outputs) matches Ok(items) ==> items_wf(items),
{
    match crate::generator::plan::cedar_name(t.name@) {
        Err(_) => {},
        Ok(p) => {
            let tool_ns = crate::generator::plan::qualify_path(p, root);
            let inputs = params_collected(t.inputs, Some(tool_ns.push(crate::generator::identifiers::INPUT_NAME@)));
            lemma_params_collected_wf(t.inputs, Some(tool_ns.push(crate::generator::identifiers::INPUT_NAME@)));
            let outputs = if include_outputs {
                lemma_params_collected_wf(t.outputs, Some(tool_ns.push(crate::generator::identifiers::OUTPUT_NAME@)));
                params_collected(t.outputs, Some(tool_ns.push(crate::generator::identifiers::OUTPUT_NAME@)))
            } else {
                Seq::empty()
            };
            lemma_typedef_enums_wf(t.type_defs@, tool_ns);
            lemma_items_wf_add(inputs, outputs);
            lemma_items_wf_add(inputs + outputs, typedef_enums(t.type_defs@, tool_ns));
        },
    }
}

/// The fingerprints found in the tools of a server are well formed.
pub proof fn lemma_server_collected_wf(
    tools: Seq<ToolDescription>,
    root: Option<Seq<Seq<char>>>,
    include_outputs: bool,
)
    ensures
        server_collected(tools, root, include_outputs) matches Ok(items) ==> items_wf(items),
    decreases tools.len(),
{
    if tools.len() > 0 {
        lemma_server_collected_wf(tools.drop_last(), root, include_outputs);
        lemma_tool_collected_wf(tools.last(), root, include_outputs);
        match server_collected(tools.drop_last(), root, include_outputs) {
            Err(_) => {},
            Ok(a) => match tool_collected(tools.last(), root, include_outputs) {
                Err(_) => {},
                Ok(b) => lemma_items_wf_add(a, b),
            },
        }
    }
}

/// Recording well-formed fingerprints keeps the records well formed.
pub proof fn lemma_record_all_wf(
    m: Seq<(FingerprintView, Seq<Option<Seq<Seq<char>>>>)>,
    rs: Seq<(FingerprintView, Option<Seq<Seq<char>>>)>,
)
    requires
        items_wf(m),
        items_wf(rs),
    ensures
        items_wf(record_all(m, rs)),
    decreases rs.len(),
{
    if rs.len() > 0 {
        assert(items_wf(rs.drop_last())) by {
            assert forall|i: int| 0 <= i < rs.drop_last().len() implies fp_wf(#[trigger] rs.drop_last()[i].0) by {
                assert(rs.drop_last()[i] == rs[i]);
            }
        }
        lemma_record_all_wf(m, rs.drop_last());
        let m1 = record_all(m, rs.drop_last());
        let f = rs.last().0;
        assert(fp_wf(f)) by {
            assert(rs.last() == rs[rs.len() - 1]);
        }
        let r = record_occurrence(m1, f, rs.last().1);
        crate::generator::dedup::lemma_record_occurrence_keys(m1, f, rs.last().1);
        assert forall|x: int| 0 <= x < r.len() implies fp_wf(#[trigger] r[x].0) by {
            if r[x].0 != f {
                assert(r[x].0 == m1[x].0);
            }
        }
    }
}

/// The duplicates of well-formed records are well formed.
pub proof fn lemma_duplicates_wf(m: Seq<(FingerprintView, Seq<Option<Seq<Seq<char>>>>)>)
    requires
        items_wf(m),
    ensures
        resolved_wf(duplicates(m)),
    decreases m.len(),
{
    if m.len() > 0 {
        assert(items_wf(m.drop_last())) by {
            assert forall|i: int| 0 <= i < m.drop_last().len() implies fp_wf(#[trigger] m.drop_last()[i].0) by {
                assert(m.drop_last()[i] == m[i]);
            }
        }
        lemma_duplicates_wf(m.drop_last());
        let rest = duplicates(m.drop_last());
        let d = duplicates(m);
        assert(fp_wf(m.last().0)) by {
            assert(m.last() == m[m.len() - 1]);
        }
        assert forall|i: int| 0 <= i < d.len() implies fp_wf(#[trigger] d[i].0) by {
            if i < rest.len() {
                assert(d[i] == rest[i]);
            }
        }
    }
}

/// The candidates among well-formed duplicates are well formed.
pub proof fn lemma_candidates_wf(s: Seq<ResolvedView>, objects_as_records: bool)
    requires
        resolved_wf(s),
    ensures
        resolved_wf(candidates(s, objects_as_records)),
    decreases s.len(),
{
    if s.len() > 0 {
        assert(resolved_wf(s.drop_last())) by {
            assert forall|i: int| 0 <= i < s.drop_last().len() implies fp_wf(#[trigger] s.drop_last()[i].0) by {
                assert(s.drop_last()[i] == s[i]);
            }
        }
        lemma_candidates_wf(s.drop_last(), objects_as_records);
        let rest = candidates(s.drop_last(), objects_as_records);
        let c = candidates(s, objects_as_records);
        assert(fp_wf(s.last().0)) by {
            assert(s.last() == s[s.len() - 1]);
        }
        assert forall|i: int| 0 <= i < c.len() implies fp_wf(#[trigger] c[i].0) by {
            if i < rest.len() {
                assert(c[i] == rest[i]);
            }
        }
    }
}

} // verus!
