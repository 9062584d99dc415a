//! The steps of adding MCP tools to a schema: the type definitions in
//! scope, the records of a tool's inputs and outputs, and the action of
//! each tool.

use crate::description::{Parameters, PropertyTypeDef, ToolDescription};
use crate::generator::dedup::{child_ns, copy_namespace, ns_view, unreserved_id_error};
use crate::generator::err::SchemaGeneratorError;
use crate::generator::identifiers::{INPUT_NAME, OUTPUT_NAME};
use crate::generator::model::{
    attrs_view, ctype_view, err_view, ops_view, ActionDecl, ActionDeclV, CType, CTypeV, GenErr, Op,
    OpV,
};
use crate::generator::names::qualified_name;
use crate::generator::plan::{cedar_name, qualify_path, tool_namespace};
use crate::generator::translate::{
    add_common, cedar_type, check_common_type_id, common_type_id_error, common_view, cv, cx_view, emit,
    outer_view, prop_list, record_of, spec_add_common, spec_cedar_type, spec_prop_list, Cx, CxV,
};
use crate::generator::schema_state::{
    declares_action, distinct_namespaces, lemma_ends_with_action, spec_outcome, state_wf, NsV,
};
use crate::strmap::{lookup, lemma_map_vals_insert, map_insert, map_vals, sorted_keys, StrMap};
use crate::text::strings_of;
use vstd::prelude::*;

verus! {

// ---------------------------------------------------------------------------
// Type definitions in scope.
// ---------------------------------------------------------------------------
/// The type definitions in scope once those of `defs`, declared in `ns`,
/// are added: each name maps to the common type that holds it, a later
/// definition of a name replacing an earlier one; or the error of the
/// first name that cannot name a common type.
pub open spec fn spec_register(
    common: Seq<(Seq<char>, Seq<Seq<char>>)>,
    ns: Option<Seq<Seq<char>>>,
    defs: Seq<PropertyTypeDef>,
) -> Result<Seq<(Seq<char>, Seq<Seq<char>>)>, GenErr>
    decreases defs.len(),
{
    if defs.len() == 0 {
        Ok(common)
    } else {
        match spec_register(common, ns, defs.drop_last()) {
            Err(e) => Err(e),
            Ok(c) => {
                let n = defs.last().name@;
                match unreserved_id_error(n) {
                    Some(m) => Err(GenErr::ReservedName(m)),
                    None => match common_type_id_error(n) {
                        Some(m) => Err(GenErr::ReservedCommonTypeName(m)),
                        None => Ok(map_insert(c, n, child_ns(ns, n))),
                    },
                }
            },
        }
    }
}

/// Adds the type definitions `defs`, declared in `ns`, to those in scope.
pub fn register_typedefs(
    common: &mut StrMap<Vec<String>>,
    ns: &Option<Vec<String>>,
    defs: &Vec<PropertyTypeDef>,
) -> (r: Result<(), SchemaGeneratorError>)
    ensures
        match spec_register(common_view(old(common)@), ns_view(*ns), defs@) {
            Ok(c) => r is Ok && common_view(final(common)@) == c,
            Err(e) => r matches Err(x) && err_view(x) == e,
        },
{
    let ghost c0 = common_view(common@);
    let mut i: usize = 0;
    assert(defs@.take(0) =~= Seq::<PropertyTypeDef>::empty());
    while i < defs.len()
        invariant
            0 <= i <= defs@.len(),
            c0 == common_view(old(common)@),
            spec_register(c0, ns_view(*ns), defs@.take(i as int)) == Ok::<
                Seq<(Seq<char>, Seq<Seq<char>>)>,
                GenErr,
            >(common_view(common@)),
        decreases defs@.len() - i,
    {
        let d = &defs[i];
        proof {
            assert(defs@.take(i + 1).drop_last() =~= defs@.take(i as int));
            assert(defs@.take(i + 1).last() == defs@[i as int]);
        }
        match crate::generator::dedup::check_unreserved_id(d.name.as_str()) {
            Err(m) => {
                proof {
                    lemma_register_err(c0, ns_view(*ns), defs@, i + 1);
                }
                return Err(SchemaGeneratorError::ReservedName(m));
            },
            Ok(()) => {},
        }
        match check_common_type_id(d.name.as_str()) {
            Err(m) => {
                proof {
                    lemma_register_err(c0, ns_view(*ns), defs@, i + 1);
                }
                return Err(SchemaGeneratorError::ReservedCommonTypeName(m));
            },
            Ok(()) => {},
        }
        let ghost before = common@;
        let path = qualified_name(ns, d.name.as_str());
        let ghost pv = path;
        common.insert(d.name.clone(), path);
        proof {
            lemma_map_vals_insert(before, |v: Vec<String>| strings_of(v@), d.name@, pv);
        }
        i = i + 1;
    }
    assert(defs@.take(defs@.len() as int) =~= defs@);
    Ok(())
}

proof fn lemma_register_err(
    c: Seq<(Seq<char>, Seq<Seq<char>>)>,
    ns: Option<Seq<Seq<char>>>,
    defs: Seq<PropertyTypeDef>,
    k: int,
)
    requires
        0 <= k <= defs.len(),
        spec_register(c, ns, defs.take(k)) is Err,
    ensures
        spec_register(c, ns, defs) == spec_register(c, ns, defs.take(k)),
    decreases defs.len() - k,
{
    if k < defs.len() {
        assert(defs.take(k + 1).drop_last() =~= defs.take(k));
        lemma_register_err(c, ns, defs, k + 1);
    } else {
        assert(defs.take(k) =~= defs);
    }
}

/// A copy of the type definitions in scope.
pub fn copy_common(m: &StrMap<Vec<String>>) -> (r: StrMap<Vec<String>>)
    ensures
        common_view(r@) == common_view(m@),
{
    let mut out: Vec<(String, Vec<String>)> = Vec::new();
    let mut i: usize = 0;
    let n = m.len();
    while i < n
        invariant
            0 <= i <= n,
            n == m@.len(),
            out@.len() == i,
            forall|j: int|
                0 <= j < i ==> (#[trigger] out@[j]).0@ == m@[j].0 && strings_of(out@[j].1@) == strings_of(
                    m@[j].1@,
                ),
        decreases n - i,
    {
        let (k, v) = m.entry(i);
        out.push((k.clone(), crate::generator::dedup::copy_strings(v)));
        i = i + 1;
    }
    let ghost ov = out@.map_values(|e: (String, Vec<String>)| (e.0@, e.1));
    assert(sorted_keys(ov)) by {
        assert forall|a: int, b: int| 0 <= a < b < ov.len() implies crate::strmap::text_lt(
            #[trigger] ov[a].0,
            #[trigger] ov[b].0,
        ) by {
            assert(ov[a].0 == m@[a].0);
            assert(ov[b].0 == m@[b].0);
        }
    }
    let r = StrMap::from_sorted(out);
    assert(common_view(r@) =~= common_view(m@));
    r
}

// ---------------------------------------------------------------------------
// Declaring type definitions.
// ---------------------------------------------------------------------------
/// The steps of declaring each type definition of `defs` as a common type
/// of `ns`, in order, up to the first that fails.
pub open spec fn spec_typedefs(
    cx: CxV,
    common: Seq<(Seq<char>, Seq<Seq<char>>)>,
    ns: Option<Seq<Seq<char>>>,
    defs: Seq<PropertyTypeDef>,
) -> (Seq<OpV>, Result<(), GenErr>)
    decreases defs.len(),
{
    if defs.len() == 0 {
        (Seq::empty(), Ok(()))
    } else {
        let s1 = spec_typedefs(cx, common, ns, defs.drop_last());
        match s1.1 {
            Err(e) => (s1.0, Err(e)),
            Ok(_) => {
                let d = defs.last();
                match unreserved_id_error(d.name@) {
                    Some(m) => (s1.0, Err(GenErr::ReservedName(m))),
                    None => {
                        let s2 = spec_cedar_type(cx, common, ns, d.name@, d.prop_type);
                        match s2.1 {
                            Err(e) => (s1.0 + s2.0, Err(e)),
                            Ok(t) => {
                                let s3 = spec_add_common(cx, ns, d.name@, t, true);
                                (s1.0 + s2.0 + s3.0, s3.1)
                            },
                        }
                    },
                }
            },
        }
    }
}

proof fn lemma_typedefs_err(
    cx: CxV,
    common: Seq<(Seq<char>, Seq<Seq<char>>)>,
    ns: Option<Seq<Seq<char>>>,
    defs: Seq<PropertyTypeDef>,
    k: int,
)
    requires
        0 <= k <= defs.len(),
        spec_typedefs(cx, common, ns, defs.take(k)).1 is Err,
    ensures
        spec_typedefs(cx, common, ns, defs) == spec_typedefs(cx, common, ns, defs.take(k)),
    decreases defs.len() - k,
{
    if k < defs.len() {
        assert(defs.take(k + 1).drop_last() =~= defs.take(k));
        lemma_typedefs_err(cx, common, ns, defs, k + 1);
    } else {
        assert(defs.take(k) =~= defs);
    }
}

/// Declares each type definition of `defs` as a common type of `ns`.
pub fn add_typedefs(
    cx: &Cx,
    common: &StrMap<Vec<String>>,
    ns: &Option<Vec<String>>,
    defs: &Vec<PropertyTypeDef>,
    ops: &mut Vec<Op>,
) -> (r: Result<(), SchemaGeneratorError>)
    ensures
        ({
            let s = spec_typedefs(cx_view(*cx), common_view(common@), ns_view(*ns), defs@);
            &&& ops_view(final(ops)@) == ops_view(old(ops)@) + s.0
            &&& match s.1 {
                Ok(()) => r is Ok,
                Err(e) => r matches Err(x) && err_view(x) == e,
            }
        }),
{
    let ghost cxv = cx_view(*cx);
    let ghost cm = common_view(common@);
    let ghost nsv = ns_view(*ns);
    let ghost o0 = ops_view(ops@);
    let mut i: usize = 0;
    assert(defs@.take(0) =~= Seq::<PropertyTypeDef>::empty());
    assert(o0 + Seq::<OpV>::empty() =~= o0);
    while i < defs.len()
        invariant
            0 <= i <= defs@.len(),
            cxv == cx_view(*cx),
            cm == common_view(common@),
            nsv == ns_view(*ns),
            o0 == ops_view(old(ops)@),
            ops_view(ops@) == o0 + spec_typedefs(cxv, cm, nsv, defs@.take(i as int)).0,
            spec_typedefs(cxv, cm, nsv, defs@.take(i as int)).1 is Ok,
        decreases defs@.len() - i,
    {
        let d = &defs[i];
        let ghost s1 = spec_typedefs(cxv, cm, nsv, defs@.take(i as int));
        proof {
            assert(defs@.take(i + 1).drop_last() =~= defs@.take(i as int));
            assert(defs@.take(i + 1).last() == defs@[i as int]);
        }
        match crate::generator::dedup::check_unreserved_id(d.name.as_str()) {
            Err(m) => {
                proof {
                    lemma_typedefs_err(cxv, cm, nsv, defs@, i + 1);
                }
                return Err(SchemaGeneratorError::ReservedName(m));
            },
            Ok(()) => {},
        }
        let ghost mid = ops_view(ops@);
        let t = match cedar_type(cx, common, ns, d.name.as_str(), &d.prop_type, ops) {
            Err(e) => {
                proof {
                    let s2 = spec_cedar_type(cxv, cm, nsv, d.name@, d.prop_type);
                    assert(ops_view(ops@) =~= o0 + (s1.0 + s2.0));
                    lemma_typedefs_err(cxv, cm, nsv, defs@, i + 1);
                }
                return Err(e);
            },
            Ok(t) => t,
        };
        let ghost tv = ctype_view(t);
        let ghost mid2 = ops_view(ops@);
        match add_common(cx, ns, d.name.as_str(), t, true, ops) {
            Err(e) => {
                proof {
                    let s2 = spec_cedar_type(cxv, cm, nsv, d.name@, d.prop_type);
                    let s3 = spec_add_common(cxv, nsv, d.name@, tv, true);
                    assert(ops_view(ops@) =~= o0 + (s1.0 + s2.0 + s3.0));
                    lemma_typedefs_err(cxv, cm, nsv, defs@, i + 1);
                }
                return Err(e);
            },
            Ok(()) => {
                proof {
                    let s2 = spec_cedar_type(cxv, cm, nsv, d.name@, d.prop_type);
                    let s3 = spec_add_common(cxv, nsv, d.name@, tv, true);
                    assert(ops_view(ops@) =~= o0 + (s1.0 + s2.0 + s3.0));
                }
            },
        }
        i = i + 1;
    }
    assert(defs@.take(defs@.len() as int) =~= defs@);
    Ok(())
}

// ---------------------------------------------------------------------------
// Records of parameters.
// ---------------------------------------------------------------------------
/// The record of the parameters `p`, read in `ns`, with the steps of
/// declaring the types it needs: its type
/// definitions come into scope and are declared, then each property
/// becomes an attribute.
pub open spec fn spec_record(
    cx: CxV,
    common: Seq<(Seq<char>, Seq<Seq<char>>)>,
    ns: Option<Seq<Seq<char>>>,
    p: Parameters,
) -> (Seq<OpV>, Result<Seq<(Seq<char>, (CTypeV, bool))>, GenErr>) {
    match spec_register(common, ns, p.type_defs@) {
        Err(e) => (Seq::empty(), Err(e)),
        Ok(c) => {
            let s1 = spec_typedefs(cx, c, ns, p.type_defs@);
            match s1.1 {
                Err(e) => (s1.0, Err(e)),
                Ok(_) => {
                    let s2 = spec_prop_list(cx, c, None, ns, p.properties@);
                    (s1.0 + s2.0, s2.1)
                },
            }
        },
    }
}

/// The record of the parameters `p`, read in `ns` (see `spec_record`).
pub fn record_from_parameters(
    cx: &Cx,
    common: &StrMap<Vec<String>>,
    ns: &Option<Vec<String>>,
    p: &Parameters,
    ops: &mut Vec<Op>,
) -> (r: Result<Vec<(String, CType, bool)>, SchemaGeneratorError>)
    ensures
        ({
            let s = spec_record(cx_view(*cx), common_view(common@), ns_view(*ns), *p);
            &&& ops_view(final(ops)@) == ops_view(old(ops)@) + s.0
            &&& match s.1 {
                Ok(a) => r matches Ok(v) && attrs_view(v@) == a,
                Err(e) => r matches Err(x) && err_view(x) == e,
            }
        }),
{
    let ghost o0 = ops_view(ops@);
    assert(o0 + Seq::<OpV>::empty() =~= o0);
    let mut scope = copy_common(common);
    match register_typedefs(&mut scope, ns, &p.type_defs) {
        Err(e) => {
            return Err(e);
        },
        Ok(()) => {},
    }
    match add_typedefs(cx, &scope, ns, &p.type_defs, ops) {
        Err(e) => {
            return Err(e);
        },
        Ok(()) => {},
    }
    let ghost c = common_view(scope@);
    let ghost s1 = spec_typedefs(cx_view(*cx), c, ns_view(*ns), p.type_defs@);
    let none: Option<Option<Vec<String>>> = None;
    let r = prop_list(cx, &scope, &none, ns, &p.properties, ops);
    proof {
        let s2 = spec_prop_list(cx_view(*cx), c, outer_view(none), ns_view(*ns), p.properties@);
        assert(ops_view(ops@) =~= o0 + (s1.0 + s2.0));
    }
    match r {
        Err(e) => Err(e),
        Ok(m) => Ok(record_of(m)),
    }
}

// ---------------------------------------------------------------------------
// The action of a tool.
// ---------------------------------------------------------------------------
/// The attributes of the context that the stub marks, each required and of
/// the type that carries the mark.
pub open spec fn ctx_attrs(contexts: Seq<(Seq<char>, Seq<char>)>) -> Seq<(Seq<char>, (CTypeV, bool))> {
    contexts.map_values(|e: (Seq<char>, Seq<char>)| (e.0, (CTypeV::EntityOrCommon(seq![e.1]), true)))
}

/// The steps for the inputs (or outputs) of a tool: the namespace `io_ns`
/// is added, the record of `p` is read in it, the namespace is dropped if
/// it declares nothing, and the record is declared as the common type
/// `ty_name` of the stub's namespace.
pub open spec fn spec_io(
    cx: CxV,
    common: Seq<(Seq<char>, Seq<Seq<char>>)>,
    io_ns: Option<Seq<Seq<char>>>,
    p: Parameters,
    ty_name: Seq<char>,
) -> (Seq<OpV>, Result<(), GenErr>) {
    let start = seq![OpV::AddNamespace(io_ns)];
    let r = spec_record(cx, common, io_ns, p);
    match r.1 {
        Err(e) => (start + r.0, Err(e)),
        Ok(attrs) => {
            let mid = start + r.0 + seq![OpV::DropIfEmpty(io_ns)];
            match unreserved_id_error(ty_name) {
                Some(m) => (mid, Err(GenErr::ReservedName(m))),
                None => {
                    let a = spec_add_common(cx, cx.root, ty_name, CTypeV::Record(attrs), true);
                    (mid + a.0, a.1)
                },
            }
        },
    }
}

/// The steps for the inputs (or outputs) of a tool (see `spec_io`).
fn io_part(
    cx: &Cx,
    common: &StrMap<Vec<String>>,
    io_ns: Option<Vec<String>>,
    p: &Parameters,
    ty_name: &str,
    ops: &mut Vec<Op>,
) -> (r: Result<(), SchemaGeneratorError>)
    ensures
        ({
            let s = spec_io(cx_view(*cx), common_view(common@), ns_view(io_ns), *p, ty_name@);
            &&& ops_view(final(ops)@) == ops_view(old(ops)@) + s.0
            &&& match s.1 {
                Ok(()) => r is Ok,
                Err(e) => r matches Err(x) && err_view(x) == e,
            }
        }),
{
    let ghost o0 = ops_view(ops@);
    let ghost n = ns_view(io_ns);
    let ghost rs = spec_record(cx_view(*cx), common_view(common@), n, *p);
    emit(ops, Op::AddNamespace(copy_namespace(&io_ns)));
    let attrs = match record_from_parameters(cx, common, &io_ns, p, ops) {
        Err(e) => {
            assert(ops_view(ops@) =~= o0 + (seq![OpV::AddNamespace(n)] + rs.0));
            return Err(e);
        },
        Ok(a) => a,
    };
    emit(ops, Op::DropIfEmpty(io_ns));
    let ghost mid = seq![OpV::AddNamespace(n)] + rs.0 + seq![OpV::DropIfEmpty(n)];
    assert(ops_view(ops@) =~= o0 + mid);
    match crate::generator::dedup::check_unreserved_id(ty_name) {
        Err(m) => {
            return Err(SchemaGeneratorError::ReservedName(m));
        },
        Ok(()) => {},
    }
    let ghost av = attrs_view(attrs@);
    let r = add_common(cx, &cx.root, ty_name, CType::Record(attrs), true, ops);
    proof {
        let a = spec_add_common(cx_view(*cx), cx_view(*cx).root, ty_name@, CTypeV::Record(av), true);
        assert(ops_view(ops@) =~= o0 + (mid + a.0));
    }
    r
}

/// The steps of adding the action of the tool `t`: its namespace is added, its type
/// definitions come into scope and are declared there, its inputs (and,
/// when the configuration includes them, its outputs) are declared as
/// common types of the stub's namespace, and the action is declared there
/// with the principals, resources and parents the stub marks and a
/// context of the marked attributes, the inputs and the outputs.
pub open spec fn spec_tool_action(
    cx: CxV,
    common: Seq<(Seq<char>, Seq<Seq<char>>)>,
    contexts: Seq<(Seq<char>, Seq<char>)>,
    users: Seq<Seq<char>>,
    resources: Seq<Seq<char>>,
    member_of: Option<Seq<Seq<char>>>,
    t: ToolDescription,
) -> (Seq<OpV>, Result<(), GenErr>) {
    match cedar_name(t.name@) {
        Err(m) => (Seq::empty(), Err(GenErr::ReservedName(m))),
        Ok(p) => {
            let tp = qualify_path(p, cx.root);
            let tns = Some(tp);
            let start = seq![OpV::AddNamespace(tns)];
            match spec_register(common, tns, t.type_defs@) {
                Err(e) => (start, Err(e)),
                Ok(c) => {
                    let s1 = spec_typedefs(cx, c, tns, t.type_defs@);
                    let o1 = start + s1.0;
                    match s1.1 {
                        Err(e) => (o1, Err(e)),
                        Ok(_) => {
                            let in_name = t.name@ + "Input"@;
                            let s2 = spec_io(cx, c, Some(tp.push(INPUT_NAME@)), t.inputs, in_name);
                            let o2 = o1 + s2.0;
                            match s2.1 {
                                Err(e) => (o2, Err(e)),
                                Ok(_) => {
                                    let ctx1 = map_insert(
                                        ctx_attrs(contexts),
                                        "input"@,
                                        (CTypeV::CommonRef(seq![in_name]), true),
                                    );
                                    let out_name = t.name@ + "Output"@;
                                    let s3 = if cx.config.include_outputs {
                                        spec_io(cx, c, Some(tp.push(OUTPUT_NAME@)), t.outputs, out_name)
                                    } else {
                                        (Seq::empty(), Ok(()))
                                    };
                                    let o3 = o2 + s3.0;
                                    match s3.1 {
                                        Err(e) => (o3, Err(e)),
                                        Ok(_) => {
                                            let ctx = if cx.config.include_outputs {
                                                map_insert(ctx1, "output"@, (CTypeV::CommonRef(seq![out_name]), false))
                                            } else {
                                                ctx1
                                            };
                                            let action = ActionDeclV { principals: users, resources, context: ctx, member_of };
                                            (
                                                o3 + seq![OpV::AddAction(cx.root, t.name@, action), OpV::DropIfEmpty(tns)],
                                                Ok(()),
                                            )
                                        },
                                    }
                                },
                            }
                        },
                    }
                },
            }
        },
    }
}

/// The attributes of the context that the stub marks.
fn context_map(contexts: &StrMap<String>) -> (r: StrMap<(CType, bool)>)
    ensures
        map_vals(r@, cv()) == ctx_attrs(crate::generator::stub::contexts_view(contexts@)),
{
    let mut out: Vec<(String, (CType, bool))> = Vec::new();
    let mut i: usize = 0;
    let n = contexts.len();
    while i < n
        invariant
            0 <= i <= n,
            n == contexts@.len(),
            out@.len() == i,
            forall|j: int|
                0 <= j < i ==> (#[trigger] out@[j]).0@ == contexts@[j].0 && ctype_view(out@[j].1.0)
                    == CTypeV::EntityOrCommon(seq![contexts@[j].1@]) && out@[j].1.1,
        decreases n - i,
    {
        let (k, v) = contexts.entry(i);
        let path = vec![v.clone()];
        assert(strings_of(path@) =~= seq![v@]);
        out.push((k.clone(), (CType::EntityOrCommon(path), true)));
        i = i + 1;
    }
    let ghost ov = out@.map_values(|e: (String, (CType, bool))| (e.0@, e.1));
    assert(sorted_keys(ov)) by {
        assert forall|a: int, b: int| 0 <= a < b < ov.len() implies crate::strmap::text_lt(
            #[trigger] ov[a].0,
            #[trigger] ov[b].0,
        ) by {
            assert(ov[a].0 == contexts@[a].0);
            assert(ov[b].0 == contexts@[b].0);
        }
    }
    let r = StrMap::from_sorted(out);
    assert(map_vals(r@, cv()) =~= ctx_attrs(crate::generator::stub::contexts_view(contexts@)));
    r
}

/// A reference to the common type `name`, written without a namespace.
fn common_ref(name: &str) -> (r: CType)
    ensures
        ctype_view(r) == CTypeV::CommonRef(seq![name@]),
{
    let v = vec![name.to_string()];
    assert(strings_of(v@) =~= seq![name@]);
    CType::CommonRef(v)
}

/// Adds the action of the tool `t` (see `spec_tool_action`).
pub fn tool_action(
    cx: &Cx,
    common: &StrMap<Vec<String>>,
    contexts: &StrMap<String>,
    users: &Vec<String>,
    resources: &Vec<String>,
    member_of: &Option<Vec<String>>,
    t: &ToolDescription,
    ops: &mut Vec<Op>,
) -> (r: Result<(), SchemaGeneratorError>)
    ensures
        ({
            let s = spec_tool_action(
                cx_view(*cx),
                common_view(common@),
                crate::generator::stub::contexts_view(contexts@),
                strings_of(users@),
                strings_of(resources@),
                ns_view(*member_of),
                *t,
            );
            &&& ops_view(final(ops)@) == ops_view(old(ops)@) + s.0
            &&& match s.1 {
                Ok(()) => r is Ok,
                Err(e) => r matches Err(x) && err_view(x) == e,
            }
        }),
{
    let ghost cxv = cx_view(*cx);
    let ghost o0 = ops_view(ops@);
    assert(o0 + Seq::<OpV>::empty() =~= o0);
    let tp = match tool_namespace(t.name.as_str(), &cx.root) {
        Err(e) => {
            return Err(e);
        },
        Ok(p) => p,
    };
    let ghost tpv = strings_of(tp@);
    let tns = Some(crate::generator::dedup::copy_strings(&tp));
    emit(ops, Op::AddNamespace(copy_namespace(&tns)));
    let ghost start = seq![OpV::AddNamespace(Some(tpv))];
    let mut scope = copy_common(common);
    match register_typedefs(&mut scope, &tns, &t.type_defs) {
        Err(e) => {
            assert(ops_view(ops@) =~= o0 + start);
            return Err(e);
        },
        Ok(()) => {},
    }
    let ghost c = common_view(scope@);
    let ghost s1 = spec_typedefs(cxv, c, Some(tpv), t.type_defs@);
    match add_typedefs(cx, &scope, &tns, &t.type_defs, ops) {
        Err(e) => {
            assert(ops_view(ops@) =~= o0 + (start + s1.0));
            return Err(e);
        },
        Ok(()) => {},
    }
    let ghost o1 = start + s1.0;
    assert(ops_view(ops@) =~= o0 + o1);
    let mut in_name = t.name.clone();
    in_name.append("Input");
    let in_ns = Some(qualified_name(&tns, INPUT_NAME));
    proof {
        assert(strings_of(in_ns->Some_0@) == tpv.push(INPUT_NAME@));
    }
    let ghost s2 = spec_io(cxv, c, Some(tpv.push(INPUT_NAME@)), t.inputs, t.name@ + "Input"@);
    match io_part(cx, &scope, in_ns, &t.inputs, in_name.as_str(), ops) {
        Err(e) => {
            assert(ops_view(ops@) =~= o0 + (o1 + s2.0));
            return Err(e);
        },
        Ok(()) => {},
    }
    let ghost o2 = o1 + s2.0;
    assert(ops_view(ops@) =~= o0 + o2);
    let mut ctx = context_map(contexts);
    let ghost c0 = ctx@;
    let in_ref = common_ref(in_name.as_str());
    let ghost in_entry = (in_ref, true);
    ctx.insert("input".to_string(), (in_ref, true));
    proof {
        lemma_map_vals_insert(c0, cv(), "input"@, in_entry);
    }
    let ghost out_name = t.name@ + "Output"@;
    let ghost s3 = if cxv.config.include_outputs {
        spec_io(cxv, c, Some(tpv.push(OUTPUT_NAME@)), t.outputs, out_name)
    } else {
        (Seq::<OpV>::empty(), Ok::<(), GenErr>(()))
    };
    if cx.config.include_outputs {
        let mut o_name = t.name.clone();
        o_name.append("Output");
        let out_ns = Some(qualified_name(&tns, OUTPUT_NAME));
        proof {
            assert(strings_of(out_ns->Some_0@) == tpv.push(OUTPUT_NAME@));
        }
        match io_part(cx, &scope, out_ns, &t.outputs, o_name.as_str(), ops) {
            Err(e) => {
                assert(ops_view(ops@) =~= o0 + (o2 + s3.0));
                return Err(e);
            },
            Ok(()) => {},
        }
        let ghost c1 = ctx@;
        let out_ref = common_ref(o_name.as_str());
        let ghost out_entry = (out_ref, false);
        ctx.insert("output".to_string(), (out_ref, false));
        proof {
            lemma_map_vals_insert(c1, cv(), "output"@, out_entry);
        }
    }
    let ghost o3 = o2 + s3.0;
    assert(ops_view(ops@) =~= o0 + o3);
    let action = ActionDecl {
        principals: crate::generator::dedup::copy_strings(users),
        resources: crate::generator::dedup::copy_strings(resources),
        context: record_of(ctx),
        member_of: copy_namespace(member_of),
    };
    emit(ops, Op::AddAction { ns: copy_namespace(&cx.root), name: t.name.clone(), action });
    emit(ops, Op::DropIfEmpty(tns));
    proof {
        reveal_strlit("input");
        reveal_strlit("output");
        reveal_strlit("Input");
        reveal_strlit("Output");
    }
    Ok(())
}

/// Adding the action of a tool, when it succeeds, leaves the action
/// declared in the stub's namespace under the tool's name, and keeps each
/// namespace once with its declarations in name order.
pub proof fn lemma_tool_declares_action(
    cx: CxV,
    common: Seq<(Seq<char>, Seq<Seq<char>>)>,
    contexts: Seq<(Seq<char>, Seq<char>)>,
    users: Seq<Seq<char>>,
    resources: Seq<Seq<char>>,
    member_of: Option<Seq<Seq<char>>>,
    t: ToolDescription,
    s: Seq<(Option<Seq<Seq<char>>>, NsV)>,
)
    requires
        state_wf(s),
        distinct_namespaces(s),
    ensures
        spec_outcome(s, spec_tool_action(cx, common, contexts, users, resources, member_of, t)) matches Ok(
            (s2, _),
        ) ==> declares_action(s2, cx.root, t.name@) && state_wf(s2) && distinct_namespaces(s2),
{
    let steps = spec_tool_action(cx, common, contexts, users, resources, member_of, t);
    if steps.1 is Ok {
        let p = cedar_name(t.name@)->Ok_0;
        let tp = qualify_path(p, cx.root);
        let tns = Some(tp);
        let start = seq![OpV::AddNamespace(tns)];
        let c = spec_register(common, tns, t.type_defs@)->Ok_0;
        let o1 = start + spec_typedefs(cx, c, tns, t.type_defs@).0;
        let in_name = t.name@ + "Input"@;
        let o2 = o1 + spec_io(cx, c, Some(tp.push(INPUT_NAME@)), t.inputs, in_name).0;
        let ctx1 = map_insert(ctx_attrs(contexts), "input"@, (CTypeV::CommonRef(seq![in_name]), true));
        let out_name = t.name@ + "Output"@;
        let s3 = if cx.config.include_outputs {
            spec_io(cx, c, Some(tp.push(OUTPUT_NAME@)), t.outputs, out_name)
        } else {
            (Seq::empty(), Ok(()))
        };
        let o3 = o2 + s3.0;
        let ctx = if cx.config.include_outputs {
            map_insert(ctx1, "output"@, (CTypeV::CommonRef(seq![out_name]), false))
        } else {
            ctx1
        };
        let action = ActionDeclV { principals: users, resources, context: ctx, member_of };
        assert(steps.0 == o3 + seq![OpV::AddAction(cx.root, t.name@, action), OpV::DropIfEmpty(tns)]);
        lemma_ends_with_action(s, o3, cx.root, t.name@, action, tns);
    }
}

/// The action a tool declares, when adding it succeeds: the step before
/// the last declares, in the stub's namespace and under the tool's name,
/// an action for the stub's principals and resources, under the stub's
/// parent actions, whose context holds the tool's input as the required
/// attribute `input` and, when outputs are included, its output as the
/// optional attribute `output` (the output is not known before the call);
/// the other attributes are the stub's shared context types.
pub proof fn lemma_tool_action_context(
    cx: CxV,
    common: Seq<(Seq<char>, Seq<Seq<char>>)>,
    contexts: Seq<(Seq<char>, Seq<char>)>,
    users: Seq<Seq<char>>,
    resources: Seq<Seq<char>>,
    member_of: Option<Seq<Seq<char>>>,
    t: ToolDescription,
)
    requires
        sorted_keys(contexts),
    ensures
        ({
            let steps = spec_tool_action(cx, common, contexts, users, resources, member_of, t);
            steps.1 is Ok ==> {
                &&& steps.0.len() >= 2
                &&& steps.0[steps.0.len() - 2] matches OpV::AddAction(n, a, d) && n == cx.root && a == t.name@
                    && d.principals == users && d.resources == resources && d.member_of == member_of
                    && lookup(d.context, "input"@) == Some((CTypeV::CommonRef(seq![t.name@ + "Input"@]), true))
                    && lookup(d.context, "output"@) == (if cx.config.include_outputs {
                        Some((CTypeV::CommonRef(seq![t.name@ + "Output"@]), false))
                    } else {
                        lookup(ctx_attrs(contexts), "output"@)
                    })
            }
        }),
{
    let steps = spec_tool_action(cx, common, contexts, users, resources, member_of, t);
    if steps.1 is Ok {
        let p = cedar_name(t.name@)->Ok_0;
        let tp = qualify_path(p, cx.root);
        let tns = Some(tp);
        let start = seq![OpV::AddNamespace(tns)];
        let c = spec_register(common, tns, t.type_defs@)->Ok_0;
        let o1 = start + spec_typedefs(cx, c, tns, t.type_defs@).0;
        let in_name = t.name@ + "Input"@;
        let o2 = o1 + spec_io(cx, c, Some(tp.push(INPUT_NAME@)), t.inputs, in_name).0;
        let base = ctx_attrs(contexts);
        let ctx1 = map_insert(base, "input"@, (CTypeV::CommonRef(seq![in_name]), true));
        let out_name = t.name@ + "Output"@;
        let s3 = if cx.config.include_outputs {
            spec_io(cx, c, Some(tp.push(OUTPUT_NAME@)), t.outputs, out_name)
        } else {
            (Seq::empty(), Ok(()))
        };
        let o3 = o2 + s3.0;
        let ctx = if cx.config.include_outputs {
            map_insert(ctx1, "output"@, (CTypeV::CommonRef(seq![out_name]), false))
        } else {
            ctx1
        };
        let action = ActionDeclV { principals: users, resources, context: ctx, member_of };
        assert(steps.0 == o3 + seq![OpV::AddAction(cx.root, t.name@, action), OpV::DropIfEmpty(tns)]);
        assert(steps.0[steps.0.len() - 2] == OpV::AddAction(cx.root, t.name@, action));
        assert(sorted_keys(base)) by {
            assert forall|i: int, j: int| 0 <= i < j < base.len() implies crate::strmap::text_lt(
                #[trigger] base[i].0,
                #[trigger] base[j].0,
            ) by {
                assert(base[i].0 == contexts[i].0);
                assert(base[j].0 == contexts[j].0);
            }
        }
        reveal_strlit("input");
        reveal_strlit("output");
        assert("input"@ != "output"@) by {
            assert("input"@[0] != "output"@[0]);
        }
        crate::strmap::lemma_lookup_after_insert(base, "input"@, (CTypeV::CommonRef(seq![in_name]), true), "output"@);
        crate::strmap::lemma_lookup_after_insert(base, "input"@, (CTypeV::CommonRef(seq![in_name]), true), "input"@);
        if cx.config.include_outputs {
            crate::strmap::lemma_lookup_after_insert(ctx1, "output"@, (CTypeV::CommonRef(seq![out_name]), false), "input"@);
        }
    }
}

} // verus!
