//! Translating the types of MCP tool descriptions into Cedar types, with
//! the steps that declare the entity and common types they need.
//!
//! Translation reads the generator's configuration, the namespace of the
//! schema, the entity types that deduplication placed and the type
//! definitions in scope; its effects on the schema are the list of steps
//! it emits, in order. A failure that does not depend on the schema ends
//! the list with the error; failures that depend on the schema (a name
//! declared twice) are found when the steps are applied.

use crate::description::{Property, PropertyType};
use crate::generator::config::SchemaGeneratorConfig;
use crate::generator::dedup::{
    check_unreserved_id, child_ns, copy_namespace, copy_strings, is_leaf_record,
    is_leaf_record_type, ns_view, prop_fields, sort_fields, unreserved_id_error,
    DeduplicatedEntityType, EntityTypeFingerprint, FingerprintView,
};
use crate::generator::err::SchemaGeneratorError;
use crate::generator::identifiers::{
    BOOL_TYPE, DATETIME_TYPE, DECIMAL_TYPE, DURATION_TYPE, FLOAT_TYPE, IPADDR_TYPE, LONG_TYPE,
    NULL_TYPE, NUMBER_TYPE, STRING_TYPE, UNKNOWN_TYPE,
};
use crate::generator::model::{
    lemma_attrs_view_push, attrs_view, ctype_view, err_view, op_view, ops_view, CType, CTypeV, EntityDecl, EntityDeclV,
    GenErr, Op, OpV,
};
use crate::generator::names::{flatten_name, flattened, qualified_name, unqualified, unqualify_name};
use crate::generator::plan::{resolved_list_view, ResolvedView};
use crate::strmap::{lemma_map_vals_insert, lookup, map_insert, map_vals, StrMap};
use crate::text::{decimal, join, join_strings, strings_of, u64_to_decimal};
use vstd::prelude::*;
use vstd::string::StringExecFns;

verus! {

// ---------------------------------------------------------------------------
// The context of translation.
// ---------------------------------------------------------------------------
/// What translation reads besides the type: the configuration, the
/// namespace of the schema, and the entity types that deduplication
/// placed, once it ran.
#[derive(Debug)]
pub struct Cx {
    pub config: SchemaGeneratorConfig,
    pub root: Option<Vec<String>>,
    pub placed: Option<Vec<(EntityTypeFingerprint, DeduplicatedEntityType)>>,
}

/// The content of a translation context.
pub struct CxV {
    pub config: SchemaGeneratorConfig,
    pub root: Option<Seq<Seq<char>>>,
    pub placed: Option<Seq<ResolvedView>>,
}

pub open spec fn cx_view(cx: Cx) -> CxV {
    CxV {
        config: cx.config,
        root: ns_view(cx.root),
        placed: match cx.placed {
            Some(p) => Some(resolved_list_view(p@)),
            None => None,
        },
    }
}

/// The lowest common namespace of the first placed entity type with
/// fingerprint `fp`.
pub open spec fn first_lca(c: Seq<ResolvedView>, fp: FingerprintView) -> Option<Option<Seq<Seq<char>>>>
    decreases c.len(),
{
    if c.len() == 0 {
        None
    } else if c[0].0 == fp {
        Some(c[0].1)
    } else {
        first_lca(c.drop_first(), fp)
    }
}

/// Where deduplication placed the entity type `fp`, if it did.
pub open spec fn dedup_lca(cx: CxV, fp: FingerprintView) -> Option<Option<Seq<Seq<char>>>> {
    match cx.placed {
        None => None,
        Some(c) => first_lca(c, fp),
    }
}

fn lookup_lca(cx: &Cx, fp: &EntityTypeFingerprint) -> (r: Option<Option<Vec<String>>>)
    ensures
        match dedup_lca(cx_view(*cx), fp@) {
            None => r is None,
            Some(n) => r matches Some(x) && ns_view(x) == n,
        },
{
    match &cx.placed {
        None => None,
        Some(placed) => {
            let ghost c = resolved_list_view(placed@);
            let mut i: usize = 0;
            assert(c.skip(0) =~= c);
            while i < placed.len()
                invariant
                    0 <= i <= placed@.len(),
                    c == resolved_list_view(placed@),
                    cx_view(*cx).placed == Some(c),
                    first_lca(c, fp@) == first_lca(c.skip(i as int), fp@),
                decreases placed@.len() - i,
            {
                assert(c.skip(i as int)[0] == c[i as int]);
                assert(c[i as int] == crate::generator::dedup::resolved_view(placed@[i as int]));
                assert(c.skip(i as int).drop_first() =~= c.skip(i + 1));
                if placed[i].0.same_as(fp) {
                    return Some(copy_namespace(&placed[i].1.lca_namespace));
                }
                i = i + 1;
            }
            assert(c.skip(i as int).len() == 0);
            None
        },
    }
}

// ---------------------------------------------------------------------------
// Flattening names and declaring types.
// ---------------------------------------------------------------------------
/// The message for a name that flattening cannot handle: one without a
/// namespace, under a schema with one.
pub open spec fn unflattenable(name: Seq<Seq<char>>) -> GenErr {
    GenErr::Resolution("the name `"@ + join(name, "::"@) + "` has no namespace to flatten"@)
}

fn unflattenable_error(name: &Vec<String>) -> (r: SchemaGeneratorError)
    ensures
        err_view(r) == unflattenable(strings_of(name@)),
{
    let mut m = "the name `".to_string();
    m.append(join_strings(name, "::").as_str());
    m.append("` has no namespace to flatten");
    proof {
        reveal_strlit("::");
    }
    SchemaGeneratorError::SchemaResolutionError(m)
}

/// A name as it is written in the schema: flattened when namespaces are.
pub open spec fn flat_path(cx: CxV, name: Seq<Seq<char>>) -> Result<Seq<Seq<char>>, GenErr> {
    if !cx.config.flatten_namespaces {
        Ok(name)
    } else if cx.root is Some && name.len() < 2 {
        Err(unflattenable(name))
    } else {
        Ok(flattened(cx.root, name))
    }
}

/// Where a type named `id` in namespace `ns` is declared: in the namespace
/// of the schema, under its flattened name, when namespaces are flattened.
pub open spec fn flat_decl(cx: CxV, ns: Option<Seq<Seq<char>>>, id: Seq<char>) -> Result<
    (Option<Seq<Seq<char>>>, Seq<char>),
    GenErr,
> {
    if !cx.config.flatten_namespaces {
        Ok((ns, id))
    } else if cx.root is Some && !(ns is Some && ns->Some_0.len() > 0) {
        Err(unflattenable(child_ns(ns, id)))
    } else {
        Ok((cx.root, flattened(cx.root, child_ns(ns, id)).last()))
    }
}

fn flat_path_exec(cx: &Cx, name: Vec<String>) -> (r: Result<Vec<String>, SchemaGeneratorError>)
    ensures
        match flat_path(cx_view(*cx), strings_of(name@)) {
            Ok(p) => r matches Ok(x) && strings_of(x@) == p,
            Err(e) => r matches Err(x) && err_view(x) == e,
        },
{
    if !cx.config.flatten_namespaces {
        Ok(name)
    } else if cx.root.is_some() && name.len() < 2 {
        Err(unflattenable_error(&name))
    } else {
        Ok(flatten_name(&cx.root, true, &name))
    }
}

fn flat_decl_exec(cx: &Cx, ns: &Option<Vec<String>>, id: &str) -> (r: Result<
    (Option<Vec<String>>, String),
    SchemaGeneratorError,
>)
    ensures
        match flat_decl(cx_view(*cx), ns_view(*ns), id@) {
            Ok((n, i)) => r matches Ok(x) && ns_view(x.0) == n && x.1@ == i,
            Err(e) => r matches Err(x) && err_view(x) == e,
        },
{
    if !cx.config.flatten_namespaces {
        return Ok((copy_namespace(ns), id.to_string()));
    }
    let ns_ok = match ns {
        Some(p) => p.len() > 0,
        None => false,
    };
    if cx.root.is_some() && !ns_ok {
        let name = qualified_name(ns, id);
        return Err(unflattenable_error(&name));
    }
    let name = qualified_name(ns, id);
    proof {
        if cx.root is Some {
            assert(strings_of(name@).len() >= 2);
        }
    }
    let flat = flatten_name(&cx.root, true, &name);
    assert(strings_of(flat@).last() == flat@[flat@.len() - 1]@);
    Ok((copy_namespace(&cx.root), flat[flat.len() - 1].clone()))
}

/// The message of the error Cedar reports when `s` cannot name a common
/// type (it is not an unreserved identifier, or it is the name of a
/// built-in type), or `None`.
pub uninterp spec fn common_type_id_error(s: Seq<char>) -> Option<Seq<char>>;

/// Checks that `s` can name a common type (`str::parse` into
/// `UnreservedId`, then `CommonTypeId::new`), giving the message of the
/// error otherwise. The contract claims only that the outcome is a
/// function of the text, named `common_type_id_error`.
#[verifier::external_body]
pub(crate) fn check_common_type_id(s: &str) -> (r: Result<(), String>)
    ensures
        match common_type_id_error(s@) {
            None => r is Ok,
            Some(m) => r matches Err(e) && e@ == m,
        },
{
    match s.parse::<cedar_policy_core::ast::UnreservedId>() {
        Ok(id) => match cedar_policy_core::validator::json_schema::CommonTypeId::new(id) {
            Ok(_) => Ok(()),
            Err(e) => Err(e.to_string()),
        },
        Err(e) => Err(e.to_string()),
    }
}

/// The steps of declaring the entity type `id` of namespace `ns`.
pub open spec fn spec_add_entity(
    cx: CxV,
    ns: Option<Seq<Seq<char>>>,
    id: Seq<char>,
    d: EntityDeclV,
    error_if_exists: bool,
) -> (Seq<OpV>, Result<(), GenErr>) {
    match flat_decl(cx, ns, id) {
        Err(e) => (Seq::empty(), Err(e)),
        Ok((n, i)) => (seq![OpV::AddEntity(n, i, d, error_if_exists)], Ok(())),
    }
}

/// The name a type refers to, if it is a reference.
pub open spec fn ref_name(t: CTypeV) -> Option<Seq<Seq<char>>> {
    match t {
        CTypeV::EntityOrCommon(n) => Some(n),
        CTypeV::Entity(n) => Some(n),
        CTypeV::CommonRef(n) => Some(n),
        _ => None,
    }
}

/// The steps of declaring the common type `id` of namespace `ns` as `t`:
/// none when `t` refers to the name being declared.
pub open spec fn spec_add_common(
    cx: CxV,
    ns: Option<Seq<Seq<char>>>,
    id: Seq<char>,
    t: CTypeV,
    error_if_exists: bool,
) -> (Seq<OpV>, Result<(), GenErr>) {
    match flat_decl(cx, ns, id) {
        Err(e) => (Seq::empty(), Err(e)),
        Ok((n, i)) => if ref_name(t) is Some && unqualified(n, ref_name(t)->Some_0) == seq![i] {
            (Seq::empty(), Ok(()))
        } else {
            match common_type_id_error(i) {
                Some(m) => (Seq::empty(), Err(GenErr::ReservedCommonTypeName(m))),
                None => (seq![OpV::AddCommon(n, i, t, error_if_exists)], Ok(())),
            }
        },
    }
}

pub(crate) fn emit(ops: &mut Vec<Op>, o: Op)
    ensures
        ops_view(final(ops)@) == ops_view(old(ops)@).push(op_view(o)),
{
    let ghost v = op_view(o);
    ops.push(o);
    assert(ops_view(ops@) =~= ops_view(old(ops)@).push(v));
}

/// Declares the entity type `id` of namespace `ns`.
pub fn add_entity(
    cx: &Cx,
    ns: &Option<Vec<String>>,
    id: &str,
    d: EntityDecl,
    error_if_exists: bool,
    ops: &mut Vec<Op>,
) -> (r: Result<(), SchemaGeneratorError>)
    ensures
        ({
            let s = spec_add_entity(cx_view(*cx), ns_view(*ns), id@, crate::generator::model::entity_decl_view(d), error_if_exists);
            &&& ops_view(final(ops)@) == ops_view(old(ops)@) + s.0
            &&& match s.1 {
                Ok(()) => r is Ok,
                Err(e) => r matches Err(x) && err_view(x) == e,
            }
        }),
{
    match flat_decl_exec(cx, ns, id) {
        Err(e) => {
            assert(ops_view(ops@) + Seq::<OpV>::empty() =~= ops_view(ops@));
            Err(e)
        },
        Ok((n, i)) => {
            emit(ops, Op::AddEntity { ns: n, name: i, decl: d, error_if_exists });
            Ok(())
        },
    }
}

fn ref_path(t: &CType) -> (r: Option<&Vec<String>>)
    ensures
        match ref_name(ctype_view(*t)) {
            Some(n) => r matches Some(x) && strings_of(x@) == n,
            None => r is None,
        },
{
    match t {
        CType::EntityOrCommon(n) => Some(n),
        CType::Entity(n) => Some(n),
        CType::CommonRef(n) => Some(n),
        _ => None,
    }
}

/// Whether a list of strings holds exactly the text `s`.
fn is_single_text(v: &Vec<String>, s: &str) -> (r: bool)
    ensures
        r == (strings_of(v@) == seq![s@]),
{
    let r = v.len() == 1 && crate::text::text_eq(v[0].as_str(), s);
    proof {
        assert(strings_of(v@).len() == v@.len());
        if v@.len() == 1 {
            assert(strings_of(v@) =~= seq![v@[0]@]);
            if strings_of(v@) == seq![s@] {
                assert(seq![v@[0]@][0] == seq![s@][0]);
            }
        }
    }
    r
}

/// Declares the common type `id` of namespace `ns` as `t`.
pub fn add_common(
    cx: &Cx,
    ns: &Option<Vec<String>>,
    id: &str,
    t: CType,
    error_if_exists: bool,
    ops: &mut Vec<Op>,
) -> (r: Result<(), SchemaGeneratorError>)
    ensures
        ({
            let s = spec_add_common(cx_view(*cx), ns_view(*ns), id@, ctype_view(t), error_if_exists);
            &&& ops_view(final(ops)@) == ops_view(old(ops)@) + s.0
            &&& match s.1 {
                Ok(()) => r is Ok,
                Err(e) => r matches Err(x) && err_view(x) == e,
            }
        }),
{
    assert(ops_view(ops@) + Seq::<OpV>::empty() =~= ops_view(ops@));
    match flat_decl_exec(cx, ns, id) {
        Err(e) => Err(e),
        Ok((n, i)) => {
            let self_ref = match ref_path(&t) {
                Some(p) => {
                    let u = unqualify_name(&n, p);
                    is_single_text(&u, i.as_str())
                },
                None => false,
            };
            if self_ref {
                return Ok(());
            }
            match check_common_type_id(i.as_str()) {
                Err(m) => Err(SchemaGeneratorError::ReservedCommonTypeName(m)),
                Ok(()) => {
                    emit(ops, Op::AddCommon { ns: n, name: i, ty: t, error_if_exists });
                    Ok(())
                },
            }
        },
    }
}

// ---------------------------------------------------------------------------
// Removing a namespace from the names in a type.
// ---------------------------------------------------------------------------
/// `t` with each name declared directly in `ns` written without it.
pub open spec fn unq_type(ns: Option<Seq<Seq<char>>>, t: CTypeV) -> CTypeV
    decreases t, 1int,
{
    match t {
        CTypeV::EntityOrCommon(n) => CTypeV::EntityOrCommon(unqualified(ns, n)),
        CTypeV::Entity(n) => CTypeV::Entity(unqualified(ns, n)),
        CTypeV::CommonRef(n) => CTypeV::CommonRef(unqualified(ns, n)),
        CTypeV::SetOf(e) => CTypeV::SetOf(Box::new(unq_type(ns, *e))),
        CTypeV::Record(attrs) => CTypeV::Record(unq_attrs(ns, attrs)),
    }
}

/// The attributes with each name of their types declared directly in `ns`
/// written without it.
pub open spec fn unq_attrs(ns: Option<Seq<Seq<char>>>, attrs: Seq<(Seq<char>, (CTypeV, bool))>) -> Seq<
    (Seq<char>, (CTypeV, bool)),
>
    decreases attrs, 0int,
{
    if attrs.len() == 0 {
        Seq::empty()
    } else {
        unq_attrs(ns, attrs.drop_last()).push(
            (attrs.last().0, (unq_type(ns, attrs.last().1.0), attrs.last().1.1)),
        )
    }
}

/// `t` with each name declared directly in `ns` written without it.
pub fn unqualify_type(ns: &Option<Vec<String>>, t: CType) -> (r: CType)
    ensures
        ctype_view(r) == unq_type(ns_view(*ns), ctype_view(t)),
    decreases t,
{
    match t {
        CType::EntityOrCommon(n) => CType::EntityOrCommon(unqualify_name(ns, &n)),
        CType::Entity(n) => CType::Entity(unqualify_name(ns, &n)),
        CType::CommonRef(n) => CType::CommonRef(unqualify_name(ns, &n)),
        CType::SetOf(e) => CType::SetOf(Box::new(unqualify_type(ns, *e))),
        CType::Record(attrs) => {
            let ghost av = attrs@;
            let ghost attrs_g = attrs;
            assert(decreases_to!(t => attrs_g));
            let mut rest = attrs;
            let mut rev: Vec<(String, CType, bool)> = Vec::new();
            // Take the attributes from the back, then put them back in order.
            while rest.len() > 0
                invariant
                    rest@.len() + rev@.len() == av.len(),
                    av == attrs_g@,
                    decreases_to!(t => attrs_g),
                    rest@ == av.take(rest@.len() as int),
                    forall|k: int|
                        0 <= k < rev@.len() ==> {
                            let a = av[av.len() - 1 - k];
                            &&& (#[trigger] rev@[k]).0@ == a.0@
                            &&& rev@[k].2 == a.2
                            &&& ctype_view(rev@[k].1) == unq_type(ns_view(*ns), ctype_view(a.1))
                        },
                decreases rest@.len(),
            {
                let ghost k = rest@.len();
                let (name, ty, required) = rest.pop().unwrap();
                proof {
                    assert(av.take(k as int)[k - 1] == av[k - 1]);
                    assert(rest@ =~= av.take(k - 1));
                    assert(decreases_to!(attrs_g => attrs_g@));
                    assert(decreases_to!(attrs_g@ => attrs_g@[k - 1]));
                    assert(decreases_to!(attrs_g@[k - 1] => attrs_g@[k - 1].1));
                    assert(ty == attrs_g@[k - 1].1);
                }
                let u = unqualify_type(ns, ty);
                rev.push((name, u, required));
            }
            let mut out: Vec<(String, CType, bool)> = Vec::new();
            assert(av.take(0) =~= Seq::<(String, CType, bool)>::empty());
            assert(attrs_view(out@) =~= unq_attrs(ns_view(*ns), attrs_view(av.take(0))));
            while rev.len() > 0
                invariant
                    rev@.len() + out@.len() == av.len(),
                    forall|k: int|
                        0 <= k < rev@.len() ==> {
                            let a = av[av.len() - 1 - k];
                            &&& (#[trigger] rev@[k]).0@ == a.0@
                            &&& rev@[k].2 == a.2
                            &&& ctype_view(rev@[k].1) == unq_type(ns_view(*ns), ctype_view(a.1))
                        },
                    attrs_view(out@) == unq_attrs(ns_view(*ns), attrs_view(av.take(out@.len() as int))),
                decreases rev@.len(),
            {
                let ghost j: int = out@.len() as int;
                let ghost before = out@;
                let e = rev.pop().unwrap();
                proof {
                    assert(av.len() - 1 - (rev@.len() as int) == j);
                    let t2 = av.take(j + 1);
                    assert(t2 =~= av.take(j).push(av[j]));
                    lemma_attrs_view_push(av.take(j), av[j]);
                    let x = (av[j].0@, (ctype_view(av[j].1), av[j].2));
                    assert(attrs_view(t2) == attrs_view(av.take(j)).push(x));
                    assert(attrs_view(t2).drop_last() =~= attrs_view(av.take(j)));
                    assert(attrs_view(t2).last() == x);
                }
                out.push(e);
                proof {
                    lemma_attrs_view_push(before, e);
                }
            }
            assert(av.take(av.len() as int) =~= av);
            CType::Record(out)
        },
    }
}


// ---------------------------------------------------------------------------
// Translating types.
// ---------------------------------------------------------------------------
/// A built-in or extension type, by name.
pub open spec fn prim(n: Seq<char>) -> (Seq<OpV>, Result<CTypeV, GenErr>) {
    (Seq::empty(), Ok(CTypeV::EntityOrCommon(seq![n])))
}

/// An entity type without attributes, declared in the namespace of the
/// schema, for the values of a JSON type that Cedar lacks.
pub open spec fn spec_opaque(cx: CxV, id: Seq<char>) -> (Seq<OpV>, Result<CTypeV, GenErr>) {
    let s = spec_add_entity(cx, cx.root, id, EntityDeclV::Opaque, false);
    match s.1 {
        Err(e) => (s.0, Err(e)),
        Ok(_) => (s.0, Ok(CTypeV::Entity(child_ns(cx.root, id)))),
    }
}

/// A reference to the type `name` of `ns`, written as in the schema.
pub open spec fn flat_ref(cx: CxV, name: Seq<Seq<char>>, entity: bool) -> Result<CTypeV, GenErr> {
    match flat_path(cx, name) {
        Ok(p) => Ok(if entity { CTypeV::Entity(p) } else { CTypeV::EntityOrCommon(p) }),
        Err(e) => Err(e),
    }
}

/// The text of a namespace, as Cedar writes it.
pub open spec fn ns_text(ns: Option<Seq<Seq<char>>>) -> Seq<char> {
    match ns {
        None => Seq::empty(),
        Some(p) => join(p, "::"@),
    }
}

/// The names of the type definitions in scope, each with the name of the
/// common type that holds it.
pub open spec fn common_view(m: Seq<(Seq<char>, Vec<String>)>) -> Seq<(Seq<char>, Seq<Seq<char>>)> {
    map_vals(m, |v: Vec<String>| strings_of(v@))
}

/// The type that the type `pt` named `name`, read in namespace `ns`,
/// translates to, with the steps that declare the types it needs; `common` maps the names of the type
/// definitions in scope to the common types that hold them.
pub open spec fn spec_cedar_type(
    cx: CxV,
    common: Seq<(Seq<char>, Seq<Seq<char>>)>,
    ns: Option<Seq<Seq<char>>>,
    name: Seq<char>,
    pt: PropertyType,
) -> (Seq<OpV>, Result<CTypeV, GenErr>)
    decreases pt,
{
    match pt {
        PropertyType::Bool => prim(BOOL_TYPE@),
        PropertyType::Integer => prim(LONG_TYPE@),
        PropertyType::Float => if cx.config.numbers_as_decimal {
            prim(DECIMAL_TYPE@)
        } else {
            spec_opaque(cx, FLOAT_TYPE@)
        },
        PropertyType::Number => if cx.config.numbers_as_decimal {
            prim(DECIMAL_TYPE@)
        } else {
            spec_opaque(cx, NUMBER_TYPE@)
        },
        PropertyType::String => prim(STRING_TYPE@),
        PropertyType::Decimal => prim(DECIMAL_TYPE@),
        PropertyType::Datetime => prim(DATETIME_TYPE@),
        PropertyType::Duration => prim(DURATION_TYPE@),
        PropertyType::IpAddr => prim(IPADDR_TYPE@),
        PropertyType::Null => spec_opaque(cx, NULL_TYPE@),
        PropertyType::Unknown => spec_opaque(cx, UNKNOWN_TYPE@),
        PropertyType::Enum { variants } => if variants@.len() == 0 {
            (Seq::empty(), Err(GenErr::EmptyEnum(name)))
        } else {
            match dedup_lca(cx, FingerprintView::Enum(name, strings_of(variants@))) {
                Some(lca) => (Seq::empty(), flat_ref(cx, child_ns(lca, name), true)),
                None => {
                    let s = spec_add_entity(cx, ns, name, EntityDeclV::Enum(strings_of(variants@)), true);
                    match s.1 {
                        Err(e) => (s.0, Err(e)),
                        Ok(_) => (s.0, flat_ref(cx, child_ns(ns, name), true)),
                    }
                },
            }
        },
        PropertyType::Array { element_ty } => {
            let s = spec_cedar_type(cx, common, ns, name, *element_ty);
            (
                s.0,
                match s.1 {
                    Ok(t) => Ok(CTypeV::SetOf(Box::new(t))),
                    Err(e) => Err(e),
                },
            )
        },
        PropertyType::Tuple { types } => {
            let ns2 = Some(child_ns(ns, name));
            let s = spec_part_list(cx, common, ns, ns2, types@, "Proj"@, "proj"@, true);
            match s.1 {
                Err(e) => (seq![OpV::AddNamespace(ns2)] + s.0, Err(e)),
                Ok(a) => (seq![OpV::AddNamespace(ns2)] + s.0 + seq![OpV::DropIfEmpty(ns2)], Ok(CTypeV::Record(a))),
            }
        },
        PropertyType::Union { types } => {
            let ns2 = Some(child_ns(ns, name));
            let s = spec_part_list(cx, common, ns, ns2, types@, "TypeChoice"@, "typeChoice"@, false);
            match s.1 {
                Err(e) => (seq![OpV::AddNamespace(ns2)] + s.0, Err(e)),
                Ok(a) => (seq![OpV::AddNamespace(ns2)] + s.0 + seq![OpV::DropIfEmpty(ns2)], Ok(CTypeV::Record(a))),
            }
        },
        PropertyType::Object { properties, additional_properties } => {
            let fp = FingerprintView::LeafRecord(name, sort_fields(prop_fields(properties@)));
            if !cx.config.objects_as_records && is_leaf_record_type(pt) && dedup_lca(cx, fp) is Some {
                (Seq::empty(), flat_ref(cx, child_ns(dedup_lca(cx, fp)->Some_0, name), true))
            } else {
                let ns2 = Some(child_ns(ns, name));
                let start = seq![OpV::AddNamespace(ns2)];
                match unreserved_id_error(name + "Tag"@) {
                    Some(m) => (start, Err(GenErr::ReservedName(m))),
                    None => {
                        let tags = match additional_properties {
                            Some(a) => {
                                let s = spec_cedar_type(cx, common, ns2, name + "Tag"@, *a);
                                (
                                    s.0,
                                    match s.1 {
                                        Ok(t) => Ok(Some(t)),
                                        Err(e) => Err(e),
                                    },
                                )
                            },
                            None => (Seq::empty(), Ok(None)),
                        };
                        match tags.1 {
                            Err(e) => (start + tags.0, Err(e)),
                            Ok(tg) => {
                                let ps = spec_prop_list(cx, common, Some(ns), ns2, properties@);
                                let ops = start + tags.0 + ps.0;
                                match ps.1 {
                                    Err(e) => (ops, Err(e)),
                                    Ok(attrs) => if cx.config.objects_as_records && tg is None {
                                        let s = spec_add_common(cx, ns, name, CTypeV::Record(attrs), true);
                                        match s.1 {
                                            Err(e) => (ops + s.0, Err(e)),
                                            Ok(_) => match flat_ref(cx, child_ns(ns, name), false) {
                                                Ok(t) => (ops + s.0 + seq![OpV::DropIfEmpty(ns2)], Ok(t)),
                                                Err(e) => (ops + s.0, Err(e)),
                                            },
                                        }
                                    } else {
                                        let s = spec_add_entity(cx, ns, name, EntityDeclV::Record(attrs, tg), true);
                                        match s.1 {
                                            Err(e) => (ops + s.0, Err(e)),
                                            Ok(_) => match flat_ref(cx, child_ns(ns, name), true) {
                                                Ok(t) => (ops + s.0 + seq![OpV::DropIfEmpty(ns2)], Ok(t)),
                                                Err(e) => (ops + s.0, Err(e)),
                                            },
                                        }
                                    },
                                }
                            },
                        }
                    },
                }
            }
        },
        PropertyType::Ref { name: target } => match lookup(common, target@) {
            None => (Seq::empty(), Err(GenErr::UndefinedRef(target@, ns_text(ns)))),
            Some(p) => (Seq::empty(), flat_ref(cx, p, false)),
        },
    }
}

/// The attributes of a tuple or a union: the `i`-th type, named `tp`
/// followed by `i`, read in `ns2`, under the attribute `ap` followed by
/// `i`, with names of `ns` written without it; with the steps of declaring
/// the types they need.
pub open spec fn spec_part_list(
    cx: CxV,
    common: Seq<(Seq<char>, Seq<Seq<char>>)>,
    ns: Option<Seq<Seq<char>>>,
    ns2: Option<Seq<Seq<char>>>,
    types: Seq<PropertyType>,
    tp: Seq<char>,
    ap: Seq<char>,
    required: bool,
) -> (Seq<OpV>, Result<Seq<(Seq<char>, (CTypeV, bool))>, GenErr>)
    decreases types,
{
    if types.len() == 0 {
        (Seq::empty(), Ok(Seq::empty()))
    } else {
        let s1 = spec_part_list(cx, common, ns, ns2, types.drop_last(), tp, ap, required);
        match s1.1 {
            Err(e) => (s1.0, Err(e)),
            Ok(attrs) => {
                let i = (types.len() - 1) as nat;
                let s2 = spec_cedar_type(cx, common, ns2, tp + decimal(i), types.last());
                match s2.1 {
                    Err(e) => (s1.0 + s2.0, Err(e)),
                    Ok(t) => (s1.0 + s2.0, Ok(map_insert(attrs, ap + decimal(i), (unq_type(ns, t), required)))),
                }
            },
        }
    }
}

/// The attributes of the properties, each translated in `ns2` under its
/// name, and with names of `outer` written without it when there is one;
/// with the steps of declaring the types they need.
pub open spec fn spec_prop_list(
    cx: CxV,
    common: Seq<(Seq<char>, Seq<Seq<char>>)>,
    outer: Option<Option<Seq<Seq<char>>>>,
    ns2: Option<Seq<Seq<char>>>,
    props: Seq<Property>,
) -> (Seq<OpV>, Result<Seq<(Seq<char>, (CTypeV, bool))>, GenErr>)
    decreases props,
{
    if props.len() == 0 {
        (Seq::empty(), Ok(Seq::empty()))
    } else {
        let s1 = spec_prop_list(cx, common, outer, ns2, props.drop_last());
        match s1.1 {
            Err(e) => (s1.0, Err(e)),
            Ok(attrs) => {
                let p = props.last();
                match unreserved_id_error(p.name@) {
                    Some(m) => (s1.0, Err(GenErr::ReservedName(m))),
                    None => {
                        let s2 = spec_cedar_type(cx, common, ns2, p.name@, p.prop_type);
                        match s2.1 {
                            Err(e) => (s1.0 + s2.0, Err(e)),
                            Ok(t) => {
                                let t2 = match outer {
                                    Some(o) => unq_type(o, t),
                                    None => t,
                                };
                                (s1.0 + s2.0, Ok(map_insert(attrs, p.name@, (t2, p.required))))
                            },
                        }
                    },
                }
            },
        }
    }
}

/// A type's content, with whether it is required.
pub open spec fn cv() -> spec_fn((CType, bool)) -> (CTypeV, bool) {
    |e: (CType, bool)| (ctype_view(e.0), e.1)
}

/// The attributes of a map, in key order.
pub(crate) fn record_of(m: StrMap<(CType, bool)>) -> (r: Vec<(String, CType, bool)>)
    ensures
        attrs_view(r@) == map_vals(m@, cv()),
{
    let ghost mv = m@;
    let entries = m.into_entries();
    let ghost ev = entries@;
    assert(ev.map_values(|e: (String, (CType, bool))| (e.0@, e.1)) == mv);
    let mut rest = entries;
    let mut rev: Vec<(String, CType, bool)> = Vec::new();
    while rest.len() > 0
        invariant
            rest@.len() + rev@.len() == ev.len(),
            rest@ == ev.take(rest@.len() as int),
            forall|k: int|
                0 <= k < rev@.len() ==> {
                    let e = ev[ev.len() - 1 - k];
                    &&& (#[trigger] rev@[k]).0 == e.0
                    &&& rev@[k].1 == e.1.0
                    &&& rev@[k].2 == e.1.1
                },
        decreases rest@.len(),
    {
        let ghost k = rest@.len();
        let (name, (ty, required)) = rest.pop().unwrap();
        proof {
            assert(ev.take(k as int)[k - 1] == ev[k - 1]);
            assert(rest@ =~= ev.take(k - 1));
        }
        rev.push((name, ty, required));
    }
    let mut out: Vec<(String, CType, bool)> = Vec::new();
    let ghost target = map_vals(mv, cv());
    assert(target.take(0) =~= Seq::<(Seq<char>, (CTypeV, bool))>::empty());
    while rev.len() > 0
        invariant
            rev@.len() + out@.len() == ev.len(),
            ev.map_values(|e: (String, (CType, bool))| (e.0@, e.1)) == mv,
            target == map_vals(mv, cv()),
            target.len() == ev.len(),
            forall|k: int|
                0 <= k < rev@.len() ==> {
                    let e = ev[ev.len() - 1 - k];
                    &&& (#[trigger] rev@[k]).0 == e.0
                    &&& rev@[k].1 == e.1.0
                    &&& rev@[k].2 == e.1.1
                },
            attrs_view(out@) == target.take(out@.len() as int),
        decreases rev@.len(),
    {
        let ghost j: int = out@.len() as int;
        let ghost before = out@;
        let e = rev.pop().unwrap();
        proof {
            assert(ev.len() - 1 - (rev@.len() as int) == j);
            assert(mv[j] == (ev[j].0@, ev[j].1));
            assert(target[j] == (ev[j].0@, (ctype_view(ev[j].1.0), ev[j].1.1)));
        }
        out.push(e);
        proof {
            lemma_attrs_view_push(before, e);
            assert(target.take(j + 1) =~= target.take(j).push(target[j]));
        }
    }
    assert(target.take(target.len() as int) =~= target);
    out
}

/// A built-in or extension type, by name.
fn prim_type(n: &str) -> (r: CType)
    ensures
        ctype_view(r) == CTypeV::EntityOrCommon(seq![n@]),
{
    let v = vec![n.to_string()];
    assert(strings_of(v@) =~= seq![n@]);
    CType::EntityOrCommon(v)
}

/// A reference to the type `name`, written as in the schema.
fn flat_ref_exec(cx: &Cx, name: Vec<String>, entity: bool) -> (r: Result<CType, SchemaGeneratorError>)
    ensures
        match flat_ref(cx_view(*cx), strings_of(name@), entity) {
            Ok(t) => r matches Ok(x) && ctype_view(x) == t,
            Err(e) => r matches Err(x) && err_view(x) == e,
        },
{
    match flat_path_exec(cx, name) {
        Ok(p) => Ok(if entity { CType::Entity(p) } else { CType::EntityOrCommon(p) }),
        Err(e) => Err(e),
    }
}

/// An entity type without attributes, declared in the namespace of the
/// schema.
fn opaque(cx: &Cx, id: &str, ops: &mut Vec<Op>) -> (r: Result<CType, SchemaGeneratorError>)
    ensures
        ops_view(final(ops)@) == ops_view(old(ops)@) + spec_opaque(cx_view(*cx), id@).0,
        match spec_opaque(cx_view(*cx), id@).1 {
            Ok(t) => r matches Ok(x) && ctype_view(x) == t,
            Err(e) => r matches Err(x) && err_view(x) == e,
        },
{
    match add_entity(cx, &cx.root, id, EntityDecl::Opaque, false, ops) {
        Err(e) => Err(e),
        Ok(()) => Ok(CType::Entity(qualified_name(&cx.root, id))),
    }
}

proof fn lemma_part_list_err(
    cx: CxV,
    common: Seq<(Seq<char>, Seq<Seq<char>>)>,
    ns: Option<Seq<Seq<char>>>,
    ns2: Option<Seq<Seq<char>>>,
    types: Seq<PropertyType>,
    k: int,
    tp: Seq<char>,
    ap: Seq<char>,
    required: bool,
)
    requires
        0 <= k <= types.len(),
        spec_part_list(cx, common, ns, ns2, types.take(k), tp, ap, required).1 is Err,
    ensures
        spec_part_list(cx, common, ns, ns2, types, tp, ap, required) == spec_part_list(
            cx,
            common,
            ns,
            ns2,
            types.take(k),
            tp,
            ap,
            required,
        ),
    decreases types.len() - k,
{
    if k < types.len() {
        assert(types.take(k + 1).drop_last() =~= types.take(k));
        lemma_part_list_err(cx, common, ns, ns2, types, k + 1, tp, ap, required);
    } else {
        assert(types.take(k) =~= types);
    }
}

proof fn lemma_prop_list_err(
    cx: CxV,
    common: Seq<(Seq<char>, Seq<Seq<char>>)>,
    outer: Option<Option<Seq<Seq<char>>>>,
    ns2: Option<Seq<Seq<char>>>,
    props: Seq<Property>,
    k: int,
)
    requires
        0 <= k <= props.len(),
        spec_prop_list(cx, common, outer, ns2, props.take(k)).1 is Err,
    ensures
        spec_prop_list(cx, common, outer, ns2, props) == spec_prop_list(cx, common, outer, ns2, props.take(k)),
    decreases props.len() - k,
{
    if k < props.len() {
        assert(props.take(k + 1).drop_last() =~= props.take(k));
        lemma_prop_list_err(cx, common, outer, ns2, props, k + 1);
    } else {
        assert(props.take(k) =~= props);
    }
}

/// The content of an optional namespace to write names without.
pub open spec fn outer_view(outer: Option<Option<Vec<String>>>) -> Option<Option<Seq<Seq<char>>>> {
    match outer {
        Some(x) => Some(ns_view(x)),
        None => None,
    }
}

/// The attributes of the properties (see `spec_prop_list`).
pub(crate) fn prop_list(
    cx: &Cx,
    common: &StrMap<Vec<String>>,
    outer: &Option<Option<Vec<String>>>,
    ns2: &Option<Vec<String>>,
    props: &Vec<Property>,
    ops: &mut Vec<Op>,
) -> (r: Result<StrMap<(CType, bool)>, SchemaGeneratorError>)
    ensures
        ({
            let s = spec_prop_list(cx_view(*cx), common_view(common@), outer_view(*outer), ns_view(*ns2), props@);
            &&& ops_view(final(ops)@) == ops_view(old(ops)@) + s.0
            &&& match s.1 {
                Ok(a) => r matches Ok(m) && map_vals(m@, cv()) == a,
                Err(e) => r matches Err(x) && err_view(x) == e,
            }
        }),
    decreases props,
{
    let ghost cxv = cx_view(*cx);
    let ghost o = outer_view(*outer);
    let ghost n2 = ns_view(*ns2);
    let ghost o0 = ops_view(ops@);
    let mut attrs: StrMap<(CType, bool)> = StrMap::new();
    let mut i: usize = 0;
    assert(props@.take(0) =~= Seq::<Property>::empty());
    assert(o0 + Seq::<OpV>::empty() =~= o0);
    assert(map_vals(attrs@, cv()) =~= Seq::<(Seq<char>, (CTypeV, bool))>::empty());
    while i < props.len()
        invariant
            o0 == ops_view(old(ops)@),
            0 <= i <= props@.len(),
            cxv == cx_view(*cx),
            n2 == ns_view(*ns2),
            o == outer_view(*outer),
            ops_view(ops@) == o0 + spec_prop_list(cxv, common_view(common@), o, n2, props@.take(i as int)).0,
            spec_prop_list(cxv, common_view(common@), o, n2, props@.take(i as int)).1 == Ok::<
                Seq<(Seq<char>, (CTypeV, bool))>,
                GenErr,
            >(map_vals(attrs@, cv())),
        decreases props@.len() - i,
    {
        let ghost pre = props@.take(i as int);
        let ghost s1 = spec_prop_list(cxv, common_view(common@), o, n2, pre);
        let p = &props[i];
        proof {
            assert(props@.take(i + 1).drop_last() =~= pre);
            assert(props@.take(i + 1).last() == props@[i as int]);
        }
        match check_unreserved_id(p.name.as_str()) {
            Err(m) => {
                proof {
                    assert(spec_prop_list(cxv, common_view(common@), o, n2, props@.take(i + 1)) == (
                        s1.0,
                        Err::<Seq<(Seq<char>, (CTypeV, bool))>, GenErr>(GenErr::ReservedName(m@)),
                    ));
                    lemma_prop_list_err(cxv, common_view(common@), o, n2, props@, i + 1);
                }
                return Err(SchemaGeneratorError::ReservedName(m));
            },
            Ok(()) => {},
        }
        assert(decreases_to!(*props => props@));
        assert(decreases_to!(props@ => props@[i as int]));
        assert(decreases_to!(props@[i as int] => props@[i as int].prop_type));
        let ghost before = ops_view(ops@);
        match cedar_type(cx, common, ns2, p.name.as_str(), &p.prop_type, ops) {
            Err(e) => {
                proof {
                    let s2 = spec_cedar_type(cxv, common_view(common@), n2, p.name@, p.prop_type);
                    assert(ops_view(ops@) =~= o0 + (s1.0 + s2.0));
                    lemma_prop_list_err(cxv, common_view(common@), o, n2, props@, i + 1);
                }
                return Err(e);
            },
            Ok(t) => {
                let ghost tv = ctype_view(t);
                let t2 = match outer {
                    Some(x) => unqualify_type(x, t),
                    None => t,
                };
                let ghost old_attrs = attrs@;
                attrs.insert(p.name.clone(), (t2, p.required));
                proof {
                    lemma_map_vals_insert(old_attrs, cv(), p.name@, (t2, p.required));
                    let s2 = spec_cedar_type(cxv, common_view(common@), n2, p.name@, p.prop_type);
                    assert(ops_view(ops@) =~= o0 + (s1.0 + s2.0));
                }
            },
        }
        i = i + 1;
    }
    assert(props@.take(props@.len() as int) =~= props@);
    Ok(attrs)
}

/// The record of a tuple or a union (see `spec_part_list`), declared in
/// the namespace named after it.
fn parts(
    cx: &Cx,
    common: &StrMap<Vec<String>>,
    ns: &Option<Vec<String>>,
    name: &str,
    types: &Vec<PropertyType>,
    tp: &str,
    ap: &str,
    required: bool,
    ops: &mut Vec<Op>,
) -> (r: Result<CType, SchemaGeneratorError>)
    ensures
        ({
            let ns2 = Some(child_ns(ns_view(*ns), name@));
            let s = spec_part_list(cx_view(*cx), common_view(common@), ns_view(*ns), ns2, types@, tp@, ap@, required);
            match s.1 {
                Err(e) => {
                    &&& ops_view(final(ops)@) == ops_view(old(ops)@) + (seq![OpV::AddNamespace(ns2)] + s.0)
                    &&& r matches Err(x) && err_view(x) == e
                },
                Ok(a) => {
                    &&& ops_view(final(ops)@) == ops_view(old(ops)@) + (seq![OpV::AddNamespace(ns2)] + s.0
                        + seq![OpV::DropIfEmpty(ns2)])
                    &&& r matches Ok(x) && ctype_view(x) == CTypeV::Record(a)
                },
            }
        }),
    decreases types,
{
    let ghost cxv = cx_view(*cx);
    let ghost nsv = ns_view(*ns);
    let ns2 = Some(qualified_name(ns, name));
    let ghost n2 = ns_view(ns2);
    let ghost o0 = ops_view(ops@);
    emit(ops, Op::AddNamespace(copy_namespace(&ns2)));
    let ghost o1 = ops_view(ops@);
    let mut attrs: StrMap<(CType, bool)> = StrMap::new();
    let mut i: usize = 0;
    assert(types@.take(0) =~= Seq::<PropertyType>::empty());
    assert(o1 + Seq::<OpV>::empty() =~= o1);
    assert(map_vals(attrs@, cv()) =~= Seq::<(Seq<char>, (CTypeV, bool))>::empty());
    while i < types.len()
        invariant
            o0 == ops_view(old(ops)@),
            0 <= i <= types@.len(),
            cxv == cx_view(*cx),
            nsv == ns_view(*ns),
            n2 == ns_view(ns2),
            n2 == Some(child_ns(nsv, name@)),
            o1 == o0.push(OpV::AddNamespace(n2)),
            ops_view(ops@) == o1 + spec_part_list(cxv, common_view(common@), nsv, n2, types@.take(i as int), tp@, ap@, required).0,
            spec_part_list(cxv, common_view(common@), nsv, n2, types@.take(i as int), tp@, ap@, required).1 == Ok::<
                Seq<(Seq<char>, (CTypeV, bool))>,
                GenErr,
            >(map_vals(attrs@, cv())),
        decreases types@.len() - i,
    {
        let ghost pre = types@.take(i as int);
        let ghost s1 = spec_part_list(cxv, common_view(common@), nsv, n2, pre, tp@, ap@, required);
        proof {
            assert(types@.take(i + 1).drop_last() =~= pre);
            assert(types@.take(i + 1).last() == types@[i as int]);
        }
        let digits = u64_to_decimal(i as u64);
        let mut part = tp.to_string();
        part.append(digits.as_str());
        let mut attr = ap.to_string();
        attr.append(digits.as_str());
        assert(decreases_to!(*types => types@));
        assert(decreases_to!(types@ => types@[i as int]));
        match cedar_type(cx, common, &ns2, part.as_str(), &types[i], ops) {
            Err(e) => {
                proof {
                    let s2 = spec_cedar_type(cxv, common_view(common@), n2, tp@ + decimal(i as nat), types@[i as int]);
                    assert(ops_view(ops@) =~= o1 + (s1.0 + s2.0));
                    lemma_part_list_err(cxv, common_view(common@), nsv, n2, types@, i + 1, tp@, ap@, required);
                    assert(o1 + (s1.0 + s2.0) =~= o0 + (seq![OpV::AddNamespace(n2)] + (s1.0 + s2.0)));
                }
                return Err(e);
            },
            Ok(t) => {
                let u = unqualify_type(ns, t);
                let ghost old_attrs = attrs@;
                attrs.insert(attr, (u, required));
                proof {
                    lemma_map_vals_insert(old_attrs, cv(), ap@ + decimal(i as nat), (u, required));
                    let s2 = spec_cedar_type(cxv, common_view(common@), n2, tp@ + decimal(i as nat), types@[i as int]);
                    assert(ops_view(ops@) =~= o1 + (s1.0 + s2.0));
                }
            },
        }
        i = i + 1;
    }
    assert(types@.take(types@.len() as int) =~= types@);
    let ghost sfull = spec_part_list(cxv, common_view(common@), nsv, n2, types@, tp@, ap@, required);
    emit(ops, Op::DropIfEmpty(ns2));
    assert(ops_view(ops@) =~= o0 + (seq![OpV::AddNamespace(n2)] + sfull.0 + seq![OpV::DropIfEmpty(n2)]));
    Ok(CType::Record(record_of(attrs)))
}

/// Translates the type `pt` named `name`, read in namespace `ns`, into a
/// Cedar type, emitting the steps that declare the types it needs. `common` maps the names of the type
/// definitions in scope to the common types that hold them.
#[verifier::rlimit(60)]
pub fn cedar_type(
    cx: &Cx,
    common: &StrMap<Vec<String>>,
    ns: &Option<Vec<String>>,
    name: &str,
    pt: &PropertyType,
    ops: &mut Vec<Op>,
) -> (r: Result<CType, SchemaGeneratorError>)
    ensures
        ops_view(final(ops)@) == ops_view(old(ops)@) + spec_cedar_type(
            cx_view(*cx),
            common_view(common@),
            ns_view(*ns),
            name@,
            *pt,
        ).0,
        match spec_cedar_type(cx_view(*cx), common_view(common@), ns_view(*ns), name@, *pt).1 {
            Ok(t) => r matches Ok(x) && ctype_view(x) == t,
            Err(e) => r matches Err(x) && err_view(x) == e,
        },
    decreases *pt,
{
    let ghost cxv = cx_view(*cx);
    let ghost nsv = ns_view(*ns);
    let ghost o0 = ops_view(ops@);
    assert(o0 + Seq::<OpV>::empty() =~= o0);
    match pt {
        PropertyType::Bool => Ok(prim_type(BOOL_TYPE)),
        PropertyType::Integer => Ok(prim_type(LONG_TYPE)),
        PropertyType::Float => if cx.config.numbers_as_decimal {
            Ok(prim_type(DECIMAL_TYPE))
        } else {
            opaque(cx, FLOAT_TYPE, ops)
        },
        PropertyType::Number => if cx.config.numbers_as_decimal {
            Ok(prim_type(DECIMAL_TYPE))
        } else {
            opaque(cx, NUMBER_TYPE, ops)
        },
        PropertyType::String => Ok(prim_type(STRING_TYPE)),
        PropertyType::Decimal => Ok(prim_type(DECIMAL_TYPE)),
        PropertyType::Datetime => Ok(prim_type(DATETIME_TYPE)),
        PropertyType::Duration => Ok(prim_type(DURATION_TYPE)),
        PropertyType::IpAddr => Ok(prim_type(IPADDR_TYPE)),
        PropertyType::Null => opaque(cx, NULL_TYPE, ops),
        PropertyType::Unknown => opaque(cx, UNKNOWN_TYPE, ops),
        PropertyType::Enum { variants } => {
            if variants.len() == 0 {
                return Err(SchemaGeneratorError::empty_enum_choice(name.to_string()));
            }
            let fp = EntityTypeFingerprint::Enum {
                base_name: name.to_string(),
                variants: copy_strings(variants),
            };
            match lookup_lca(cx, &fp) {
                Some(lca) => flat_ref_exec(cx, qualified_name(&lca, name), true),
                None => {
                    match add_entity(cx, ns, name, EntityDecl::Enum(copy_strings(variants)), true, ops) {
                        Err(e) => Err(e),
                        Ok(()) => flat_ref_exec(cx, qualified_name(ns, name), true),
                    }
                },
            }
        },
        PropertyType::Array { element_ty } => {
            match cedar_type(cx, common, ns, name, &**element_ty, ops) {
                Ok(t) => Ok(CType::SetOf(Box::new(t))),
                Err(e) => Err(e),
            }
        },
        PropertyType::Tuple { types } => parts(cx, common, ns, name, types, "Proj", "proj", true, ops),
        PropertyType::Union { types } => parts(
            cx,
            common,
            ns,
            name,
            types,
            "TypeChoice",
            "typeChoice",
            false,
            ops,
        ),
        PropertyType::Object { properties, additional_properties } => {
            if !cx.config.objects_as_records && is_leaf_record(pt) {
                let fp = EntityTypeFingerprint::new_leaf_record(name.to_string(), properties.as_slice());
                match lookup_lca(cx, &fp) {
                    Some(lca) => {
                        return flat_ref_exec(cx, qualified_name(&lca, name), true);
                    },
                    None => {},
                }
            }
            let ns2 = Some(qualified_name(ns, name));
            let ghost n2 = ns_view(ns2);
            emit(ops, Op::AddNamespace(copy_namespace(&ns2)));
            let ghost start = seq![OpV::AddNamespace(n2)];
            let mut tag_name = name.to_string();
            tag_name.append("Tag");
            match check_unreserved_id(tag_name.as_str()) {
                Err(m) => {
                    return Err(SchemaGeneratorError::ReservedName(m));
                },
                Ok(()) => {},
            }
            let ghost o1 = ops_view(ops@);
            let tags = match additional_properties {
                Some(a) => {
                    match cedar_type(cx, common, &ns2, tag_name.as_str(), &**a, ops) {
                        Ok(t) => Some(t),
                        Err(e) => {
                            return Err(e);
                        },
                    }
                },
                None => None,
            };
            let ghost tag_ops = match additional_properties {
                Some(a) => spec_cedar_type(cxv, common_view(common@), n2, name@ + "Tag"@, **a).0,
                None => Seq::<OpV>::empty(),
            };
            assert(ops_view(ops@) =~= o0 + start + tag_ops);
            let outer = Some(copy_namespace(ns));
            let attrs = match prop_list(cx, common, &outer, &ns2, properties, ops) {
                Ok(m) => m,
                Err(e) => {
                    return Err(e);
                },
            };
            let ghost ps = spec_prop_list(cxv, common_view(common@), Some(nsv), n2, properties@);
            assert(ops_view(ops@) =~= o0 + (start + tag_ops + ps.0));
            let ghost mid = ops_view(ops@);
            let fields = record_of(attrs);
            if cx.config.objects_as_records && tags.is_none() {
                match add_common(cx, ns, name, CType::Record(fields), true, ops) {
                    Err(e) => {
                        return Err(e);
                    },
                    Ok(()) => {},
                }
                match flat_ref_exec(cx, qualified_name(ns, name), false) {
                    Err(e) => Err(e),
                    Ok(t) => {
                        emit(ops, Op::DropIfEmpty(ns2));
                        Ok(t)
                    },
                }
            } else {
                match add_entity(cx, ns, name, EntityDecl::Record(fields, tags), true, ops) {
                    Err(e) => {
                        return Err(e);
                    },
                    Ok(()) => {},
                }
                match flat_ref_exec(cx, qualified_name(ns, name), true) {
                    Err(e) => Err(e),
                    Ok(t) => {
                        emit(ops, Op::DropIfEmpty(ns2));
                        Ok(t)
                    },
                }
            }
        },
        PropertyType::Ref { name: target } => {
            let _ = common.len();
            proof {
                crate::strmap::lemma_map_vals_lookup(common@, |v: Vec<String>| strings_of(v@), target@);
            }
            match common.get(target.as_str()) {
            None => {
                let ns_text_exec = match ns {
                    None => String::new(),
                    Some(p) => join_strings(p, "::"),
                };
                proof {
                    reveal_strlit("::");
                }
                Err(SchemaGeneratorError::undefined_ref(target.clone(), ns_text_exec))
            },
            Some(p) => flat_ref_exec(cx, copy_strings(p), false),
            }
        },
    }
}

/// Each primitive property type becomes its own Cedar type, with no step
/// and wherever it is read: booleans `Bool`, integers `Long`, strings
/// `String`, decimals `decimal`, dates `datetime`, durations `duration`
/// and addresses `ipaddr`.
pub proof fn lemma_primitive_cedar_types(
    cx: CxV,
    common: Seq<(Seq<char>, Seq<Seq<char>>)>,
    ns: Option<Seq<Seq<char>>>,
    name: Seq<char>,
)
    ensures
        spec_cedar_type(cx, common, ns, name, PropertyType::Bool) == (Seq::<OpV>::empty(), Ok::<CTypeV, GenErr>(CTypeV::EntityOrCommon(seq!["Bool"@]))),
        spec_cedar_type(cx, common, ns, name, PropertyType::Integer) == (Seq::<OpV>::empty(), Ok::<CTypeV, GenErr>(CTypeV::EntityOrCommon(seq!["Long"@]))),
        spec_cedar_type(cx, common, ns, name, PropertyType::String) == (Seq::<OpV>::empty(), Ok::<CTypeV, GenErr>(CTypeV::EntityOrCommon(seq!["String"@]))),
        spec_cedar_type(cx, common, ns, name, PropertyType::Decimal) == (Seq::<OpV>::empty(), Ok::<CTypeV, GenErr>(CTypeV::EntityOrCommon(seq!["decimal"@]))),
        spec_cedar_type(cx, common, ns, name, PropertyType::Datetime) == (Seq::<OpV>::empty(), Ok::<CTypeV, GenErr>(CTypeV::EntityOrCommon(seq!["datetime"@]))),
        spec_cedar_type(cx, common, ns, name, PropertyType::Duration) == (Seq::<OpV>::empty(), Ok::<CTypeV, GenErr>(CTypeV::EntityOrCommon(seq!["duration"@]))),
        spec_cedar_type(cx, common, ns, name, PropertyType::IpAddr) == (Seq::<OpV>::empty(), Ok::<CTypeV, GenErr>(CTypeV::EntityOrCommon(seq!["ipaddr"@]))),
{
}

} // verus!
