//! The schema generator: a schema stub, read once, into which MCP tools
//! are added as actions, one tool or one server at a time. A change that
//! fails leaves the schema as it was.

use crate::description::{PType, PropertyType, ServerDescription, ToolDescription};
use crate::generator::actions::{
    lemma_tool_declares_action, add_typedefs, register_typedefs, spec_register, spec_tool_action, spec_typedefs, tool_action,
};
use crate::generator::config::{default_generator_config, SchemaGeneratorConfig};
use crate::generator::dedup::{
    child_ns, copy_namespace, duplicates, is_primitive_type, ns_view, record_all, unreserved_id_error,
    DeduplicatedEntityType, EntityTypeFingerprint, FingerprintView,
};
use crate::generator::err::SchemaGeneratorError;
use crate::generator::identifiers::{
    BOOL_TYPE, DATETIME_TYPE, DECIMAL_TYPE, DURATION_TYPE, FLOAT_TYPE, IPADDR_TYPE, LONG_TYPE, MCP_ACTION,
    MCP_PRINCIPAL, MCP_RESOURCE, NULL_TYPE, NUMBER_TYPE, STRING_TYPE, UNKNOWN_TYPE,
};
use crate::generator::leaf_fields::{prim_ptype, resolved_wf};
use crate::generator::model::{
    attrs_view, err_view, ops_view, ActionDeclV, CTypeV, EntityDecl, EntityDeclV, GenErr, Op, OpV,
};
use crate::generator::plan::{
    candidates, existing_view, fp_name, placed, placement, resolved_list_view, server_collected,
    ExistingEntity, Placement, ResolvedView,
};
use crate::generator::schema_state::{
    declares_action, declares_entity, distinct_namespaces, each_with, lemma_declare_entity_quietly, inserted, lemma_run_keeps_action, lemma_run_keeps_wf,
    spec_apply, spec_occupant, spec_outcome, spec_run, state_wf, EntitySlotV, NsV, SchemaState,
};
use crate::generator::stub::{
    context_entries, contexts_view, map_of, marked, read_stub, uses_global_namespace, GeneratorSetup, StubDecl, StubNamespace,
    StubSummary,
};
use crate::generator::translate::{
    add_entity, cedar_type, common_view, cv, cx_view, emit, flat_decl, prim, record_of, spec_add_entity, spec_cedar_type,
    spec_opaque, Cx, CxV,
};
use crate::strmap::{lemma_map_vals_insert, map_insert, map_vals, sorted_keys, StrMap};
use crate::text::strings_of;
use vstd::prelude::*;

verus! {

// ---------------------------------------------------------------------------
// Declaring deduplicated entity types.
// ---------------------------------------------------------------------------
/// The type that a field of a leaf record, of primitive type `p`,
/// translates to, with the steps that declare what it needs. (The fields
/// of a leaf record are of primitive types only.)
pub open spec fn spec_prim(cx: CxV, p: PType) -> (Seq<OpV>, Result<CTypeV, GenErr>) {
    match p {
        PType::Bool => prim(BOOL_TYPE@),
        PType::Integer => prim(LONG_TYPE@),
        PType::Float => if cx.config.numbers_as_decimal {
            prim(DECIMAL_TYPE@)
        } else {
            spec_opaque(cx, FLOAT_TYPE@)
        },
        PType::Number => if cx.config.numbers_as_decimal {
            prim(DECIMAL_TYPE@)
        } else {
            spec_opaque(cx, NUMBER_TYPE@)
        },
        PType::String => prim(STRING_TYPE@),
        PType::Decimal => prim(DECIMAL_TYPE@),
        PType::Datetime => prim(DATETIME_TYPE@),
        PType::Duration => prim(DURATION_TYPE@),
        PType::IpAddr => prim(IPADDR_TYPE@),
        PType::Null => spec_opaque(cx, NULL_TYPE@),
        _ => spec_opaque(cx, UNKNOWN_TYPE@),
    }
}

/// A primitive type translates the same wherever it is read.
pub proof fn lemma_prim_translation(
    cx: CxV,
    common: Seq<(Seq<char>, Seq<Seq<char>>)>,
    ns: Option<Seq<Seq<char>>>,
    name: Seq<char>,
    pt: PropertyType,
)
    requires
        is_primitive_type(pt),
    ensures
        spec_cedar_type(cx, common, ns, name, pt) == spec_prim(cx, crate::description::ptype_view(pt)),
{
}

/// The attributes of the fields of a leaf record, each translated, with
/// the steps that declare what they need; or the error of the first field
/// whose name is not an identifier.
pub open spec fn spec_leaf_fields(cx: CxV, fields: Seq<(Seq<char>, PType, bool)>) -> (
    Seq<OpV>,
    Result<Seq<(Seq<char>, (CTypeV, bool))>, GenErr>,
)
    decreases fields.len(),
{
    if fields.len() == 0 {
        (Seq::empty(), Ok(Seq::empty()))
    } else {
        let s1 = spec_leaf_fields(cx, fields.drop_last());
        match s1.1 {
            Err(e) => (s1.0, Err(e)),
            Ok(a) => {
                let f = fields.last();
                match unreserved_id_error(f.0) {
                    Some(m) => (s1.0, Err(GenErr::ReservedName(m))),
                    None => {
                        let s2 = spec_prim(cx, f.1);
                        match s2.1 {
                            Err(e) => (s1.0 + s2.0, Err(e)),
                            Ok(t) => (s1.0 + s2.0, Ok(map_insert(a, f.0, (t, f.2)))),
                        }
                    },
                }
            },
        }
    }
}

/// The steps of declaring a deduplicated entity type in its lowest common
/// namespace: that namespace is added, then the enum, or the record of the
/// leaf record's fields, is declared there.
pub open spec fn spec_place_one(cx: CxV, c: ResolvedView) -> (Seq<OpV>, Result<(), GenErr>) {
    let lca = c.1;
    let start = seq![OpV::AddNamespace(lca)];
    match c.0 {
        FingerprintView::Enum(name, vs) => {
            let a = spec_add_entity(cx, lca, name, EntityDeclV::Enum(vs), true);
            (start + a.0, a.1)
        },
        FingerprintView::LeafRecord(name, fs) => {
            let f = spec_leaf_fields(cx, fs);
            match f.1 {
                Err(e) => (start + f.0, Err(e)),
                Ok(attrs) => {
                    let a = spec_add_entity(cx, lca, name, EntityDeclV::Record(attrs, None), true);
                    (start + f.0 + a.0, a.1)
                },
            }
        },
    }
}

/// The steps of declaring the candidates that are placed, in order, up to
/// the first that fails.
pub open spec fn spec_place(cx: CxV, c: Seq<ResolvedView>, ps: Seq<Placement>) -> (Seq<OpV>, Result<(), GenErr>)
    decreases c.len(),
{
    if c.len() == 0 {
        (Seq::empty(), Ok(()))
    } else {
        let s1 = spec_place(cx, c.drop_last(), ps);
        match s1.1 {
            Err(e) => (s1.0, Err(e)),
            Ok(_) => if ps[c.len() - 1] == Placement::Place {
                let s2 = spec_place_one(cx, c.last());
                (s1.0 + s2.0, s2.1)
            } else {
                s1
            },
        }
    }
}

proof fn lemma_leaf_fields_err(cx: CxV, fields: Seq<(Seq<char>, PType, bool)>, k: int)
    requires
        0 <= k <= fields.len(),
        spec_leaf_fields(cx, fields.take(k)).1 is Err,
    ensures
        spec_leaf_fields(cx, fields) == spec_leaf_fields(cx, fields.take(k)),
    decreases fields.len() - k,
{
    if k < fields.len() {
        assert(fields.take(k + 1).drop_last() =~= fields.take(k));
        lemma_leaf_fields_err(cx, fields, k + 1);
    } else {
        assert(fields.take(k) =~= fields);
    }
}

/// The attributes of the fields of a leaf record (see `spec_leaf_fields`),
/// read in `ns`.
fn leaf_fields(
    cx: &Cx,
    ns: &Option<Vec<String>>,
    fields: &Vec<(String, PropertyType, bool)>,
    ops: &mut Vec<Op>,
) -> (r: Result<Vec<(String, crate::generator::model::CType, bool)>, SchemaGeneratorError>)
    requires
        crate::generator::leaf_fields::prim_fields(crate::generator::dedup::fields_view(fields@)),
    ensures
        ({
            let s = spec_leaf_fields(cx_view(*cx), crate::generator::dedup::fields_view(fields@));
            &&& ops_view(final(ops)@) == ops_view(old(ops)@) + s.0
            &&& match s.1 {
                Ok(a) => r matches Ok(v) && attrs_view(v@) == a,
                Err(e) => r matches Err(x) && err_view(x) == e,
            }
        }),
{
    let ghost cxv = cx_view(*cx);
    let ghost fv = crate::generator::dedup::fields_view(fields@);
    let ghost o0 = ops_view(ops@);
    let empty: StrMap<Vec<String>> = StrMap::new();
    assert(common_view(empty@) =~= Seq::<(Seq<char>, Seq<Seq<char>>)>::empty());
    let mut attrs: StrMap<(crate::generator::model::CType, bool)> = StrMap::new();
    let mut i: usize = 0;
    assert(fv.take(0) =~= Seq::<(Seq<char>, PType, bool)>::empty());
    assert(o0 + Seq::<OpV>::empty() =~= o0);
    assert(map_vals(attrs@, cv()) =~= Seq::<(Seq<char>, (CTypeV, bool))>::empty());
    while i < fields.len()
        invariant
            0 <= i <= fields@.len(),
            cxv == cx_view(*cx),
            fv == crate::generator::dedup::fields_view(fields@),
            fv.len() == fields@.len(),
            crate::generator::leaf_fields::prim_fields(fv),
            common_view(empty@) == Seq::<(Seq<char>, Seq<Seq<char>>)>::empty(),
            o0 == ops_view(old(ops)@),
            ops_view(ops@) == o0 + spec_leaf_fields(cxv, fv.take(i as int)).0,
            spec_leaf_fields(cxv, fv.take(i as int)).1 == Ok::<Seq<(Seq<char>, (CTypeV, bool))>, GenErr>(
                map_vals(attrs@, cv()),
            ),
        decreases fields@.len() - i,
    {
        let f = &fields[i];
        let ghost s1 = spec_leaf_fields(cxv, fv.take(i as int));
        proof {
            assert(fv.take(i + 1).drop_last() =~= fv.take(i as int));
            assert(fv.take(i + 1).last() == fv[i as int]);
            assert(fv[i as int] == crate::generator::dedup::field_view(fields@[i as int]));
            assert(prim_ptype(fv[i as int].1));
            crate::generator::leaf_fields::lemma_prim_view(fields@[i as int].1);
            lemma_prim_translation(
                cxv,
                Seq::<(Seq<char>, Seq<Seq<char>>)>::empty(),
                ns_view(*ns),
                f.0@,
                f.1,
            );
        }
        match crate::generator::dedup::check_unreserved_id(f.0.as_str()) {
            Err(m) => {
                proof {
                    lemma_leaf_fields_err(cxv, fv, i + 1);
                }
                return Err(SchemaGeneratorError::ReservedName(m));
            },
            Ok(()) => {},
        }
        match cedar_type(cx, &empty, ns, f.0.as_str(), &f.1, ops) {
            Err(e) => {
                proof {
                    let s2 = spec_prim(cxv, fv[i as int].1);
                    assert(ops_view(ops@) =~= o0 + (s1.0 + s2.0));
                    lemma_leaf_fields_err(cxv, fv, i + 1);
                }
                return Err(e);
            },
            Ok(t) => {
                let ghost before = attrs@;
                let ghost entry = (t, f.2);
                attrs.insert(f.0.clone(), (t, f.2));
                proof {
                    lemma_map_vals_insert(before, cv(), f.0@, entry);
                    let s2 = spec_prim(cxv, fv[i as int].1);
                    assert(ops_view(ops@) =~= o0 + (s1.0 + s2.0));
                }
            },
        }
        i = i + 1;
    }
    assert(fv.take(fv.len() as int) =~= fv);
    Ok(record_of(attrs))
}

/// Declares a deduplicated entity type in its lowest common namespace
/// (see `spec_place_one`).
fn place_one(cx: &Cx, c: &(EntityTypeFingerprint, DeduplicatedEntityType), ops: &mut Vec<Op>) -> (r: Result<
    (),
    SchemaGeneratorError,
>)
    requires
        crate::generator::leaf_fields::fp_wf(c.0@),
    ensures
        ({
            let s = spec_place_one(cx_view(*cx), crate::generator::dedup::resolved_view(*c));
            &&& ops_view(final(ops)@) == ops_view(old(ops)@) + s.0
            &&& match s.1 {
                Ok(()) => r is Ok,
                Err(e) => r matches Err(x) && err_view(x) == e,
            }
        }),
{
    let ghost o0 = ops_view(ops@);
    let ghost cxv = cx_view(*cx);
    let lca = &c.1.lca_namespace;
    let ghost n = ns_view(*lca);
    emit(ops, Op::AddNamespace(copy_namespace(lca)));
    let ghost start = seq![OpV::AddNamespace(n)];
    match &c.0 {
        EntityTypeFingerprint::Enum { base_name, variants } => {
            let ghost a = spec_add_entity(cxv, n, base_name@, EntityDeclV::Enum(strings_of(variants@)), true);
            let r = add_entity(
                cx,
                lca,
                base_name.as_str(),
                EntityDecl::Enum(crate::generator::dedup::copy_strings(variants)),
                true,
                ops,
            );
            assert(ops_view(ops@) =~= o0 + (start + a.0));
            r
        },
        EntityTypeFingerprint::LeafRecord { base_name, fields } => {
            let ghost f = spec_leaf_fields(cxv, crate::generator::dedup::fields_view(fields@));
            let attrs = match leaf_fields(cx, lca, fields, ops) {
                Err(e) => {
                    assert(ops_view(ops@) =~= o0 + (start + f.0));
                    return Err(e);
                },
                Ok(a) => a,
            };
            let ghost av = attrs_view(attrs@);
            let ghost a = spec_add_entity(cxv, n, base_name@, EntityDeclV::Record(av, None), true);
            let r = add_entity(cx, lca, base_name.as_str(), EntityDecl::Record(attrs, None), true, ops);
            assert(ops_view(ops@) =~= o0 + (start + f.0 + a.0));
            r
        },
    }
}

proof fn lemma_place_err(cx: CxV, c: Seq<ResolvedView>, ps: Seq<Placement>, k: int)
    requires
        0 <= k <= c.len(),
        spec_place(cx, c.take(k), ps).1 is Err,
    ensures
        spec_place(cx, c, ps) == spec_place(cx, c.take(k), ps),
    decreases c.len() - k,
{
    if k < c.len() {
        assert(c.take(k + 1).drop_last() =~= c.take(k));
        lemma_place_err(cx, c, ps, k + 1);
    } else {
        assert(c.take(k) =~= c);
    }
}

/// Declares the candidates that are placed, in order (see `spec_place`).
pub fn place_candidates(
    cx: &Cx,
    cands: &Vec<(EntityTypeFingerprint, DeduplicatedEntityType)>,
    placements: &Vec<Placement>,
    ops: &mut Vec<Op>,
) -> (r: Result<(), SchemaGeneratorError>)
    requires
        placements@.len() == cands@.len(),
        resolved_wf(resolved_list_view(cands@)),
    ensures
        ({
            let s = spec_place(cx_view(*cx), resolved_list_view(cands@), placements@);
            &&& ops_view(final(ops)@) == ops_view(old(ops)@) + s.0
            &&& match s.1 {
                Ok(()) => r is Ok,
                Err(e) => r matches Err(x) && err_view(x) == e,
            }
        }),
{
    let ghost o0 = ops_view(ops@);
    let ghost cxv = cx_view(*cx);
    let ghost c = resolved_list_view(cands@);
    let ghost ps = placements@;
    let mut i: usize = 0;
    assert(c.take(0) =~= Seq::<ResolvedView>::empty());
    assert(o0 + Seq::<OpV>::empty() =~= o0);
    while i < cands.len()
        invariant
            0 <= i <= cands@.len(),
            placements@.len() == cands@.len(),
            ps == placements@,
            cxv == cx_view(*cx),
            c == resolved_list_view(cands@),
            c.len() == cands@.len(),
            resolved_wf(c),
            o0 == ops_view(old(ops)@),
            ops_view(ops@) == o0 + spec_place(cxv, c.take(i as int), ps).0,
            spec_place(cxv, c.take(i as int), ps).1 is Ok,
        decreases cands@.len() - i,
    {
        let ghost s1 = spec_place(cxv, c.take(i as int), ps);
        proof {
            assert(c.take(i + 1).drop_last() =~= c.take(i as int));
            assert(c.take(i + 1).last() == c[i as int]);
            assert(c.take(i + 1).len() - 1 == i);
            assert(c[i as int] == crate::generator::dedup::resolved_view(cands@[i as int]));
            assert(crate::generator::leaf_fields::fp_wf(c[i as int].0));
            assert(c[i as int].0 == cands@[i as int].0@);
        }
        if placements[i] == Placement::Place {
            match place_one(cx, &cands[i], ops) {
                Err(e) => {
                    proof {
                        let s2 = spec_place_one(cxv, c[i as int]);
                        assert(ops_view(ops@) =~= o0 + (s1.0 + s2.0));
                        lemma_place_err(cxv, c, ps, i + 1);
                    }
                    return Err(e);
                },
                Ok(()) => {
                    proof {
                        let s2 = spec_place_one(cxv, c[i as int]);
                        assert(ops_view(ops@) =~= o0 + (s1.0 + s2.0));
                    }
                },
            }
        }
        i = i + 1;
    }
    assert(c.take(c.len() as int) =~= c);
    Ok(())
}

} // verus!

verus! {

// ---------------------------------------------------------------------------
// The generator.
// ---------------------------------------------------------------------------
/// Builds a Cedar schema from a schema stub that declares the MCP
/// principals, resources and shared context types, with one action per
/// MCP tool.
#[derive(Debug)]
pub struct SchemaGenerator {
    /// The schema built so far.
    pub schema: SchemaState,
    /// What translation reads: the configuration, the stub's namespace and
    /// the deduplicated entity types, once placed.
    pub cx: Cx,
    /// What the generator takes from the stub.
    pub setup: GeneratorSetup,
    /// Whether tools were added.
    pub has_tools: bool,
}

/// Why a stub cannot be read, if it cannot: it must have exactly one
/// namespace, not the global one, with entity types marked as principals
/// and as resources.
pub open spec fn stub_error(stub: StubSummary) -> Option<GenErr> {
    if uses_global_namespace(stub) {
        Some(GenErr::GlobalNamespaceUsed)
    } else if stub.namespaces@.len() != 1 {
        Some(GenErr::WrongNumberOfNamespaces)
    } else if marked(stub.namespaces@[0].1.entity_types@, MCP_PRINCIPAL@).len() == 0 {
        Some(GenErr::NoPrincipalTypes)
    } else if marked(stub.namespaces@[0].1.entity_types@, MCP_RESOURCE@).len() == 0 {
        Some(GenErr::NoResourceTypes)
    } else {
        None
    }
}

/// The names of declarations.
pub open spec fn decl_names(decls: Seq<StubDecl>) -> Seq<Seq<char>> {
    decls.map_values(|d: StubDecl| d.name@)
}

/// The schema of the stub's namespace `ns`, declaring `d`.
pub open spec fn stub_schema(ns: Option<Vec<String>>, d: StubNamespace) -> Seq<(Option<Seq<Seq<char>>>, NsV)> {
    seq![
        (
            ns_view(ns),
            NsV {
                commons: inserted(each_with(decl_names(d.common_types@), None::<CTypeV>)),
                entities: inserted(
                    d.entity_shapes@.map_values(
                        |e: (String, ExistingEntity)| (e.0@, EntitySlotV::Stub(existing_view(e.1))),
                    ),
                ),
                actions: inserted(each_with(decl_names(d.actions@), None::<ActionDeclV>)),
            },
        ),
    ]
}

fn names_of(decls: &Vec<StubDecl>) -> (r: Vec<String>)
    ensures
        strings_of(r@) == decl_names(decls@),
{
    let mut out: Vec<String> = Vec::new();
    let mut i: usize = 0;
    while i < decls.len()
        invariant
            0 <= i <= decls@.len(),
            strings_of(out@) == decl_names(decls@.take(i as int)),
        decreases decls@.len() - i,
    {
        let ghost before = out@;
        out.push(decls[i].name.clone());
        proof {
            crate::text::lemma_strings_of_push(before, out@.last());
            assert(decl_names(decls@.take(i + 1)) =~= decl_names(decls@.take(i as int)).push(decls@[i as int].name@));
        }
        i = i + 1;
    }
    assert(decls@.take(decls@.len() as int) =~= decls@);
    out
}

/// The steps of adding the action of the tool `t` to what `g` built.
pub open spec fn tool_steps(
    cx: CxV,
    setup: GeneratorSetup,
    common: Seq<(Seq<char>, Seq<Seq<char>>)>,
    t: ToolDescription,
) -> (Seq<OpV>, Result<(), GenErr>) {
    spec_tool_action(
        cx,
        common,
        contexts_view(setup.contexts@),
        strings_of(setup.users@),
        strings_of(setup.resources@),
        ns_view(setup.actions),
        t,
    )
}

impl SchemaGenerator {
    /// A generator for the stub with the default configuration.
    pub fn new(stub: &StubSummary) -> (r: Result<SchemaGenerator, SchemaGeneratorError>)
        ensures
            match stub_error(*stub) {
                Some(e) => r matches Err(x) && err_view(x) == e,
                None => r matches Ok(g) && {
                    let decls = stub.namespaces@[0].1;
                    &&& g.schema@ == stub_schema(stub.namespaces@[0].0, decls)
                    &&& cx_view(g.cx) == CxV { config: default_generator_config(), root: ns_view(stub.namespaces@[0].0), placed: None }
                    &&& !g.has_tools
                    &&& strings_of(g.setup.users@) == marked(decls.entity_types@, MCP_PRINCIPAL@)
                    &&& strings_of(g.setup.resources@) == marked(decls.entity_types@, MCP_RESOURCE@)
                    &&& contexts_view(g.setup.contexts@) == map_of(
                        context_entries(decls.entity_types@) + context_entries(decls.common_types@),
                    )
                    &&& match g.setup.actions {
                        Some(a) => strings_of(a@) == marked(decls.actions@, MCP_ACTION@) && a@.len() > 0,
                        None => marked(decls.actions@, MCP_ACTION@).len() == 0,
                    }
                },
            },
    {
        Self::new_with_config(stub, SchemaGeneratorConfig::default())
    }

    /// A generator for the stub, with no tools yet.
    pub fn new_with_config(stub: &StubSummary, config: SchemaGeneratorConfig) -> (r: Result<
        SchemaGenerator,
        SchemaGeneratorError,
    >)
        ensures
            match stub_error(*stub) {
                Some(e) => r matches Err(x) && err_view(x) == e,
                None => r matches Ok(g) && {
                    let decls = stub.namespaces@[0].1;
                    &&& g.schema@ == stub_schema(stub.namespaces@[0].0, decls)
                    &&& cx_view(g.cx) == CxV { config, root: ns_view(stub.namespaces@[0].0), placed: None }
                    &&& !g.has_tools
                    &&& strings_of(g.setup.users@) == marked(decls.entity_types@, MCP_PRINCIPAL@)
                    &&& strings_of(g.setup.resources@) == marked(decls.entity_types@, MCP_RESOURCE@)
                    &&& contexts_view(g.setup.contexts@) == map_of(
                        context_entries(decls.entity_types@) + context_entries(decls.common_types@),
                    )
                    &&& match g.setup.actions {
                        Some(a) => strings_of(a@) == marked(decls.actions@, MCP_ACTION@) && a@.len() > 0,
                        None => marked(decls.actions@, MCP_ACTION@).len() == 0,
                    }
                },
            },
    {
        let setup = match read_stub(stub) {
            Err(e) => {
                return Err(e);
            },
            Ok(s) => s,
        };
        let (ns, decls) = (&stub.namespaces[0].0, &stub.namespaces[0].1);
        let schema = SchemaState::from_stub(
            copy_namespace(ns),
            &names_of(&decls.common_types),
            &decls.entity_shapes,
            &names_of(&decls.actions),
        );
        let root = Some(crate::generator::dedup::copy_strings(&setup.namespace));
        Ok(SchemaGenerator { schema, cx: Cx { config, root, placed: None }, setup, has_tools: false })
    }
}

/// The schema after the actions of the tools are added in order, up to
/// the first that fails.
pub open spec fn spec_tools(
    cx: CxV,
    setup: GeneratorSetup,
    common: Seq<(Seq<char>, Seq<Seq<char>>)>,
    s: Seq<(Option<Seq<Seq<char>>>, NsV)>,
    tools: Seq<ToolDescription>,
) -> Result<Seq<(Option<Seq<Seq<char>>>, NsV)>, GenErr>
    decreases tools.len(),
{
    if tools.len() == 0 {
        Ok(s)
    } else {
        match spec_tools(cx, setup, common, s, tools.drop_last()) {
            Err(e) => Err(e),
            Ok(s1) => match spec_outcome(s1, tool_steps(cx, setup, common, tools.last())) {
                Err(e) => Err(e),
                Ok((s2, _)) => Ok(s2),
            },
        }
    }
}

/// What deduplication does to the schema `s` for the server `d`: the
/// candidates are the entity types found in more than one place; each is
/// placed, reused or skipped according to what its lowest common
/// namespace declares under its name; the placed ones are declared. The
/// result is the schema and the deduplicated entity types (unchanged when
/// deduplication is off).
pub open spec fn spec_dedup(cx: CxV, s: Seq<(Option<Seq<Seq<char>>>, NsV)>, d: ServerDescription) -> Result<
    (Seq<(Option<Seq<Seq<char>>>, NsV)>, Option<Seq<ResolvedView>>),
    GenErr,
> {
    if !cx.config.deduplicate_entity_types {
        Ok((s, cx.placed))
    } else {
        match server_collected(d.tools@, cx.root, cx.config.include_outputs) {
            Err(m) => Err(GenErr::ReservedName(m)),
            Ok(items) => {
                let c = candidates(duplicates(record_all(Seq::empty(), items)), cx.config.objects_as_records);
                let ps = Seq::new(
                    c.len(),
                    |i: int| placement(c, i, spec_occupant(s, c[i].1, fp_name(c[i].0))),
                );
                match spec_outcome(s, spec_place(cx, c, ps)) {
                    Err(e) => Err(e),
                    Ok((s2, _)) => Ok((s2, Some(placed(c, ps)))),
                }
            },
        }
    }
}

/// What adding the server `d` does:
/// its type definitions come into scope in the stub's namespace and are
/// declared there, entity types are deduplicated, and the action of each
/// tool is added. The result is the schema, or the error of the first
/// step that fails, and the deduplicated entity types.
pub open spec fn spec_server(
    cx: CxV,
    setup: GeneratorSetup,
    s0: Seq<(Option<Seq<Seq<char>>>, NsV)>,
    d: ServerDescription,
) -> (Result<Seq<(Option<Seq<Seq<char>>>, NsV)>, GenErr>, Option<Seq<ResolvedView>>) {
    match spec_register(Seq::empty(), cx.root, d.type_defs@) {
        Err(e) => (Err(e), cx.placed),
        Ok(common) => match spec_outcome(s0, spec_typedefs(cx, common, cx.root, d.type_defs@)) {
            Err(e) => (Err(e), cx.placed),
            Ok((s1, _)) => match spec_dedup(cx, s1, d) {
                Err(e) => (Err(e), cx.placed),
                Ok((s2, p)) => (spec_tools(CxV { placed: p, ..cx }, setup, common, s2, d.tools@), p),
            },
        },
    }
}

impl SchemaGenerator {
    /// Takes the steps, then ends with the error of the first that fails
    /// or else with `res`; the schema is restored from `saved` on an error.
    fn finish<X>(
        &mut self,
        ops: Vec<Op>,
        res: Result<X, SchemaGeneratorError>,
        saved: &SchemaState,
    ) -> (r: Result<X, SchemaGeneratorError>)
        ensures
            final(self).cx == old(self).cx,
            final(self).setup == old(self).setup,
            final(self).has_tools == old(self).has_tools,
            match spec_run(old(self).schema@, ops_view(ops@)) {
                Err(e) => r matches Err(x) && err_view(x) == e && final(self).schema@ == saved@,
                Ok(s) => match res {
                    Err(x0) => r matches Err(x) && err_view(x) == err_view(x0) && final(self).schema@ == saved@,
                    Ok(v) => r == Ok::<X, SchemaGeneratorError>(v) && final(self).schema@ == s,
                },
            },
    {
        match self.schema.run(ops) {
            Err(e) => {
                self.schema = saved.copy();
                return Err(e);
            },
            Ok(()) => {},
        }
        match res {
            Err(e) => {
                self.schema = saved.copy();
                Err(e)
            },
            Ok(v) => Ok(v),
        }
    }

    /// A request generator for the tools `tools` added to this generator,
    /// with its configuration and under its namespace.
    pub fn new_request_generator(&self, tools: ServerDescription) -> (r: crate::generator::request::RequestGenerator)
        ensures
            r.config == cx_view(self.cx).config,
            ns_view(r.root) == cx_view(self.cx).root,
            r.tools == tools,
    {
        crate::generator::request::RequestGenerator::new(self.cx.config, tools, crate::generator::dedup::copy_namespace(&self.cx.root))
    }

    /// Adds the action of one tool.
    /// Tools cannot be added once some were.
    pub fn add_action_from_tool_description(&mut self, t: &ToolDescription) -> (r: Result<(), SchemaGeneratorError>)
        ensures
            final(self).cx == old(self).cx,
            final(self).setup == old(self).setup,
            old(self).has_tools ==> (r matches Err(SchemaGeneratorError::ServerDescriptionMerge)
                && final(self).schema@ == old(self).schema@ && final(self).has_tools),
            !old(self).has_tools ==> final(self).has_tools && match spec_outcome(
                old(self).schema@,
                tool_steps(cx_view(old(self).cx), old(self).setup, Seq::empty(), *t),
            ) {
                Ok((s, _)) => r is Ok && final(self).schema@ == s,
                Err(e) => r matches Err(x) && err_view(x) == e && final(self).schema@ == old(self).schema@,
            },
    {
        if self.has_tools {
            return Err(SchemaGeneratorError::ServerDescriptionMerge);
        }
        self.has_tools = true;
        let saved = self.schema.copy();
        let empty: StrMap<Vec<String>> = StrMap::new();
        assert(common_view(empty@) =~= Seq::<(Seq<char>, Seq<Seq<char>>)>::empty());
        let mut ops: Vec<Op> = Vec::new();
        let res = tool_action(
            &self.cx,
            &empty,
            &self.setup.contexts,
            &self.setup.users,
            &self.setup.resources,
            &self.setup.actions,
            t,
            &mut ops,
        );
        assert(ops_view(ops@) =~= tool_steps(cx_view(self.cx), self.setup, Seq::empty(), *t).0);
        self.finish(ops, res, &saved)
    }
}

impl SchemaGenerator {
    /// Deduplicates the entity types of the server `d` (see `spec_dedup`);
    /// on an error the schema is left to the caller to restore.
    fn dedup_stage(&mut self, d: &ServerDescription) -> (r: Result<(), SchemaGeneratorError>)
        requires
            old(self).cx.config.deduplicate_entity_types,
        ensures
            final(self).setup == old(self).setup,
            final(self).has_tools == old(self).has_tools,
            cx_view(final(self).cx).config == cx_view(old(self).cx).config,
            cx_view(final(self).cx).root == cx_view(old(self).cx).root,
            match spec_dedup(cx_view(old(self).cx), old(self).schema@, *d) {
                Ok((s2, p)) => r is Ok && final(self).schema@ == s2 && cx_view(final(self).cx).placed == p,
                Err(e) => r matches Err(x) && err_view(x) == e && cx_view(final(self).cx) == cx_view(old(self).cx),
            },
    {
        let ghost cxv = cx_view(self.cx);
        let ghost s0 = self.schema@;
        let include_outputs = self.cx.config.include_outputs;
        let map = match crate::generator::plan::collect_server_fingerprints(d, &self.cx.root, include_outputs) {
            Err(e) => {
                return Err(e);
            },
            Ok(m) => m,
        };
        let ghost items = server_collected(d.tools@, cxv.root, include_outputs)->Ok_0;
        let resolved = map.resolve_duplicates();
        let cands = crate::generator::plan::dedup_candidates(resolved, self.cx.config.objects_as_records);
        let ghost c = resolved_list_view(cands@);
        proof {
            crate::generator::leaf_fields::lemma_server_collected_wf(d.tools@, cxv.root, include_outputs);
            crate::generator::leaf_fields::lemma_record_all_wf(Seq::empty(), items);
            crate::generator::leaf_fields::lemma_duplicates_wf(record_all(Seq::empty(), items));
            crate::generator::leaf_fields::lemma_candidates_wf(
                duplicates(record_all(Seq::empty(), items)),
                cxv.config.objects_as_records,
            );
            assert(c == candidates(duplicates(record_all(Seq::empty(), items)), cxv.config.objects_as_records));
        }
        let mut occupants: Vec<crate::generator::plan::Occupant> = Vec::new();
        let mut i: usize = 0;
        while i < cands.len()
            invariant
                0 <= i <= cands@.len(),
                c == resolved_list_view(cands@),
                s0 == self.schema@,
                occupants@.len() == i,
                forall|j: int|
                    0 <= j < i ==> crate::generator::plan::occupant_view(#[trigger] occupants@[j]) == spec_occupant(
                        s0,
                        c[j].1,
                        fp_name(c[j].0),
                    ),
            decreases cands@.len() - i,
        {
            proof {
                assert(c[i as int] == crate::generator::dedup::resolved_view(cands@[i as int]));
            }
            let o = self.schema.occupant(&cands[i].1.lca_namespace, cands[i].0.base_name().as_str());
            occupants.push(o);
            i = i + 1;
        }
        let placements = crate::generator::plan::plan_placements(&cands, &occupants);
        let ghost ps = Seq::new(
            c.len(),
            |i: int| placement(c, i, spec_occupant(s0, c[i].1, fp_name(c[i].0))),
        );
        assert(placements@ =~= ps);
        let mut ops: Vec<Op> = Vec::new();
        let g = place_candidates(&self.cx, &cands, &placements, &mut ops);
        assert(ops_view(ops@) =~= spec_place(cxv, c, ps).0);
        match self.schema.run(ops) {
            Err(e) => {
                return Err(e);
            },
            Ok(()) => {},
        }
        match g {
            Err(e) => {
                return Err(e);
            },
            Ok(()) => {},
        }
        self.cx.placed = Some(crate::generator::plan::placed_candidates(cands, &placements));
        Ok(())
    }

    /// Brings the type definitions of the server `d` into scope in the
    /// stub's namespace and declares them there; on an error the schema is
    /// restored from `saved`.
    fn typedef_stage(&mut self, d: &ServerDescription, saved: &SchemaState) -> (r: Result<
        StrMap<Vec<String>>,
        SchemaGeneratorError,
    >)
        ensures
            final(self).cx == old(self).cx,
            final(self).setup == old(self).setup,
            final(self).has_tools == old(self).has_tools,
            match spec_register(Seq::empty(), cx_view(old(self).cx).root, d.type_defs@) {
                Err(e) => r matches Err(x) && err_view(x) == e && final(self).schema@ == old(self).schema@,
                Ok(common) => match spec_outcome(
                    old(self).schema@,
                    spec_typedefs(cx_view(old(self).cx), common, cx_view(old(self).cx).root, d.type_defs@),
                ) {
                    Err(e) => r matches Err(x) && err_view(x) == e && final(self).schema@ == saved@,
                    Ok((s1, _)) => r matches Ok(m) && common_view(m@) == common && final(self).schema@ == s1,
                },
            },
    {
        let ghost cxv = cx_view(self.cx);
        let mut common: StrMap<Vec<String>> = StrMap::new();
        assert(common_view(common@) =~= Seq::<(Seq<char>, Seq<Seq<char>>)>::empty());
        match register_typedefs(&mut common, &self.cx.root, &d.type_defs) {
            Err(e) => {
                return Err(e);
            },
            Ok(()) => {},
        }
        let ghost cm = common_view(common@);
        let mut ops: Vec<Op> = Vec::new();
        let g1 = add_typedefs(&self.cx, &common, &self.cx.root, &d.type_defs, &mut ops);
        assert(ops_view(ops@) =~= spec_typedefs(cxv, cm, cxv.root, d.type_defs@).0);
        match self.finish(ops, g1, saved) {
            Err(e) => Err(e),
            Ok(()) => Ok(common),
        }
    }

    /// Adds the action of each tool, in order (see `spec_tools`); on an
    /// error the schema is restored from `saved`.
    fn tools_stage(&mut self, common: &StrMap<Vec<String>>, tools: &Vec<ToolDescription>, saved: &SchemaState) -> (r:
        Result<(), SchemaGeneratorError>)
        ensures
            final(self).cx == old(self).cx,
            final(self).setup == old(self).setup,
            final(self).has_tools == old(self).has_tools,
            match spec_tools(cx_view(old(self).cx), old(self).setup, common_view(common@), old(self).schema@, tools@) {
                Ok(s) => r is Ok && final(self).schema@ == s,
                Err(e) => r matches Err(x) && err_view(x) == e && final(self).schema@ == saved@,
            },
    {
        let ghost cx2 = cx_view(self.cx);
        let ghost cm = common_view(common@);
        let ghost s2 = self.schema@;
        let ghost setup0 = self.setup;
        let ghost cx0 = self.cx;
        let ghost h0 = self.has_tools;
        let mut i: usize = 0;
        assert(tools@.take(0) =~= Seq::<ToolDescription>::empty());
        while i < tools.len()
            invariant
                0 <= i <= tools@.len(),
                self.cx == cx0,
                cx2 == cx_view(cx0),
                self.setup == setup0,
                self.has_tools == h0,
                cm == common_view(common@),
                s2 == old(self).schema@,
                setup0 == old(self).setup,
                cx0 == old(self).cx,
                h0 == old(self).has_tools,
                spec_tools(cx2, setup0, cm, s2, tools@.take(i as int)) == Ok::<
                    Seq<(Option<Seq<Seq<char>>>, NsV)>,
                    GenErr,
                >(self.schema@),
            decreases tools@.len() - i,
        {
            proof {
                assert(tools@.take(i + 1).drop_last() =~= tools@.take(i as int));
                assert(tools@.take(i + 1).last() == tools@[i as int]);
            }
            let mut ops: Vec<Op> = Vec::new();
            let res = tool_action(
                &self.cx,
                common,
                &self.setup.contexts,
                &self.setup.users,
                &self.setup.resources,
                &self.setup.actions,
                &tools[i],
                &mut ops,
            );
            assert(ops_view(ops@) =~= tool_steps(cx2, setup0, cm, tools@[i as int]).0);
            match self.finish(ops, res, saved) {
                Err(e) => {
                    proof {
                        lemma_tools_err(cx2, setup0, cm, s2, tools@, i + 1);
                    }
                    return Err(e);
                },
                Ok(()) => {},
            }
            i = i + 1;
        }
        assert(tools@.take(tools@.len() as int) =~= tools@);
        Ok(())
    }

    /// Adds the action of each tool of the server `d`
    /// (see `spec_server`). Tools
    /// cannot be added once some were.
    pub fn add_actions_from_server_description(&mut self, d: &ServerDescription) -> (r: Result<
        (),
        SchemaGeneratorError,
    >)
        ensures
            final(self).setup == old(self).setup,
            cx_view(final(self).cx).config == cx_view(old(self).cx).config,
            cx_view(final(self).cx).root == cx_view(old(self).cx).root,
            old(self).has_tools ==> (r matches Err(SchemaGeneratorError::ServerDescriptionMerge)
                && final(self).schema@ == old(self).schema@ && final(self).has_tools
                && cx_view(final(self).cx) == cx_view(old(self).cx)),
            !old(self).has_tools ==> {
                let out = spec_server(cx_view(old(self).cx), old(self).setup, old(self).schema@, *d);
                &&& final(self).has_tools == (d.tools@.len() > 0)
                &&& cx_view(final(self).cx).placed == out.1
                &&& match out.0 {
                    Ok(s) => r is Ok && final(self).schema@ == s,
                    Err(e) => r matches Err(x) && err_view(x) == e && final(self).schema@ == old(self).schema@,
                }
            },
    {
        if self.has_tools {
            return Err(SchemaGeneratorError::ServerDescriptionMerge);
        }
        self.has_tools = d.tools.len() > 0;
        let ghost cxv = cx_view(self.cx);
        let saved = self.schema.copy();
        let common = match self.typedef_stage(d, &saved) {
            Err(e) => {
                return Err(e);
            },
            Ok(c) => c,
        };
        let ghost s1 = self.schema@;
        if self.cx.config.deduplicate_entity_types {
            match self.dedup_stage(d) {
                Err(e) => {
                    self.schema = saved.copy();
                    return Err(e);
                },
                Ok(()) => {},
            }
        }
        let ghost cx2 = cx_view(self.cx);
        assert(spec_dedup(cxv, s1, *d) == Ok::<(Seq<(Option<Seq<Seq<char>>>, NsV)>, Option<Seq<ResolvedView>>), GenErr>((self.schema@, cx2.placed)));
        assert(cx2 == CxV { placed: cx2.placed, ..cxv });
        self.tools_stage(&common, &d.tools, &saved)
    }
}

proof fn lemma_tools_err(
    cx: CxV,
    setup: GeneratorSetup,
    common: Seq<(Seq<char>, Seq<Seq<char>>)>,
    s: Seq<(Option<Seq<Seq<char>>>, NsV)>,
    tools: Seq<ToolDescription>,
    k: int,
)
    requires
        0 <= k <= tools.len(),
        spec_tools(cx, setup, common, s, tools.take(k)) is Err,
    ensures
        spec_tools(cx, setup, common, s, tools) == spec_tools(cx, setup, common, s, tools.take(k)),
    decreases tools.len() - k,
{
    if k < tools.len() {
        assert(tools.take(k + 1).drop_last() =~= tools.take(k));
        lemma_tools_err(cx, setup, common, s, tools, k + 1);
    } else {
        assert(tools.take(k) =~= tools);
    }
}

/// Adding the actions of tools one after another, when it succeeds,
/// leaves the action of every tool declared in the stub's namespace.
pub proof fn lemma_tools_declare_actions(
    cx: CxV,
    setup: GeneratorSetup,
    common: Seq<(Seq<char>, Seq<Seq<char>>)>,
    s: Seq<(Option<Seq<Seq<char>>>, NsV)>,
    tools: Seq<ToolDescription>,
)
    requires
        state_wf(s),
        distinct_namespaces(s),
    ensures
        spec_tools(cx, setup, common, s, tools) matches Ok(s2) ==> state_wf(s2) && distinct_namespaces(s2)
            && forall|i: int| 0 <= i < tools.len() ==> declares_action(s2, cx.root, (#[trigger] tools[i]).name@),
    decreases tools.len(),
{
    if tools.len() > 0 {
        let init = tools.drop_last();
        lemma_tools_declare_actions(cx, setup, common, s, init);
        match spec_tools(cx, setup, common, s, init) {
            Ok(s1) => {
                let t = tools.last();
                let steps = tool_steps(cx, setup, common, t);
                lemma_tool_declares_action(
                    cx,
                    common,
                    contexts_view(setup.contexts@),
                    strings_of(setup.users@),
                    strings_of(setup.resources@),
                    ns_view(setup.actions),
                    t,
                    s1,
                );
                match spec_outcome(s1, steps) {
                    Ok((s2, _)) => {
                        assert forall|i: int| 0 <= i < tools.len() implies declares_action(
                            s2,
                            cx.root,
                            (#[trigger] tools[i]).name@,
                        ) by {
                            if i < init.len() {
                                assert(tools[i] == init[i]);
                                lemma_run_keeps_action(s1, steps.0, cx.root, init[i].name@);
                            }
                        }
                    },
                    Err(_) => {},
                }
            },
            Err(_) => {},
        }
    }
}

/// Adding a server, when it succeeds, leaves the action of each of its
/// tools declared in the stub's namespace.
pub proof fn lemma_server_declares_each_action(
    cx: CxV,
    setup: GeneratorSetup,
    s0: Seq<(Option<Seq<Seq<char>>>, NsV)>,
    d: ServerDescription,
)
    requires
        state_wf(s0),
        distinct_namespaces(s0),
    ensures
        spec_server(cx, setup, s0, d).0 matches Ok(s) ==> forall|i: int|
            0 <= i < d.tools@.len() ==> declares_action(s, cx.root, (#[trigger] d.tools@[i]).name@),
{
    match spec_register(Seq::empty(), cx.root, d.type_defs@) {
        Err(_) => {},
        Ok(common) => {
            let st = spec_typedefs(cx, common, cx.root, d.type_defs@);
            lemma_run_keeps_wf(s0, st.0);
            match spec_outcome(s0, st) {
                Err(_) => {},
                Ok((s1, _)) => {
                    if cx.config.deduplicate_entity_types {
                        match server_collected(d.tools@, cx.root, cx.config.include_outputs) {
                            Err(_) => {},
                            Ok(items) => {
                                let c = candidates(
                                    duplicates(record_all(Seq::empty(), items)),
                                    cx.config.objects_as_records,
                                );
                                let ps = Seq::new(
                                    c.len(),
                                    |i: int| placement(c, i, spec_occupant(s1, c[i].1, fp_name(c[i].0))),
                                );
                                lemma_run_keeps_wf(s1, spec_place(cx, c, ps).0);
                            },
                        }
                    }
                    match spec_dedup(cx, s1, d) {
                        Err(_) => {},
                        Ok((s2, p)) => {
                            lemma_tools_declare_actions(CxV { placed: p, ..cx }, setup, common, s2, d.tools@);
                        },
                    }
                },
            }
        },
    }
}

/// Entries put in order into an empty map are in name order.
proof fn lemma_inserted_sorted<V>(es: Seq<(Seq<char>, V)>)
    ensures
        sorted_keys(inserted(es)),
    decreases es.len(),
{
    if es.len() > 0 {
        lemma_inserted_sorted(es.drop_last());
        crate::strmap::lemma_lookup_after_insert(inserted(es.drop_last()), es.last().0, es.last().1, es.last().0);
    }
}

/// The schema a stub starts from has its one namespace with its
/// declarations in name order, so the laws of the steps apply to every
/// generator `new_with_config` makes.
pub proof fn lemma_stub_schema_wf(ns: Option<Vec<String>>, d: StubNamespace)
    ensures
        state_wf(stub_schema(ns, d)),
        distinct_namespaces(stub_schema(ns, d)),
{
    let st = stub_schema(ns, d);
    lemma_inserted_sorted(each_with(decl_names(d.common_types@), None::<CTypeV>));
    lemma_inserted_sorted(
        d.entity_shapes@.map_values(|e: (String, ExistingEntity)| (e.0@, EntitySlotV::Stub(existing_view(e.1)))),
    );
    lemma_inserted_sorted(each_with(decl_names(d.actions@), None::<ActionDeclV>));
    assert(st.len() == 1);
}

/// The name of the entity type that stands for a JSON number type.
pub open spec fn number_type_name(p: PType) -> Seq<char> {
    if p == PType::Float {
        FLOAT_TYPE@
    } else {
        NUMBER_TYPE@
    }
}

/// A JSON number (`number` or `float`) translates to `decimal`, with no
/// step, when numbers are encoded as decimals; otherwise to an entity type
/// of the stub's namespace, which the translation declares when it is not
/// declared yet and never reports as a conflict, leaving the schema as it
/// is when it is.
pub proof fn lemma_number_translation(cx: CxV, s: Seq<(Option<Seq<Seq<char>>>, NsV)>, p: PType)
    requires
        p == PType::Number || p == PType::Float,
        cx.root matches Some(r) && r.len() > 0,
        state_wf(s),
    ensures
        cx.config.numbers_as_decimal ==> spec_prim(cx, p) == prim(DECIMAL_TYPE@),
        !cx.config.numbers_as_decimal ==> ({
            let (n, id) = flat_decl(cx, cx.root, number_type_name(p))->Ok_0;
            &&& flat_decl(cx, cx.root, number_type_name(p)) is Ok
            &&& spec_outcome(s, spec_prim(cx, p)) matches Ok((s2, t)) && t == CTypeV::Entity(
                child_ns(cx.root, number_type_name(p)),
            ) && declares_entity(s2, n, id) && (declares_entity(s, n, id) ==> s2 == s)
        }),
{
    if !cx.config.numbers_as_decimal {
        let id0 = number_type_name(p);
        let (n, id) = flat_decl(cx, cx.root, id0)->Ok_0;
        let op = OpV::AddEntity(n, id, EntityDeclV::Opaque, false);
        assert(spec_prim(cx, p).0 == seq![op]);
        assert(seq![op].drop_last() =~= Seq::<OpV>::empty());
        assert(seq![op].last() == op);
        assert(spec_run(s, Seq::<OpV>::empty()) == Ok::<Seq<(Option<Seq<Seq<char>>>, NsV)>, GenErr>(s));
        assert(spec_run(s, seq![op]) == spec_apply(s, op));
        lemma_declare_entity_quietly(s, n, id, EntityDeclV::Opaque);
    }
}

/// With deduplication off, deduplication leaves the schema as it is and
/// hoists no entity type.
pub proof fn lemma_no_dedup(cx: CxV, s: Seq<(Option<Seq<Seq<char>>>, NsV)>, d: ServerDescription)
    requires
        !cx.config.deduplicate_entity_types,
    ensures
        spec_dedup(cx, s, d) == Ok::<(Seq<(Option<Seq<Seq<char>>>, NsV)>, Option<Seq<ResolvedView>>), GenErr>(
            (s, cx.placed),
        ),
{
}

/// The fields of leaf records take the same Cedar types as elsewhere:
/// decimals `decimal`, dates `datetime`, durations `duration`, addresses
/// `ipaddr`, booleans `Bool`, integers `Long`, strings `String`.
pub proof fn lemma_leaf_field_cedar_types(cx: CxV)
    ensures
        spec_prim(cx, PType::Bool) == (Seq::<OpV>::empty(), Ok::<CTypeV, GenErr>(CTypeV::EntityOrCommon(seq!["Bool"@]))),
        spec_prim(cx, PType::Integer) == (Seq::<OpV>::empty(), Ok::<CTypeV, GenErr>(CTypeV::EntityOrCommon(seq!["Long"@]))),
        spec_prim(cx, PType::String) == (Seq::<OpV>::empty(), Ok::<CTypeV, GenErr>(CTypeV::EntityOrCommon(seq!["String"@]))),
        spec_prim(cx, PType::Decimal) == (Seq::<OpV>::empty(), Ok::<CTypeV, GenErr>(CTypeV::EntityOrCommon(seq!["decimal"@]))),
        spec_prim(cx, PType::Datetime) == (Seq::<OpV>::empty(), Ok::<CTypeV, GenErr>(CTypeV::EntityOrCommon(seq!["datetime"@]))),
        spec_prim(cx, PType::Duration) == (Seq::<OpV>::empty(), Ok::<CTypeV, GenErr>(CTypeV::EntityOrCommon(seq!["duration"@]))),
        spec_prim(cx, PType::IpAddr) == (Seq::<OpV>::empty(), Ok::<CTypeV, GenErr>(CTypeV::EntityOrCommon(seq!["ipaddr"@]))),
{
}

} // verus!
