//! Deduplicating entity types across the tools of a server: collecting the
//! fingerprints of all tools, and deciding, for each entity type seen in
//! several namespaces, whether it is placed once in their lowest common
//! namespace, reuses a type that is already there, or is left where it is.

use crate::description::{PType, PropertyType, PropertyTypeDef, ServerDescription, ToolDescription};
use crate::generator::dedup::{
    collect_enum_fingerprints, copy_strings, is_unreserved_id, lemma_record_all_add,
    lemma_record_all_one, ns_view, params_collected, record_all, unreserved_id,
    resolved_view, DeduplicatedEntityType, DeduplicationMap, EntityTypeFingerprint,
    FingerprintView,
};
use crate::generator::err::SchemaGeneratorError;
use crate::generator::identifiers::{
    BOOL_TYPE, DATETIME_TYPE, DECIMAL_TYPE, DURATION_TYPE, FLOAT_TYPE, INPUT_NAME, IPADDR_TYPE,
    LONG_TYPE, NULL_TYPE, NUMBER_TYPE, OUTPUT_NAME, STRING_TYPE, UNKNOWN_TYPE,
};
use crate::text::{strings_of, text_eq};
use vstd::prelude::*;

verus! {

// ---------------------------------------------------------------------------
// Namespaces of tools.
// ---------------------------------------------------------------------------
/// The identifiers of the Cedar name `s`, outermost first, or the message
/// of the error Cedar reports when `s` is not a name.
pub uninterp spec fn cedar_name(s: Seq<char>) -> Result<Seq<Seq<char>>, Seq<char>>;

/// Parses `s` as a Cedar name (`str::parse` into
/// `cedar_policy_core::ast::Name`): its identifiers, outermost first, or the
/// message of the error. The contract claims only that the outcome is a
/// function of `s`, named `cedar_name`.
#[verifier::external_body]
pub(crate) fn parse_name(s: &str) -> (r: Result<Vec<String>, String>)
    ensures
        match cedar_name(s@) {
            Ok(p) => r matches Ok(v) && strings_of(v@) == p,
            Err(m) => r matches Err(e) && e@ == m,
        },
{
    match s.parse::<cedar_policy_core::ast::Name>() {
        Ok(name) => {
            let name: &cedar_policy_core::ast::InternalName = name.as_ref();
            let ids = name.namespace_components().chain(std::iter::once(name.basename()));
            Ok(ids.map(|id| id.to_string()).collect())
        },
        Err(e) => Err(e.to_string()),
    }
}

/// The name with the identifiers `path` read in namespace `ns`: a single
/// identifier is declared in `ns`; a qualified name stands as it is.
pub open spec fn qualify_path(path: Seq<Seq<char>>, ns: Option<Seq<Seq<char>>>) -> Seq<Seq<char>> {
    if path.len() == 1 {
        match ns {
            Some(p) => p + path,
            None => path,
        }
    } else {
        path
    }
}

/// The name with the identifiers `path` read in `namespace`.
pub fn qualify(path: Vec<String>, namespace: &Option<Vec<String>>) -> (r: Vec<String>)
    ensures
        strings_of(r@) == qualify_path(strings_of(path@), ns_view(*namespace)),
{
    if path.len() != 1 {
        return path;
    }
    match namespace {
        None => path,
        Some(ns) => {
            let mut out = copy_strings(ns);
            let ghost before = out@;
            out.push(path[0].clone());
            proof {
                crate::text::lemma_strings_of_push(before, out@.last());
                assert(strings_of(path@) =~= seq![path@[0]@]);
            }
            out
        },
    }
}

/// The namespace of a tool: its name, read in the namespace of the stub.
pub fn tool_namespace(tool_name: &str, root: &Option<Vec<String>>) -> (r: Result<
    Vec<String>,
    SchemaGeneratorError,
>)
    ensures
        match cedar_name(tool_name@) {
            Ok(p) => r matches Ok(v) && strings_of(v@) == qualify_path(p, ns_view(*root)),
            Err(m) => r matches Err(SchemaGeneratorError::ReservedName(e)) && e@ == m,
        },
{
    match parse_name(tool_name) {
        Ok(path) => Ok(qualify(path, root)),
        Err(e) => Err(SchemaGeneratorError::ReservedName(e)),
    }
}

// ---------------------------------------------------------------------------
// Collecting the fingerprints of a server.
// ---------------------------------------------------------------------------
/// The enum type definitions of a tool with variants and an unreserved
/// name, each with the namespace of the tool.
pub open spec fn typedef_enums(defs: Seq<PropertyTypeDef>, tool_ns: Seq<Seq<char>>) -> Seq<
    (FingerprintView, Option<Seq<Seq<char>>>),
>
    decreases defs.len(),
{
    if defs.len() == 0 {
        Seq::empty()
    } else {
        let rest = typedef_enums(defs.drop_last(), tool_ns);
        match defs.last().prop_type {
            PropertyType::Enum { variants } => if variants@.len() > 0 && unreserved_id(
                defs.last().name@,
            ) {
                rest.push((FingerprintView::Enum(defs.last().name@, strings_of(variants@)), Some(tool_ns)))
            } else {
                rest
            },
            _ => rest,
        }
    }
}

/// The fingerprints found in a tool, in the namespace of the stub `root`:
/// in its inputs, in its outputs when they are included, and its enum type
/// definitions; or the message of the error that its name gives.
pub open spec fn tool_collected(t: ToolDescription, root: Option<Seq<Seq<char>>>, include_outputs: bool) -> Result<
    Seq<(FingerprintView, Option<Seq<Seq<char>>>)>,
    Seq<char>,
> {
    match cedar_name(t.name@) {
        Err(m) => Err(m),
        Ok(p) => {
            let tool_ns = qualify_path(p, root);
            let inputs = params_collected(t.inputs, Some(tool_ns.push(INPUT_NAME@)));
            let outputs = if include_outputs {
                params_collected(t.outputs, Some(tool_ns.push(OUTPUT_NAME@)))
            } else {
                Seq::empty()
            };
            Ok(inputs + outputs + typedef_enums(t.type_defs@, tool_ns))
        },
    }
}

/// The fingerprints found in the tools, in order; or the message of the
/// error that the name of the first tool with a bad name gives.
pub open spec fn server_collected(
    tools: Seq<ToolDescription>,
    root: Option<Seq<Seq<char>>>,
    include_outputs: bool,
) -> Result<Seq<(FingerprintView, Option<Seq<Seq<char>>>)>, Seq<char>>
    decreases tools.len(),
{
    if tools.len() == 0 {
        Ok(Seq::empty())
    } else {
        match server_collected(tools.drop_last(), root, include_outputs) {
            Err(m) => Err(m),
            Ok(a) => match tool_collected(tools.last(), root, include_outputs) {
                Err(m) => Err(m),
                Ok(b) => Ok(a + b),
            },
        }
    }
}

/// Records the enum type definitions of a tool.
fn collect_typedef_enums(
    defs: &Vec<PropertyTypeDef>,
    tool_ns: &Vec<String>,
    dedup_map: &mut DeduplicationMap,
)
    ensures
        final(dedup_map)@ == record_all(old(dedup_map)@, typedef_enums(defs@, strings_of(tool_ns@))),
{
    let ghost m0 = dedup_map@;
    let ghost tn = strings_of(tool_ns@);
    let mut i: usize = 0;
    assert(defs@.take(0) =~= Seq::<PropertyTypeDef>::empty());
    while i < defs.len()
        invariant
            0 <= i <= defs@.len(),
            tn == strings_of(tool_ns@),
            dedup_map@ == record_all(m0, typedef_enums(defs@.take(i as int), tn)),
        decreases defs@.len() - i,
    {
        let def = &defs[i];
        let ghost before = typedef_enums(defs@.take(i as int), tn);
        proof {
            assert(defs@.take(i + 1).drop_last() =~= defs@.take(i as int));
            assert(defs@.take(i + 1).last() == defs@[i as int]);
        }
        match &def.prop_type {
            PropertyType::Enum { variants } => {
                if variants.len() > 0 && is_unreserved_id(def.name.as_str()) {
                    let fp = EntityTypeFingerprint::Enum {
                        base_name: def.name.clone(),
                        variants: copy_strings(variants),
                    };
                    let ghost x = (fp@, Some(tn));
                    dedup_map.record(fp, Some(copy_strings(tool_ns)));
                    proof {
                        lemma_record_all_one(record_all(m0, before), x);
                        lemma_record_all_add(m0, before, seq![x]);
                        assert(before + seq![x] =~= before.push(x));
                    }
                }
            },
            _ => {},
        }
        i = i + 1;
    }
    assert(defs@.take(defs@.len() as int) =~= defs@);
}

/// Records the fingerprints of a tool in the namespace of the stub `root`.
fn collect_tool(
    tool: &ToolDescription,
    root: &Option<Vec<String>>,
    include_outputs: bool,
    dedup_map: &mut DeduplicationMap,
) -> (r: Result<(), SchemaGeneratorError>)
    ensures
        match tool_collected(*tool, ns_view(*root), include_outputs) {
            Ok(items) => r is Ok && final(dedup_map)@ == record_all(old(dedup_map)@, items),
            Err(m) => r matches Err(SchemaGeneratorError::ReservedName(e)) && e@ == m,
        },
{
    let ghost m0 = dedup_map@;
    let tool_ns = match tool_namespace(tool.name.as_str(), root) {
        Ok(t) => t,
        Err(e) => return Err(e),
    };
    let ghost tn = strings_of(tool_ns@);
    let input_ns = crate::generator::names::qualified_name(&Some(copy_strings(&tool_ns)), INPUT_NAME);
    let input_ns = Some(input_ns);
    collect_enum_fingerprints(&tool.inputs, &input_ns, dedup_map);
    let ghost inputs = params_collected(tool.inputs, Some(tn.push(INPUT_NAME@)));
    let ghost after_inputs = dedup_map@;
    if include_outputs {
        let output_ns = crate::generator::names::qualified_name(
            &Some(copy_strings(&tool_ns)),
            OUTPUT_NAME,
        );
        let output_ns = Some(output_ns);
        collect_enum_fingerprints(&tool.outputs, &output_ns, dedup_map);
        proof {
            lemma_record_all_add(m0, inputs, params_collected(tool.outputs, Some(tn.push(OUTPUT_NAME@))));
        }
    } else {
        assert(inputs + Seq::<(FingerprintView, Option<Seq<Seq<char>>>)>::empty() =~= inputs);
    }
    let ghost outputs = if include_outputs {
        params_collected(tool.outputs, Some(tn.push(OUTPUT_NAME@)))
    } else {
        Seq::<(FingerprintView, Option<Seq<Seq<char>>>)>::empty()
    };
    collect_typedef_enums(&tool.type_defs, &tool_ns, dedup_map);
    proof {
        lemma_record_all_add(m0, inputs + outputs, typedef_enums(tool.type_defs@, tn));
    }
    Ok(())
}

/// Records the fingerprints of all tools of a server, in the namespace of
/// the stub `root`, in a new deduplication map.
pub fn collect_server_fingerprints(
    description: &ServerDescription,
    root: &Option<Vec<String>>,
    include_outputs: bool,
) -> (r: Result<DeduplicationMap, SchemaGeneratorError>)
    ensures
        match server_collected(description.tools@, ns_view(*root), include_outputs) {
            Ok(items) => r matches Ok(m) && m@ == record_all(Seq::empty(), items),
            Err(msg) => r matches Err(SchemaGeneratorError::ReservedName(e)) && e@ == msg,
        },
{
    let tools = &description.tools;
    let ghost rv = ns_view(*root);
    let mut dedup_map = DeduplicationMap::new();
    let mut i: usize = 0;
    assert(tools@.take(0) =~= Seq::<ToolDescription>::empty());
    while i < tools.len()
        invariant
            0 <= i <= tools@.len(),
            rv == ns_view(*root),
            tools@ == description.tools@,
            server_collected(tools@.take(i as int), rv, include_outputs) matches Ok(items)
                && dedup_map@ == record_all(Seq::empty(), items),
        decreases tools@.len() - i,
    {
        let ghost items = server_collected(tools@.take(i as int), rv, include_outputs)->Ok_0;
        proof {
            assert(tools@.take(i + 1).drop_last() =~= tools@.take(i as int));
            assert(tools@.take(i + 1).last() == tools@[i as int]);
        }
        match collect_tool(&tools[i], root, include_outputs, &mut dedup_map) {
            Ok(()) => {
                proof {
                    let b = tool_collected(tools@[i as int], rv, include_outputs)->Ok_0;
                    lemma_record_all_add(Seq::empty(), items, b);
                }
            },
            Err(e) => {
                proof {
                    assert(server_collected(tools@.take(i + 1), rv, include_outputs) == tool_collected(
                        tools@[i as int],
                        rv,
                        include_outputs,
                    ));
                    lemma_server_error_stays(tools@, i as int + 1, rv, include_outputs);
                }
                return Err(e);
            },
        }
        i = i + 1;
    }
    assert(tools@.take(tools@.len() as int) =~= tools@);
    Ok(dedup_map)
}

/// Once a prefix of the tools gives an error, the whole list gives it.
proof fn lemma_server_error_stays(
    tools: Seq<ToolDescription>,
    k: int,
    root: Option<Seq<Seq<char>>>,
    include_outputs: bool,
)
    requires
        0 <= k <= tools.len(),
        server_collected(tools.take(k), root, include_outputs) is Err,
    ensures
        server_collected(tools, root, include_outputs) == server_collected(tools.take(k), root, include_outputs),
    decreases tools.len() - k,
{
    if k < tools.len() {
        assert(tools.take(k + 1).drop_last() =~= tools.take(k));
        lemma_server_error_stays(tools, k + 1, root, include_outputs);
    } else {
        assert(tools.take(k) =~= tools);
    }
}

// ---------------------------------------------------------------------------
// Placing deduplicated entity types.
// ---------------------------------------------------------------------------
/// A resolved duplicate as texts: its fingerprint, its lowest common
/// namespace and the namespaces it was seen in.
pub type ResolvedView = (FingerprintView, Option<Seq<Seq<char>>>, Seq<Option<Seq<Seq<char>>>>);

/// The views of a list of resolved duplicates.
pub open spec fn resolved_list_view(s: Seq<(EntityTypeFingerprint, DeduplicatedEntityType)>) -> Seq<
    ResolvedView,
> {
    s.map_values(|e: (EntityTypeFingerprint, DeduplicatedEntityType)| resolved_view(e))
}

/// The duplicates that are deduplicated: leaf records only when objects
/// are encoded as entity types.
pub open spec fn candidates(s: Seq<ResolvedView>, objects_as_records: bool) -> Seq<ResolvedView>
    decreases s.len(),
{
    if s.len() == 0 {
        Seq::empty()
    } else {
        let rest = candidates(s.drop_last(), objects_as_records);
        if objects_as_records && s.last().0 is LeafRecord {
            rest
        } else {
            rest.push(s.last())
        }
    }
}

/// The duplicates that are deduplicated: leaf records only when objects
/// are encoded as entity types.
pub fn dedup_candidates(
    resolved: Vec<(EntityTypeFingerprint, DeduplicatedEntityType)>,
    objects_as_records: bool,
) -> (r: Vec<(EntityTypeFingerprint, DeduplicatedEntityType)>)
    ensures
        resolved_list_view(r@) == candidates(resolved_list_view(resolved@), objects_as_records),
{
    let ghost all = resolved_list_view(resolved@);
    let mut out: Vec<(EntityTypeFingerprint, DeduplicatedEntityType)> = Vec::new();
    let mut rest = resolved;
    // Take the entries from the back, and put the kept ones back in order.
    let mut kept: Vec<(EntityTypeFingerprint, DeduplicatedEntityType)> = Vec::new();
    assert(all.take(all.len() as int) =~= all);
    assert(resolved_list_view(kept@).reverse() =~= Seq::<ResolvedView>::empty());
    assert(candidates(all, objects_as_records) + Seq::<ResolvedView>::empty() =~= candidates(
        all,
        objects_as_records,
    ));
    while rest.len() > 0
        invariant
            rest@.len() <= all.len(),
            resolved_list_view(rest@) == all.take(rest@.len() as int),
            candidates(all, objects_as_records) == candidates(all.take(rest@.len() as int), objects_as_records)
                + resolved_list_view(kept@).reverse(),
        decreases rest@.len(),
    {
        let ghost k = rest@.len();
        let e = rest.pop().unwrap();
        proof {
            assert(all.take(k as int).drop_last() =~= all.take(k - 1));
            assert(all.take(k as int).last() == resolved_view(e));
            assert(resolved_list_view(rest@) =~= all.take(k - 1));
        }
        if objects_as_records && matches!(e.0, EntityTypeFingerprint::LeafRecord { .. }) {
        } else {
            let ghost before = resolved_list_view(kept@);
            kept.push(e);
            proof {
                assert(resolved_list_view(kept@) =~= before.push(resolved_view(e)));
                assert(resolved_list_view(kept@).reverse() =~= seq![resolved_view(e)] + before.reverse());
            }
        }
    }
    assert(all.take(0) =~= Seq::<ResolvedView>::empty());
    while kept.len() > 0
        invariant
            candidates(all, objects_as_records) == resolved_list_view(out@) + resolved_list_view(
                kept@,
            ).reverse(),
        decreases kept@.len(),
    {
        let ghost k = kept@;
        let e = kept.pop().unwrap();
        let ghost before = resolved_list_view(out@);
        out.push(e);
        proof {
            assert(resolved_list_view(k) =~= resolved_list_view(kept@).push(resolved_view(e)));
            assert(resolved_list_view(k).reverse() =~= seq![resolved_view(e)] + resolved_list_view(
                kept@,
            ).reverse());
            assert(resolved_list_view(out@) =~= before.push(resolved_view(e)));
        }
    }
    assert(resolved_list_view(kept@).reverse() =~= Seq::<ResolvedView>::empty());
    assert(resolved_list_view(out@) + Seq::<ResolvedView>::empty() =~= resolved_list_view(out@));
    out
}

/// The type of an attribute of a record that a schema already declares,
/// as far as deduplication reads it: a reference to an entity or common
/// type by name, a reference to an entity type by name, or another type.
#[derive(Clone, Debug)]
pub enum AttrType {
    EntityOrCommon(Vec<String>),
    Entity(Vec<String>),
    Other,
}

/// An entity type that a schema already declares, as far as deduplication
/// reads it: an enum with its choices, a record with its attributes in
/// name order (name, type, required), or another entity type.
#[derive(Clone, Debug)]
pub enum ExistingEntity {
    Enum(Vec<String>),
    Record(Vec<(String, AttrType, bool)>),
    Other,
}

/// What a namespace already declares under a name.
#[derive(Clone, Debug)]
pub enum Occupant {
    /// Nothing (or the namespace does not exist).
    Free,
    /// A common type.
    CommonType,
    /// An entity type.
    Entity(ExistingEntity),
}

/// The content of the type of an attribute of an existing record.
pub enum AttrTypeV {
    EntityOrCommon(Seq<Seq<char>>),
    Entity(Seq<Seq<char>>),
    Other,
}

/// The content of an existing entity type.
pub enum ExistingV {
    Enum(Seq<Seq<char>>),
    Record(Seq<(Seq<char>, AttrTypeV, bool)>),
    Other,
}

pub open spec fn attr_type_view(a: AttrType) -> AttrTypeV {
    match a {
        AttrType::EntityOrCommon(n) => AttrTypeV::EntityOrCommon(strings_of(n@)),
        AttrType::Entity(n) => AttrTypeV::Entity(strings_of(n@)),
        AttrType::Other => AttrTypeV::Other,
    }
}

pub open spec fn existing_view(e: ExistingEntity) -> ExistingV {
    match e {
        ExistingEntity::Enum(cs) => ExistingV::Enum(strings_of(cs@)),
        ExistingEntity::Record(attrs) => ExistingV::Record(
            attrs@.map_values(|a: (String, AttrType, bool)| (a.0@, attr_type_view(a.1), a.2)),
        ),
        ExistingEntity::Other => ExistingV::Other,
    }
}

/// The content of what a namespace declares under a name.
pub enum OccupantV {
    Free,
    CommonType,
    Entity(ExistingV),
}

pub open spec fn occupant_view(o: Occupant) -> OccupantV {
    match o {
        Occupant::Free => OccupantV::Free,
        Occupant::CommonType => OccupantV::CommonType,
        Occupant::Entity(e) => OccupantV::Entity(existing_view(e)),
    }
}

/// The Cedar type that stands for a primitive type: the name of a
/// built-in or extension type, or of an opaque entity type.
pub open spec fn type_matches(a: AttrTypeV, prim: PType) -> bool {
    match a {
        AttrTypeV::EntityOrCommon(n) => match prim {
            PType::Bool => n == seq![BOOL_TYPE@],
            PType::Integer => n == seq![LONG_TYPE@],
            PType::String => n == seq![STRING_TYPE@],
            PType::Decimal => n == seq![DECIMAL_TYPE@],
            PType::Datetime => n == seq![DATETIME_TYPE@],
            PType::Duration => n == seq![DURATION_TYPE@],
            PType::IpAddr => n == seq![IPADDR_TYPE@],
            _ => false,
        },
        AttrTypeV::Entity(n) => match prim {
            PType::Float => n == seq![FLOAT_TYPE@],
            PType::Number => n == seq![NUMBER_TYPE@],
            PType::Null => n == seq![NULL_TYPE@],
            PType::Unknown => n == seq![UNKNOWN_TYPE@],
            _ => false,
        },
        AttrTypeV::Other => false,
    }
}

/// The attributes of a record are, in order, the fields of a leaf record.
pub open spec fn fields_match(attrs: Seq<(Seq<char>, AttrTypeV, bool)>, fields: Seq<(Seq<char>, PType, bool)>) -> bool {
    &&& attrs.len() == fields.len()
    &&& forall|i: int|
        0 <= i < attrs.len() ==> (#[trigger] attrs[i]).0 == fields[i].0 && attrs[i].2 == fields[i].2
            && type_matches(attrs[i].1, fields[i].1)
}

/// An existing entity type is the one a fingerprint describes: an enum with
/// the same choices in order, or a record with the same fields.
pub open spec fn fingerprint_matches(fp: FingerprintView, e: ExistingV) -> bool {
    match (fp, e) {
        (FingerprintView::Enum(_, vs), ExistingV::Enum(cs)) => cs == vs,
        (FingerprintView::LeafRecord(_, fs), ExistingV::Record(attrs)) => fields_match(attrs, fs),
        _ => false,
    }
}

/// Whether the name is the single identifier `id`.
fn is_single(n: &Vec<String>, id: &str) -> (r: bool)
    ensures
        r == (strings_of(n@) == seq![id@]),
{
    let r = n.len() == 1 && text_eq(n[0].as_str(), id);
    proof {
        assert(strings_of(n@).len() == n@.len());
        if n@.len() == 1 {
            assert(strings_of(n@) =~= seq![n@[0]@]);
            if strings_of(n@) == seq![id@] {
                assert(seq![n@[0]@][0] == seq![id@][0]);
            }
        }
    }
    r
}

/// Whether the attribute type stands for the primitive type `prim`.
pub fn type_matches_primitive(a: &AttrType, prim: &PropertyType) -> (r: bool)
    ensures
        r == type_matches(attr_type_view(*a), crate::description::ptype_view(*prim)),
{
    match a {
        AttrType::EntityOrCommon(n) => match prim {
            PropertyType::Bool => is_single(n, BOOL_TYPE),
            PropertyType::Integer => is_single(n, LONG_TYPE),
            PropertyType::String => is_single(n, STRING_TYPE),
            PropertyType::Decimal => is_single(n, DECIMAL_TYPE),
            PropertyType::Datetime => is_single(n, DATETIME_TYPE),
            PropertyType::Duration => is_single(n, DURATION_TYPE),
            PropertyType::IpAddr => is_single(n, IPADDR_TYPE),
            _ => false,
        },
        AttrType::Entity(n) => match prim {
            PropertyType::Float => is_single(n, FLOAT_TYPE),
            PropertyType::Number => is_single(n, NUMBER_TYPE),
            PropertyType::Null => is_single(n, NULL_TYPE),
            PropertyType::Unknown => is_single(n, UNKNOWN_TYPE),
            _ => false,
        },
        AttrType::Other => false,
    }
}

/// Whether an existing entity type is the one `fp` describes.
pub fn fingerprint_matches_entity(fp: &EntityTypeFingerprint, e: &ExistingEntity) -> (r: bool)
    ensures
        r == fingerprint_matches(fp@, existing_view(*e)),
{
    match (fp, e) {
        (EntityTypeFingerprint::Enum { variants, .. }, ExistingEntity::Enum(choices)) =>
            crate::generator::dedup::same_strings(choices, variants),
        (EntityTypeFingerprint::LeafRecord { fields, .. }, ExistingEntity::Record(attrs)) => {
            let ghost fs = crate::generator::dedup::fields_view(fields@);
            assert(fs.len() == fields@.len());
            if attrs.len() != fields.len() {
                return false;
            }
            let mut i: usize = 0;
            while i < attrs.len()
                invariant
                    0 <= i <= attrs@.len(),
                    attrs@.len() == fields@.len(),
                    fs == crate::generator::dedup::fields_view(fields@),
                    *e == ExistingEntity::Record(*attrs),
                    fp@ == FingerprintView::LeafRecord(fp_name(fp@), fs),
                    forall|j: int|
                        0 <= j < i ==> (#[trigger] attrs@[j]).0@ == fs[j].0 && attrs@[j].2 == fs[j].2
                            && type_matches(attr_type_view(attrs@[j].1), fs[j].1),
                decreases attrs@.len() - i,
            {
                let (name, ty, required) = (&attrs[i].0, &attrs[i].1, attrs[i].2);
                let f = &fields[i];
                assert(fs[i as int] == crate::generator::dedup::field_view(fields@[i as int]));
                let same = text_eq(name.as_str(), f.0.as_str()) && required == f.2
                    && type_matches_primitive(ty, &f.1);
                if !same {
                    assert(!(attrs@[i as int].0@ == fs[i as int].0 && attrs@[i as int].2 == fs[i as int].2
                        && type_matches(attr_type_view(attrs@[i as int].1), fs[i as int].1)));
                    proof {
                        let av = attrs@.map_values(|a: (String, AttrType, bool)| (a.0@, attr_type_view(a.1), a.2));
                        assert(av[i as int] == (attrs@[i as int].0@, attr_type_view(attrs@[i as int].1), attrs@[i as int].2));
                    }
                    return false;
                }
                i = i + 1;
            }
            proof {
                let av = attrs@.map_values(|a: (String, AttrType, bool)| (a.0@, attr_type_view(a.1), a.2));
                assert forall|j: int| 0 <= j < av.len() implies (#[trigger] av[j]).0 == fs[j].0 && av[j].2 == fs[j].2
                    && type_matches(av[j].1, fs[j].1) by {
                    assert(av[j] == (attrs@[j].0@, attr_type_view(attrs@[j].1), attrs@[j].2));
                }
            }
            true
        },
        _ => false,
    }
}

/// The name of the entity type that a fingerprint describes.
pub open spec fn fp_name(fp: FingerprintView) -> Seq<char> {
    match fp {
        FingerprintView::Enum(b, _) => b,
        FingerprintView::LeafRecord(b, _) => b,
    }
}

/// Another candidate has the same name and goes to the same namespace.
pub open spec fn name_clash(c: Seq<ResolvedView>, i: int) -> bool {
    exists|j: int| 0 <= j < c.len() && j != i && fp_name(#[trigger] c[j].0) == fp_name(c[i].0) && c[j].1 == c[i].1
}

/// What is done with a deduplicated entity type.
#[derive(Clone, Copy, Debug, PartialEq, Eq, Structural)]
pub enum Placement {
    /// It is declared in its lowest common namespace.
    Place,
    /// The same entity type is already declared there, and is used.
    Reuse,
    /// It is not deduplicated: each tool declares its own.
    Skip,
}

/// What is done with the `i`-th candidate, given what its lowest common
/// namespace already declares under its name: nothing is deduplicated
/// where two candidates would take one name in one namespace, or where a
/// different type already has the name.
pub open spec fn placement(c: Seq<ResolvedView>, i: int, occupant: OccupantV) -> Placement {
    if name_clash(c, i) {
        Placement::Skip
    } else {
        match occupant {
            OccupantV::Free => Placement::Place,
            OccupantV::CommonType => Placement::Skip,
            OccupantV::Entity(e) => if fingerprint_matches(c[i].0, e) {
                Placement::Reuse
            } else {
                Placement::Skip
            },
        }
    }
}

/// Whether two namespaces are the same.
pub fn same_namespace(a: &Option<Vec<String>>, b: &Option<Vec<String>>) -> (r: bool)
    ensures
        r == (ns_view(*a) == ns_view(*b)),
{
    match (a, b) {
        (None, None) => true,
        (Some(x), Some(y)) => crate::generator::dedup::same_strings(x, y),
        _ => false,
    }
}

/// What is done with each candidate, given what
/// the lowest common namespace of each already declares under its name.
pub fn plan_placements(
    cands: &Vec<(EntityTypeFingerprint, DeduplicatedEntityType)>,
    occupants: &Vec<Occupant>,
) -> (r: Vec<Placement>)
    requires
        occupants@.len() == cands@.len(),
    ensures
        r@.len() == cands@.len(),
        forall|i: int|
            0 <= i < r@.len() ==> #[trigger] r@[i] == placement(resolved_list_view(cands@), i, occupant_view(occupants@[i])),
{
    let ghost c = resolved_list_view(cands@);
    let mut out: Vec<Placement> = Vec::new();
    let mut i: usize = 0;
    while i < cands.len()
        invariant
            0 <= i <= cands@.len(),
            occupants@.len() == cands@.len(),
            c == resolved_list_view(cands@),
            out@.len() == i,
            forall|k: int| 0 <= k < i ==> #[trigger] out@[k] == placement(c, k, occupant_view(occupants@[k])),
        decreases cands@.len() - i,
    {
        let name = cands[i].0.base_name();
        let lca = &cands[i].1.lca_namespace;
        let mut clash = false;
        let mut j: usize = 0;
        while j < cands.len()
            invariant
                0 <= i < cands@.len(),
                0 <= j <= cands@.len(),
                c == resolved_list_view(cands@),
                name@ == fp_name(c[i as int].0),
                ns_view(*lca) == c[i as int].1,
                clash == exists|k: int|
                    0 <= k < j && k != i && fp_name(#[trigger] c[k].0) == fp_name(c[i as int].0)
                        && c[k].1 == c[i as int].1,
            decreases cands@.len() - j,
        {
            assert(c[j as int] == resolved_view(cands@[j as int]));
            let other = cands[j].0.base_name();
            let hit = j != i && text_eq(other.as_str(), name.as_str()) && same_namespace(
                &cands[j].1.lca_namespace,
                lca,
            );
            proof {
                assert(other@ == fp_name(c[j as int].0));
                assert(ns_view(cands@[j as int].1.lca_namespace) == c[j as int].1);
                assert(hit == (j != i && fp_name(c[j as int].0) == fp_name(c[i as int].0) && c[j as int].1
                    == c[i as int].1));
            }
            if hit {
                clash = true;
            }
            j = j + 1;
        }
        let p = if clash {
            Placement::Skip
        } else {
            match &occupants[i] {
                Occupant::Free => Placement::Place,
                Occupant::CommonType => Placement::Skip,
                Occupant::Entity(e) => if fingerprint_matches_entity(&cands[i].0, e) {
                    Placement::Reuse
                } else {
                    Placement::Skip
                },
            }
        };
        out.push(p);
        i = i + 1;
    }
    out
}

/// The candidates that are not skipped, each with where it goes.
pub open spec fn placed(c: Seq<ResolvedView>, ps: Seq<Placement>) -> Seq<ResolvedView>
    decreases c.len(),
{
    if c.len() == 0 || ps.len() != c.len() {
        Seq::empty()
    } else {
        let rest = placed(c.drop_last(), ps.drop_last());
        if ps.last() == Placement::Skip {
            rest
        } else {
            rest.push(c.last())
        }
    }
}

/// The candidates that are not skipped: those placed or reused.
pub fn placed_candidates(
    cands: Vec<(EntityTypeFingerprint, DeduplicatedEntityType)>,
    placements: &Vec<Placement>,
) -> (r: Vec<(EntityTypeFingerprint, DeduplicatedEntityType)>)
    requires
        placements@.len() == cands@.len(),
    ensures
        resolved_list_view(r@) == placed(resolved_list_view(cands@), placements@),
{
    let ghost all = resolved_list_view(cands@);
    let ghost ps = placements@;
    let mut rest = cands;
    let mut kept: Vec<(EntityTypeFingerprint, DeduplicatedEntityType)> = Vec::new();
    assert(all.take(all.len() as int) =~= all);
    assert(ps.take(ps.len() as int) =~= ps);
    assert(resolved_list_view(kept@).reverse() =~= Seq::<ResolvedView>::empty());
    assert(placed(all, ps) + Seq::<ResolvedView>::empty() =~= placed(all, ps));
    while rest.len() > 0
        invariant
            rest@.len() <= all.len(),
            all.len() == ps.len(),
            ps == placements@,
            resolved_list_view(rest@) == all.take(rest@.len() as int),
            placed(all, ps) == placed(all.take(rest@.len() as int), ps.take(rest@.len() as int))
                + resolved_list_view(kept@).reverse(),
        decreases rest@.len(),
    {
        let ghost k = rest@.len();
        let e = rest.pop().unwrap();
        proof {
            assert(all.take(k as int).drop_last() =~= all.take(k - 1));
            assert(ps.take(k as int).drop_last() =~= ps.take(k - 1));
            assert(all.take(k as int).last() == resolved_view(e));
            assert(ps.take(k as int).last() == ps[k - 1]);
            assert(resolved_list_view(rest@) =~= all.take(k - 1));
        }
        if placements[rest.len()] != Placement::Skip {
            let ghost before = resolved_list_view(kept@);
            kept.push(e);
            proof {
                assert(resolved_list_view(kept@) =~= before.push(resolved_view(e)));
                assert(resolved_list_view(kept@).reverse() =~= seq![resolved_view(e)] + before.reverse());
            }
        }
    }
    assert(all.take(0) =~= Seq::<ResolvedView>::empty());
    let mut out: Vec<(EntityTypeFingerprint, DeduplicatedEntityType)> = Vec::new();
    while kept.len() > 0
        invariant
            placed(all, ps) == resolved_list_view(out@) + resolved_list_view(kept@).reverse(),
        decreases kept@.len(),
    {
        let ghost k = kept@;
        let e = kept.pop().unwrap();
        let ghost before = resolved_list_view(out@);
        out.push(e);
        proof {
            assert(resolved_list_view(k) =~= resolved_list_view(kept@).push(resolved_view(e)));
            assert(resolved_list_view(k).reverse() =~= seq![resolved_view(e)] + resolved_list_view(
                kept@,
            ).reverse());
            assert(resolved_list_view(out@) =~= before.push(resolved_view(e)));
        }
    }
    assert(resolved_list_view(kept@).reverse() =~= Seq::<ResolvedView>::empty());
    assert(resolved_list_view(out@) + Seq::<ResolvedView>::empty() =~= resolved_list_view(out@));
    out
}

/// The lowest common namespace where the entity type `fp` was placed, if
/// it was deduplicated.
pub fn dedup_namespace<'a>(
    placed: &'a Vec<(EntityTypeFingerprint, DeduplicatedEntityType)>,
    fp: &EntityTypeFingerprint,
) -> (r: Option<&'a Option<Vec<String>>>)
    ensures
        match r {
            Some(n) => exists|i: int|
                0 <= i < placed@.len() && (#[trigger] placed@[i]).0@ == fp@ && ns_view(*n) == ns_view(
                    placed@[i].1.lca_namespace,
                ) && forall|j: int| 0 <= j < i ==> (#[trigger] placed@[j]).0@ != fp@,
            None => forall|i: int| 0 <= i < placed@.len() ==> (#[trigger] placed@[i]).0@ != fp@,
        },
{
    let mut i: usize = 0;
    while i < placed.len()
        invariant
            0 <= i <= placed@.len(),
            forall|j: int| 0 <= j < i ==> (#[trigger] placed@[j]).0@ != fp@,
        decreases placed@.len() - i,
    {
        if placed[i].0.same_as(fp) {
            return Some(&placed[i].1.lca_namespace);
        }
        i = i + 1;
    }
    None
}

} // verus!
