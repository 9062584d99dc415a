//! Turning the typed values of an MCP tool call into Cedar values: the
//! input (and output) record of the context of an authorization request,
//! with the entities that its objects become, and the action of the tool.

use crate::description::{PropertyTypeDef, ServerDescription, ToolDescription};
use crate::generator::config::SchemaGeneratorConfig;
use crate::generator::dedup::{child_ns, copy_namespace, copy_strings, ns_view};
use crate::generator::identifiers::{
    ACTION, DATETIME_CTOR, DECIMAL_CTOR, DURATION_CTOR, FLOAT_TYPE, INPUT_NAME, IPADDR_CTOR, NULL_TYPE,
    NUMBER_TYPE, OUTPUT_NAME, UNKNOWN_TYPE,
};
use crate::generator::plan::{cedar_name, parse_name, qualify, qualify_path};
use crate::strmap::{lookup, map_insert, map_vals, StrMap};
use crate::text::{decimal, join, join_strings, strings_of, u64_to_decimal};
use vstd::prelude::*;
use vstd::string::StringExecFns;

verus! {

/// A value of an MCP tool call, typed by the tool's description. Numbers
/// come with the texts that stand for them: `decimal`, the text of a
/// Cedar decimal (none when the number has none), and `id`, the number as
/// written. Dates, durations and addresses come as the texts Cedar reads.
#[derive(Debug)]
pub enum McpValue {
    Null,
    Bool(bool),
    Integer(i64),
    Float { decimal: String, id: String },
    Number { decimal: Option<String>, id: String },
    String(String),
    Decimal(String),
    Datetime(String),
    Duration(String),
    IpAddr(String),
    Unknown,
    Enum(String),
    Array(Vec<McpValue>),
    Tuple(Vec<McpValue>),
    Union { index: usize, value: Box<McpValue> },
    Object { properties: Vec<(String, McpValue)>, additional_properties: Vec<(String, McpValue)> },
    Ref { name: String, val: Box<McpValue> },
}

/// A Cedar value: an entity is its type's identifiers and its id; an
/// extension value is its constructor and the text it is built from.
#[derive(Debug)]
pub enum CedarValue {
    Bool(bool),
    Long(i64),
    Str(String),
    Entity(Vec<String>, String),
    Ext(String, String),
    List(Vec<CedarValue>),
    Record(Vec<(String, CedarValue)>),
}

/// An entity made of an object: its type, its id, its attributes and tags.
#[derive(Debug)]
pub struct CedarEntity {
    pub ty: Vec<String>,
    pub id: String,
    pub attrs: Vec<(String, CedarValue)>,
    pub tags: Vec<(String, CedarValue)>,
}

/// Why a request cannot be generated.
#[derive(Debug)]
pub enum RequestGeneratorError {
    /// A name is not a Cedar name; Cedar's message.
    ReservedName(String),
    /// A number has no decimal text.
    MalformedDecimalNumber(String),
    /// A `$ref` type has no definition in scope.
    UndefinedReference { name: String, namespace: String },
    /// The server describes no tool of that name.
    UnknownTool(String),
}

/// The content of a Cedar value.
pub enum CVal {
    Bool(bool),
    Long(int),
    Str(Seq<char>),
    Entity(Seq<Seq<char>>, Seq<char>),
    Ext(Seq<char>, Seq<char>),
    List(Seq<CVal>),
    Record(Seq<(Seq<char>, CVal)>),
}

/// The content of an entity.
pub struct EntV {
    pub ty: Seq<Seq<char>>,
    pub id: Seq<char>,
    pub attrs: Seq<(Seq<char>, CVal)>,
    pub tags: Seq<(Seq<char>, CVal)>,
}

/// The content of a request generation error.
pub enum ReqErr {
    ReservedName(Seq<char>),
    MalformedDecimal(Seq<char>),
    UndefinedRef(Seq<char>, Seq<char>),
    UnknownTool(Seq<char>),
}

pub open spec fn cval(v: CedarValue) -> CVal
    decreases v,
{
    match v {
        CedarValue::Bool(b) => CVal::Bool(b),
        CedarValue::Long(i) => CVal::Long(i as int),
        CedarValue::Str(s) => CVal::Str(s@),
        CedarValue::Entity(t, id) => CVal::Entity(strings_of(t@), id@),
        CedarValue::Ext(f, a) => CVal::Ext(f@, a@),
        CedarValue::List(vs) => CVal::List(cvals(vs@)),
        CedarValue::Record(ps) => CVal::Record(cpairs(ps@)),
    }
}

pub open spec fn cvals(vs: Seq<CedarValue>) -> Seq<CVal>
    decreases vs,
{
    if vs.len() == 0 {
        Seq::empty()
    } else {
        cvals(vs.drop_last()).push(cval(vs.last()))
    }
}

pub open spec fn cpairs(ps: Seq<(String, CedarValue)>) -> Seq<(Seq<char>, CVal)>
    decreases ps,
{
    if ps.len() == 0 {
        Seq::empty()
    } else {
        cpairs(ps.drop_last()).push((ps.last().0@, cval(ps.last().1)))
    }
}

pub open spec fn ent(e: CedarEntity) -> EntV {
    EntV { ty: strings_of(e.ty@), id: e.id@, attrs: cpairs(e.attrs@), tags: cpairs(e.tags@) }
}

pub open spec fn ents(es: Seq<CedarEntity>) -> Seq<EntV> {
    es.map_values(|e: CedarEntity| ent(e))
}

pub open spec fn req_err(e: RequestGeneratorError) -> ReqErr {
    match e {
        RequestGeneratorError::ReservedName(m) => ReqErr::ReservedName(m@),
        RequestGeneratorError::MalformedDecimalNumber(n) => ReqErr::MalformedDecimal(n@),
        RequestGeneratorError::UndefinedReference { name, namespace } => ReqErr::UndefinedRef(name@, namespace@),
        RequestGeneratorError::UnknownTool(n) => ReqErr::UnknownTool(n@),
    }
}

/// What request generation reads besides a value: the configuration, the
/// namespace of the schema, and where each type definition in scope is
/// declared.
pub struct ReqCx {
    pub config: SchemaGeneratorConfig,
    pub root: Option<Seq<Seq<char>>>,
    pub td: Seq<(Seq<char>, Option<Seq<Seq<char>>>)>,
}

/// The view of where the type definitions in scope are declared.
pub open spec fn td_view(td: Seq<(Seq<char>, Option<Vec<String>>)>) -> Seq<(Seq<char>, Option<Seq<Seq<char>>>)> {
    map_vals(td, |o: Option<Vec<String>>| ns_view(o))
}

/// The type an entity of type `p` is written with: with flattened
/// namespaces, its first identifier, then the others joined by `_`.
pub open spec fn flat_type(c: ReqCx, p: Seq<Seq<char>>) -> Seq<Seq<char>> {
    if c.config.flatten_namespaces && p.len() >= 2 {
        seq![p[0], join(p.drop_first(), "_"@)]
    } else {
        p
    }
}

/// A namespace as Cedar writes it; the global one as nothing.
pub open spec fn ns_text(ns: Option<Seq<Seq<char>>>) -> Seq<char> {
    match ns {
        Some(p) => join(p, "::"@),
        None => Seq::empty(),
    }
}

/// An entity standing for a value that Cedar has no type for.
pub open spec fn marker(c: ReqCx, ty: Seq<char>, id: Seq<char>) -> Result<(CVal, Seq<EntV>), ReqErr> {
    Ok((CVal::Entity(child_ns(c.root, ty), id), Seq::empty()))
}

/// An extension value.
pub open spec fn ext(f: Seq<char>, a: Seq<char>) -> Result<(CVal, Seq<EntV>), ReqErr> {
    Ok((CVal::Ext(f, a), Seq::empty()))
}

/// The Cedar value of `v`, of the type named `ty` read in namespace `ns`,
/// with the entities that its objects become, in order; or the error of
/// the first part that cannot be turned into one.
pub open spec fn spec_val(c: ReqCx, ns: Option<Seq<Seq<char>>>, ty: Seq<char>, v: McpValue) -> Result<
    (CVal, Seq<EntV>),
    ReqErr,
>
    decreases v,
{
    match v {
        McpValue::Null => marker(c, NULL_TYPE@, "null"@),
        McpValue::Bool(b) => Ok((CVal::Bool(b), Seq::empty())),
        McpValue::Integer(i) => Ok((CVal::Long(i as int), Seq::empty())),
        McpValue::Float { decimal, id } => if c.config.numbers_as_decimal {
            ext(DECIMAL_CTOR@, decimal@)
        } else {
            marker(c, FLOAT_TYPE@, id@)
        },
        McpValue::Number { decimal, id } => if c.config.numbers_as_decimal {
            match decimal {
                Some(d) => ext(DECIMAL_CTOR@, d@),
                None => Err(ReqErr::MalformedDecimal(id@)),
            }
        } else {
            marker(c, NUMBER_TYPE@, id@)
        },
        McpValue::String(s) => Ok((CVal::Str(s@), Seq::empty())),
        McpValue::Decimal(s) => ext(DECIMAL_CTOR@, s@),
        McpValue::Datetime(s) => ext(DATETIME_CTOR@, s@),
        McpValue::Duration(s) => ext(DURATION_CTOR@, s@),
        McpValue::IpAddr(s) => ext(IPADDR_CTOR@, s@),
        McpValue::Unknown => marker(c, UNKNOWN_TYPE@, "unknown"@),
        McpValue::Enum(s) => match cedar_name(ty) {
            Err(m) => Err(ReqErr::ReservedName(m)),
            Ok(p) => Ok((CVal::Entity(flat_type(c, qualify_path(p, ns)), s@), Seq::empty())),
        },
        McpValue::Array(vals) => match spec_list(c, ns, ty, vals@) {
            Err(e) => Err(e),
            Ok((xs, es)) => Ok((CVal::List(xs), es)),
        },
        McpValue::Tuple(vals) => if vals@.len() == 0 {
            Ok((CVal::Record(Seq::empty()), Seq::empty()))
        } else {
            match cedar_name(ty) {
                Err(m) => Err(ReqErr::ReservedName(m)),
                Ok(p) => match spec_tuple(c, qualify_path(p, ns), vals@) {
                    Err(e) => Err(e),
                    Ok((ps, es)) => Ok((CVal::Record(ps), es)),
                },
            }
        },
        McpValue::Union { index, value } => match cedar_name(ty) {
            Err(m) => Err(ReqErr::ReservedName(m)),
            Ok(p) => match spec_val(c, Some(qualify_path(p, ns)), "TypeChoice"@ + decimal(index as nat), *value) {
                Err(e) => Err(e),
                Ok((x, es)) => Ok((CVal::Record(seq![("typeChoice"@ + decimal(index as nat), x)]), es)),
            },
        },
        McpValue::Object { properties, additional_properties } => match cedar_name(ty) {
            Err(m) => Err(ReqErr::ReservedName(m)),
            Ok(p) => {
                let sub = qualify_path(p, ns);
                match spec_props(c, sub, properties@) {
                    Err(e) => Err(e),
                    Ok((ps, es1)) => match spec_props(c, sub, additional_properties@) {
                        Err(e) => Err(e),
                        Ok((ts, es2)) => if ts.len() == 0 && c.config.objects_as_records {
                            Ok((CVal::Record(ps), es1 + es2))
                        } else {
                            let t = flat_type(c, sub);
                            Ok((CVal::Entity(t, Seq::empty()), (es1 + es2).push(EntV { ty: t, id: Seq::empty(), attrs: ps, tags: ts })))
                        },
                    },
                }
            },
        },
        McpValue::Ref { name, val } => match lookup(c.td, name@) {
            None => Err(ReqErr::UndefinedRef(name@, ns_text(ns))),
            Some(n2) => spec_val(c, n2, name@, *val),
        },
    }
}

/// The values of the elements, each of the type `ty` read in `ns`.
pub open spec fn spec_list(c: ReqCx, ns: Option<Seq<Seq<char>>>, ty: Seq<char>, vs: Seq<McpValue>) -> Result<
    (Seq<CVal>, Seq<EntV>),
    ReqErr,
>
    decreases vs,
{
    if vs.len() == 0 {
        Ok((Seq::empty(), Seq::empty()))
    } else {
        match spec_list(c, ns, ty, vs.drop_last()) {
            Err(e) => Err(e),
            Ok((xs, es)) => match spec_val(c, ns, ty, vs.last()) {
                Err(e) => Err(e),
                Ok((x, es2)) => Ok((xs.push(x), es + es2)),
            },
        }
    }
}

/// The fields of a tuple read in `sub`: the `k`th is `projk`, of the type
/// `Projk`.
pub open spec fn spec_tuple(c: ReqCx, sub: Seq<Seq<char>>, vs: Seq<McpValue>) -> Result<
    (Seq<(Seq<char>, CVal)>, Seq<EntV>),
    ReqErr,
>
    decreases vs,
{
    if vs.len() == 0 {
        Ok((Seq::empty(), Seq::empty()))
    } else {
        let k = (vs.len() - 1) as nat;
        match spec_tuple(c, sub, vs.drop_last()) {
            Err(e) => Err(e),
            Ok((ps, es)) => match spec_val(c, Some(sub), "Proj"@ + decimal(k), vs.last()) {
                Err(e) => Err(e),
                Ok((x, es2)) => Ok((ps.push(("proj"@ + decimal(k), x)), es + es2)),
            },
        }
    }
}

/// The properties of an object read in `sub`, each of the type named
/// after it.
pub open spec fn spec_props(c: ReqCx, sub: Seq<Seq<char>>, ps: Seq<(String, McpValue)>) -> Result<
    (Seq<(Seq<char>, CVal)>, Seq<EntV>),
    ReqErr,
>
    decreases ps,
{
    if ps.len() == 0 {
        Ok((Seq::empty(), Seq::empty()))
    } else {
        match spec_props(c, sub, ps.drop_last()) {
            Err(e) => Err(e),
            Ok((qs, es)) => match spec_val(c, Some(sub), ps.last().0@, ps.last().1) {
                Err(e) => Err(e),
                Ok((x, es2)) => Ok((qs.push((ps.last().0@, x)), es + es2)),
            },
        }
    }
}

/// The context that request generation reads, from its parts.
pub open spec fn rcx(config: SchemaGeneratorConfig, root: Option<Vec<String>>, td: Seq<(Seq<char>, Option<Vec<String>>)>) -> ReqCx {
    ReqCx { config, root: ns_view(root), td: td_view(td) }
}

/// The content of an outcome of turning a value into a Cedar value.
pub open spec fn val_res(r: Result<(CedarValue, Vec<CedarEntity>), RequestGeneratorError>) -> Result<
    (CVal, Seq<EntV>),
    ReqErr,
> {
    match r {
        Ok((v, es)) => Ok((cval(v), ents(es@))),
        Err(e) => Err(req_err(e)),
    }
}

/// The content of an outcome of turning fields into Cedar values.
pub open spec fn pairs_res(r: Result<(Vec<(String, CedarValue)>, Vec<CedarEntity>), RequestGeneratorError>) -> Result<
    (Seq<(Seq<char>, CVal)>, Seq<EntV>),
    ReqErr,
> {
    match r {
        Ok((ps, es)) => Ok((cpairs(ps@), ents(es@))),
        Err(e) => Err(req_err(e)),
    }
}

proof fn lemma_cvals_push(s: Seq<CedarValue>, x: CedarValue)
    ensures
        cvals(s.push(x)) == cvals(s).push(cval(x)),
{
    assert(s.push(x).drop_last() =~= s);
}

proof fn lemma_cpairs_push(s: Seq<(String, CedarValue)>, x: (String, CedarValue))
    ensures
        cpairs(s.push(x)) == cpairs(s).push((x.0@, cval(x.1))),
{
    assert(s.push(x).drop_last() =~= s);
}

proof fn lemma_ents_add(a: Seq<CedarEntity>, b: Seq<CedarEntity>)
    ensures
        ents(a + b) == ents(a) + ents(b),
{
    assert(ents(a + b) =~= ents(a) + ents(b));
}

proof fn lemma_list_err(c: ReqCx, ns: Option<Seq<Seq<char>>>, ty: Seq<char>, vs: Seq<McpValue>, k: int)
    requires
        0 <= k <= vs.len(),
        spec_list(c, ns, ty, vs.take(k)) is Err,
    ensures
        spec_list(c, ns, ty, vs) == spec_list(c, ns, ty, vs.take(k)),
    decreases vs.len() - k,
{
    if k < vs.len() {
        assert(vs.take(k + 1).drop_last() =~= vs.take(k));
        lemma_list_err(c, ns, ty, vs, k + 1);
    } else {
        assert(vs.take(k) =~= vs);
    }
}

proof fn lemma_tuple_err(c: ReqCx, sub: Seq<Seq<char>>, vs: Seq<McpValue>, k: int)
    requires
        0 <= k <= vs.len(),
        spec_tuple(c, sub, vs.take(k)) is Err,
    ensures
        spec_tuple(c, sub, vs) == spec_tuple(c, sub, vs.take(k)),
    decreases vs.len() - k,
{
    if k < vs.len() {
        assert(vs.take(k + 1).drop_last() =~= vs.take(k));
        lemma_tuple_err(c, sub, vs, k + 1);
    } else {
        assert(vs.take(k) =~= vs);
    }
}

proof fn lemma_props_err(c: ReqCx, sub: Seq<Seq<char>>, ps: Seq<(String, McpValue)>, k: int)
    requires
        0 <= k <= ps.len(),
        spec_props(c, sub, ps.take(k)) is Err,
    ensures
        spec_props(c, sub, ps) == spec_props(c, sub, ps.take(k)),
    decreases ps.len() - k,
{
    if k < ps.len() {
        assert(ps.take(k + 1).drop_last() =~= ps.take(k));
        lemma_props_err(c, sub, ps, k + 1);
    } else {
        assert(ps.take(k) =~= ps);
    }
}

/// The identifiers after the first.
fn rest_of(p: &Vec<String>) -> (r: Vec<String>)
    requires
        p@.len() >= 1,
    ensures
        strings_of(r@) == strings_of(p@).drop_first(),
{
    let mut out: Vec<String> = Vec::new();
    let mut i: usize = 1;
    while i < p.len()
        invariant
            1 <= i <= p@.len(),
            strings_of(out@) == strings_of(p@).subrange(1, i as int),
        decreases p@.len() - i,
    {
        let ghost before = out@;
        out.push(p[i].clone());
        proof {
            crate::text::lemma_strings_of_push(before, out@.last());
            assert(strings_of(p@).subrange(1, i + 1) =~= strings_of(p@).subrange(1, i as int).push(p@[i as int]@));
        }
        i = i + 1;
    }
    assert(strings_of(p@).subrange(1, p@.len() as int) =~= strings_of(p@).drop_first());
    out
}

/// The type an entity of type `p` is written with (see `flat_type`).
fn flat_type_exec(config: &SchemaGeneratorConfig, root: &Option<Vec<String>>, td: &StrMap<Option<Vec<String>>>, p: Vec<String>) -> (r: Vec<String>)
    ensures
        strings_of(r@) == flat_type(rcx(*config, *root, td@), strings_of(p@)),
{
    if config.flatten_namespaces && p.len() >= 2 {
        let rest = rest_of(&p);
        let joined = join_strings(&rest, "_");
        let out = vec![p[0].clone(), joined];
        assert(strings_of(out@) =~= seq![strings_of(p@)[0], join(strings_of(p@).drop_first(), "_"@)]);
        out
    } else {
        p
    }
}

/// The error for a name that is not a Cedar name.
fn reserved(m: String) -> (r: RequestGeneratorError)
    ensures
        req_err(r) == ReqErr::ReservedName(m@),
{
    RequestGeneratorError::ReservedName(m)
}

/// The Cedar value of `val`, of the type named `ty_name` read in namespace
/// `ns`, with the entities its objects become (see `spec_val`).
pub fn val_to_cedar(
    config: &SchemaGeneratorConfig,
    root: &Option<Vec<String>>,
    td: &StrMap<Option<Vec<String>>>,
    ns: &Option<Vec<String>>,
    ty_name: &str,
    val: &McpValue,
) -> (r: Result<(CedarValue, Vec<CedarEntity>), RequestGeneratorError>)
    ensures
        val_res(r) == spec_val(rcx(*config, *root, td@), ns_view(*ns), ty_name@, *val),
    decreases *val,
{
    let ghost c = rcx(*config, *root, td@);
    assert(ents(Seq::<CedarEntity>::empty()) =~= Seq::<EntV>::empty());
    match val {
        McpValue::Null => Ok((CedarValue::Entity(crate::generator::names::qualified_name(root, NULL_TYPE), "null".to_string()), Vec::new())),
        McpValue::Bool(b) => Ok((CedarValue::Bool(*b), Vec::new())),
        McpValue::Integer(i) => Ok((CedarValue::Long(*i), Vec::new())),
        McpValue::Float { decimal, id } => if config.numbers_as_decimal {
            Ok((CedarValue::Ext(DECIMAL_CTOR.to_string(), decimal.clone()), Vec::new()))
        } else {
            Ok((CedarValue::Entity(crate::generator::names::qualified_name(root, FLOAT_TYPE), id.clone()), Vec::new()))
        },
        McpValue::Number { decimal, id } => if config.numbers_as_decimal {
            match decimal {
                Some(d) => Ok((CedarValue::Ext(DECIMAL_CTOR.to_string(), d.clone()), Vec::new())),
                None => Err(RequestGeneratorError::MalformedDecimalNumber(id.clone())),
            }
        } else {
            Ok((CedarValue::Entity(crate::generator::names::qualified_name(root, NUMBER_TYPE), id.clone()), Vec::new()))
        },
        McpValue::String(s) => Ok((CedarValue::Str(s.clone()), Vec::new())),
        McpValue::Decimal(s) => Ok((CedarValue::Ext(DECIMAL_CTOR.to_string(), s.clone()), Vec::new())),
        McpValue::Datetime(s) => Ok((CedarValue::Ext(DATETIME_CTOR.to_string(), s.clone()), Vec::new())),
        McpValue::Duration(s) => Ok((CedarValue::Ext(DURATION_CTOR.to_string(), s.clone()), Vec::new())),
        McpValue::IpAddr(s) => Ok((CedarValue::Ext(IPADDR_CTOR.to_string(), s.clone()), Vec::new())),
        McpValue::Unknown => Ok((CedarValue::Entity(crate::generator::names::qualified_name(root, UNKNOWN_TYPE), "unknown".to_string()), Vec::new())),
        McpValue::Enum(s) => match parse_name(ty_name) {
            Err(m) => Err(reserved(m)),
            Ok(p) => {
                let t = flat_type_exec(config, root, td, qualify(p, ns));
                Ok((CedarValue::Entity(t, s.clone()), Vec::new()))
            },
        },
        McpValue::Array(vals) => {
            assert(decreases_to!(*val => *vals));
            match list_to_cedar(config, root, td, ns, ty_name, vals) {
                Err(e) => Err(e),
                Ok((xs, es)) => Ok((CedarValue::List(xs), es)),
            }
        },
        McpValue::Tuple(vals) => {
            if vals.len() == 0 {
                let r: Result<(CedarValue, Vec<CedarEntity>), RequestGeneratorError> = Ok((CedarValue::Record(Vec::new()), Vec::new()));
                assert(cpairs(Seq::<(String, CedarValue)>::empty()) =~= Seq::<(Seq<char>, CVal)>::empty());
                return r;
            }
            match parse_name(ty_name) {
                Err(m) => Err(reserved(m)),
                Ok(p) => {
                    let sub = qualify(p, ns);
                    assert(decreases_to!(*val => *vals));
                    match tuple_to_cedar(config, root, td, &sub, vals) {
                        Err(e) => Err(e),
                        Ok((ps, es)) => Ok((CedarValue::Record(ps), es)),
                    }
                },
            }
        },
        McpValue::Union { index, value } => match parse_name(ty_name) {
            Err(m) => Err(reserved(m)),
            Ok(p) => {
                let sub = Some(qualify(p, ns));
                let digits = u64_to_decimal(*index as u64);
                let mut tn = "TypeChoice".to_string();
                tn.append(digits.as_str());
                let mut key = "typeChoice".to_string();
                key.append(digits.as_str());
                assert(decreases_to!(*val => **value));
                match val_to_cedar(config, root, td, &sub, tn.as_str(), value) {
                    Err(e) => Err(e),
                    Ok((x, es)) => {
                        let ps = vec![(key, x)];
                        proof {
                            assert(ps@ =~= Seq::<(String, CedarValue)>::empty().push(ps@[0]));
                            lemma_cpairs_push(Seq::<(String, CedarValue)>::empty(), ps@[0]);
                        }
                        Ok((CedarValue::Record(ps), es))
                    },
                }
            },
        },
        McpValue::Object { properties, additional_properties } => match parse_name(ty_name) {
            Err(m) => Err(reserved(m)),
            Ok(p) => {
                let sub = qualify(p, ns);
                assert(decreases_to!(*val => *properties));
                assert(decreases_to!(*val => *additional_properties));
                let (ps, mut es) = match props_to_cedar(config, root, td, &sub, properties) {
                    Err(e) => {
                        return Err(e);
                    },
                    Ok(x) => x,
                };
                let (ts, mut es2) = match props_to_cedar(config, root, td, &sub, additional_properties) {
                    Err(e) => {
                        return Err(e);
                    },
                    Ok(x) => x,
                };
                let ghost e1 = es@;
                let ghost e2 = es2@;
                es.append(&mut es2);
                proof {
                    lemma_ents_add(e1, e2);
                }
                if ts.len() == 0 && config.objects_as_records {
                    Ok((CedarValue::Record(ps), es))
                } else {
                    let t = flat_type_exec(config, root, td, copy_strings(&sub));
                    let t2 = copy_strings(&t);
                    let ghost before = es@;
                    es.push(CedarEntity { ty: t, id: String::new(), attrs: ps, tags: ts });
                    proof {
                        assert(ents(es@) =~= ents(before).push(ent(es@.last())));
                    }
                    Ok((CedarValue::Entity(t2, String::new()), es))
                }
            },
        },
        McpValue::Ref { name, val: inner } => {
            let _n: usize = td.len();
            proof {
                crate::strmap::lemma_map_vals_lookup(td@, |o: Option<Vec<String>>| ns_view(o), name@);
            }
            match td.get(name.as_str()) {
                None => {
                    let namespace = match ns {
                        Some(p) => join_strings(p, "::"),
                        None => String::new(),
                    };
                    Err(RequestGeneratorError::UndefinedReference { name: name.clone(), namespace })
                },
                Some(n2) => {
                    assert(decreases_to!(*val => **inner));
                    val_to_cedar(config, root, td, n2, name.as_str(), inner)
                },
            }
        },
    }
}

/// The values of the elements (see `spec_list`).
fn list_to_cedar(
    config: &SchemaGeneratorConfig,
    root: &Option<Vec<String>>,
    td: &StrMap<Option<Vec<String>>>,
    ns: &Option<Vec<String>>,
    ty_name: &str,
    vals: &Vec<McpValue>,
) -> (r: Result<(Vec<CedarValue>, Vec<CedarEntity>), RequestGeneratorError>)
    ensures
        match spec_list(rcx(*config, *root, td@), ns_view(*ns), ty_name@, vals@) {
            Ok((xs, es)) => r matches Ok((a, b)) && cvals(a@) == xs && ents(b@) == es,
            Err(e) => r matches Err(x) && req_err(x) == e,
        },
    decreases vals,
{
    let ghost c = rcx(*config, *root, td@);
    let mut xs: Vec<CedarValue> = Vec::new();
    let mut es: Vec<CedarEntity> = Vec::new();
    let mut i: usize = 0;
    assert(vals@.take(0) =~= Seq::<McpValue>::empty());
    assert(cvals(xs@) =~= Seq::<CVal>::empty());
    assert(ents(es@) =~= Seq::<EntV>::empty());
    while i < vals.len()
        invariant
            0 <= i <= vals@.len(),
            c == rcx(*config, *root, td@),
            spec_list(c, ns_view(*ns), ty_name@, vals@.take(i as int)) == Ok::<(Seq<CVal>, Seq<EntV>), ReqErr>((cvals(xs@), ents(es@))),
        decreases vals@.len() - i,
    {
        proof {
            assert(vals@.take(i + 1).drop_last() =~= vals@.take(i as int));
            assert(vals@.take(i + 1).last() == vals@[i as int]);
        }
        assert(decreases_to!(*vals => vals@));
        assert(decreases_to!(vals@ => vals@[i as int]));
        match val_to_cedar(config, root, td, ns, ty_name, &vals[i]) {
            Err(e) => {
                proof {
                    lemma_list_err(c, ns_view(*ns), ty_name@, vals@, i + 1);
                }
                return Err(e);
            },
            Ok((x, mut more)) => {
                let ghost bx = xs@;
                let ghost be = es@;
                let ghost bm = more@;
                proof {
                    lemma_cvals_push(bx, x);
                    lemma_ents_add(be, bm);
                }
                xs.push(x);
                es.append(&mut more);
            },
        }
        i = i + 1;
    }
    assert(vals@.take(vals@.len() as int) =~= vals@);
    Ok((xs, es))
}

/// The fields of a tuple (see `spec_tuple`).
fn tuple_to_cedar(
    config: &SchemaGeneratorConfig,
    root: &Option<Vec<String>>,
    td: &StrMap<Option<Vec<String>>>,
    sub: &Vec<String>,
    vals: &Vec<McpValue>,
) -> (r: Result<(Vec<(String, CedarValue)>, Vec<CedarEntity>), RequestGeneratorError>)
    ensures
        pairs_res(r) == spec_tuple(rcx(*config, *root, td@), strings_of(sub@), vals@),
    decreases vals,
{
    let ghost c = rcx(*config, *root, td@);
    let ghost sv = strings_of(sub@);
    let nsub = Some(copy_strings(sub));
    assert(ns_view(nsub) == Some(sv));
    let mut ps: Vec<(String, CedarValue)> = Vec::new();
    let mut es: Vec<CedarEntity> = Vec::new();
    let mut i: usize = 0;
    assert(vals@.take(0) =~= Seq::<McpValue>::empty());
    assert(cpairs(ps@) =~= Seq::<(Seq<char>, CVal)>::empty());
    assert(ents(es@) =~= Seq::<EntV>::empty());
    while i < vals.len()
        invariant
            0 <= i <= vals@.len(),
            c == rcx(*config, *root, td@),
            sv == strings_of(sub@),
            ns_view(nsub) == Some(sv),
            spec_tuple(c, sv, vals@.take(i as int)) == Ok::<(Seq<(Seq<char>, CVal)>, Seq<EntV>), ReqErr>((cpairs(ps@), ents(es@))),
        decreases vals@.len() - i,
    {
        proof {
            assert(vals@.take(i + 1).drop_last() =~= vals@.take(i as int));
            assert(vals@.take(i + 1).last() == vals@[i as int]);
        }
        let digits = u64_to_decimal(i as u64);
        let mut tn = "Proj".to_string();
        tn.append(digits.as_str());
        let mut key = "proj".to_string();
        key.append(digits.as_str());
        assert(decreases_to!(*vals => vals@));
        assert(decreases_to!(vals@ => vals@[i as int]));
        match val_to_cedar(config, root, td, &nsub, tn.as_str(), &vals[i]) {
            Err(e) => {
                proof {
                    lemma_tuple_err(c, sv, vals@, i + 1);
                }
                return Err(e);
            },
            Ok((x, mut more)) => {
                let ghost bp = ps@;
                let ghost be = es@;
                let ghost bm = more@;
                proof {
                    lemma_cpairs_push(bp, (key, x));
                    lemma_ents_add(be, bm);
                }
                ps.push((key, x));
                es.append(&mut more);
            },
        }
        i = i + 1;
    }
    assert(vals@.take(vals@.len() as int) =~= vals@);
    Ok((ps, es))
}

/// The properties of an object (see `spec_props`).
fn props_to_cedar(
    config: &SchemaGeneratorConfig,
    root: &Option<Vec<String>>,
    td: &StrMap<Option<Vec<String>>>,
    sub: &Vec<String>,
    props: &Vec<(String, McpValue)>,
) -> (r: Result<(Vec<(String, CedarValue)>, Vec<CedarEntity>), RequestGeneratorError>)
    ensures
        pairs_res(r) == spec_props(rcx(*config, *root, td@), strings_of(sub@), props@),
    decreases props,
{
    let ghost c = rcx(*config, *root, td@);
    let ghost sv = strings_of(sub@);
    let nsub = Some(copy_strings(sub));
    assert(ns_view(nsub) == Some(sv));
    let mut ps: Vec<(String, CedarValue)> = Vec::new();
    let mut es: Vec<CedarEntity> = Vec::new();
    let mut i: usize = 0;
    assert(props@.take(0) =~= Seq::<(String, McpValue)>::empty());
    assert(cpairs(ps@) =~= Seq::<(Seq<char>, CVal)>::empty());
    assert(ents(es@) =~= Seq::<EntV>::empty());
    while i < props.len()
        invariant
            0 <= i <= props@.len(),
            c == rcx(*config, *root, td@),
            sv == strings_of(sub@),
            ns_view(nsub) == Some(sv),
            spec_props(c, sv, props@.take(i as int)) == Ok::<(Seq<(Seq<char>, CVal)>, Seq<EntV>), ReqErr>((cpairs(ps@), ents(es@))),
        decreases props@.len() - i,
    {
        proof {
            assert(props@.take(i + 1).drop_last() =~= props@.take(i as int));
            assert(props@.take(i + 1).last() == props@[i as int]);
        }
        assert(decreases_to!(*props => props@));
        assert(decreases_to!(props@ => props@[i as int]));
        assert(decreases_to!(props@[i as int] => props@[i as int].1));
        let name = &props[i].0;
        match val_to_cedar(config, root, td, &nsub, name.as_str(), &props[i].1) {
            Err(e) => {
                proof {
                    lemma_props_err(c, sv, props@, i + 1);
                }
                return Err(e);
            },
            Ok((x, mut more)) => {
                let ghost bp = ps@;
                let ghost be = es@;
                let ghost bm = more@;
                let key = name.clone();
                proof {
                    lemma_cpairs_push(bp, (key, x));
                    lemma_ents_add(be, bm);
                }
                ps.push((key, x));
                es.append(&mut more);
            },
        }
        i = i + 1;
    }
    assert(props@.take(props@.len() as int) =~= props@);
    Ok((ps, es))
}

// ---------------------------------------------------------------------------
// Requests.
// ---------------------------------------------------------------------------
/// A call of a tool: its name and its arguments, typed by its description.
#[derive(Debug)]
pub struct ToolCall {
    pub name: String,
    pub args: Vec<(String, McpValue)>,
}

/// What an authorization request for a tool call is made of, besides the
/// principal, the resource and the caller's own context: the action, the
/// `input` record of the context, the `output` record when it is included,
/// and the entities that objects became.
#[derive(Debug)]
pub struct RequestPlan {
    pub action_type: Vec<String>,
    pub action_id: String,
    pub input: Vec<(String, CedarValue)>,
    pub output: Option<Vec<(String, CedarValue)>>,
    pub entities: Vec<CedarEntity>,
}

/// Generates requests for the tools of a server, under the namespace of
/// the schema made for them.
#[derive(Debug)]
pub struct RequestGenerator {
    pub config: SchemaGeneratorConfig,
    pub root: Option<Vec<String>>,
    pub tools: ServerDescription,
}

impl RequestGenerator {
    /// A request generator for the tools of `tools`, under the namespace
    /// `root`.
    pub fn new(config: SchemaGeneratorConfig, tools: ServerDescription, root: Option<Vec<String>>) -> (r: Self)
        ensures
            r.config == config,
            r.tools == tools,
            r.root == root,
    {
        RequestGenerator { config, root, tools }
    }
}

/// The content of a request plan.
pub struct PlanV {
    pub action_type: Seq<Seq<char>>,
    pub action_id: Seq<char>,
    pub input: Seq<(Seq<char>, CVal)>,
    pub output: Option<Seq<(Seq<char>, CVal)>>,
    pub entities: Seq<EntV>,
}

pub open spec fn plan_view(p: RequestPlan) -> PlanV {
    PlanV {
        action_type: strings_of(p.action_type@),
        action_id: p.action_id@,
        input: cpairs(p.input@),
        output: match p.output {
            Some(o) => Some(cpairs(o@)),
            None => None,
        },
        entities: ents(p.entities@),
    }
}

/// Each type definition, declared in `ns`.
pub open spec fn td_entries(defs: Seq<PropertyTypeDef>, ns: Option<Seq<Seq<char>>>) -> Seq<(Seq<char>, Option<Seq<Seq<char>>>)> {
    defs.map_values(|d: PropertyTypeDef| (d.name@, ns))
}

/// The map `m` with the entries put in order, a later one replacing an
/// earlier one of the same name.
pub open spec fn put_all(m: Seq<(Seq<char>, Option<Seq<Seq<char>>>)>, es: Seq<(Seq<char>, Option<Seq<Seq<char>>>)>) -> Seq<
    (Seq<char>, Option<Seq<Seq<char>>>),
>
    decreases es.len(),
{
    if es.len() == 0 {
        m
    } else {
        map_insert(put_all(m, es.drop_last()), es.last().0, es.last().1)
    }
}

/// `i` is where the first tool named `n` is.
pub open spec fn first_tool(tools: Seq<ToolDescription>, n: Seq<char>, i: int) -> bool {
    0 <= i < tools.len() && tools[i].name@ == n && forall|j: int| 0 <= j < i ==> (#[trigger] tools[j]).name@ != n
}

/// What a request for the call `call`, with the results `output` if any,
/// is made of: the action of the tool; its arguments, read in the tool's
/// input namespace with the server's, the tool's and the inputs' type
/// definitions in scope; its results likewise when outputs are included;
/// and the entities, those of the arguments first. The errors are: no tool
/// of that name, a tool name that is not a Cedar name, or the first value
/// that cannot be turned into a Cedar value.
pub open spec fn spec_request(
    config: SchemaGeneratorConfig,
    root: Option<Seq<Seq<char>>>,
    d: ServerDescription,
    call: ToolCall,
    output: Option<Seq<(String, McpValue)>>,
) -> Result<PlanV, ReqErr> {
    let tools = d.tools@;
    if !(exists|i: int| first_tool(tools, call.name@, i)) {
        Err(ReqErr::UnknownTool(call.name@))
    } else {
        let t = tools[choose|i: int| first_tool(tools, call.name@, i)];
        match cedar_name(t.name@) {
            Err(m) => Err(ReqErr::ReservedName(m)),
            Ok(p) => {
                let tns = qualify_path(p, root);
                let td1 = put_all(put_all(Seq::empty(), td_entries(d.type_defs@, root)), td_entries(t.type_defs@, Some(tns)));
                let ins = child_ns(Some(tns), INPUT_NAME@);
                let td_in = put_all(td1, td_entries(t.inputs.type_defs@, Some(ins)));
                match spec_props(ReqCx { config, root, td: td_in }, ins, call.args@) {
                    Err(e) => Err(e),
                    Ok((ips, ies)) => {
                        let action_type = child_ns(root, ACTION@);
                        match output {
                            Some(res) => if config.include_outputs {
                                let outs = child_ns(Some(tns), OUTPUT_NAME@);
                                let td_out = put_all(td1, td_entries(t.outputs.type_defs@, Some(outs)));
                                match spec_props(ReqCx { config, root, td: td_out }, outs, res) {
                                    Err(e) => Err(e),
                                    Ok((ops, oes)) => Ok(PlanV { action_type, action_id: t.name@, input: ips, output: Some(ops), entities: ies + oes }),
                                }
                            } else {
                                Ok(PlanV { action_type, action_id: t.name@, input: ips, output: None, entities: ies })
                            },
                            None => Ok(PlanV { action_type, action_id: t.name@, input: ips, output: None, entities: ies }),
                        }
                    },
                }
            },
        }
    }
}

/// Puts each type definition of `defs`, declared in `ns`, into `m`.
fn put_defs(m: &mut StrMap<Option<Vec<String>>>, defs: &Vec<PropertyTypeDef>, ns: &Option<Vec<String>>)
    ensures
        td_view(final(m)@) == put_all(td_view(old(m)@), td_entries(defs@, ns_view(*ns))),
{
    let ghost m0 = td_view(m@);
    let ghost es = td_entries(defs@, ns_view(*ns));
    let mut i: usize = 0;
    assert(es.take(0) =~= Seq::<(Seq<char>, Option<Seq<Seq<char>>>)>::empty());
    while i < defs.len()
        invariant
            0 <= i <= defs@.len(),
            m0 == td_view(old(m)@),
            es == td_entries(defs@, ns_view(*ns)),
            es.len() == defs@.len(),
            td_view(m@) == put_all(m0, es.take(i as int)),
        decreases defs@.len() - i,
    {
        let ghost before = m@;
        let v = copy_namespace(ns);
        let ghost vv = v;
        m.insert(defs[i].name.clone(), v);
        proof {
            crate::strmap::lemma_map_vals_insert(before, |o: Option<Vec<String>>| ns_view(o), defs@[i as int].name@, vv);
            assert(es.take(i + 1).drop_last() =~= es.take(i as int));
            assert(es.take(i + 1).last() == es[i as int]);
        }
        i = i + 1;
    }
    assert(es.take(es.len() as int) =~= es);
}

impl RequestGenerator {
    /// The parts of a request for the call `call`, with the results
    /// `output` if any (see `spec_request`).
    pub fn generate_request(&self, call: &ToolCall, output: Option<&Vec<(String, McpValue)>>) -> (r: Result<RequestPlan, RequestGeneratorError>)
        ensures
            match spec_request(self.config, ns_view(self.root), self.tools, *call, match output {
                Some(o) => Some(o@),
                None => None,
            }) {
                Ok(p) => r matches Ok(x) && plan_view(x) == p,
                Err(e) => r matches Err(x) && req_err(x) == e,
            },
    {
        let tools = &self.tools.tools;
        let mut i: usize = 0;
        while i < tools.len()
            invariant
                0 <= i <= tools@.len(),
                tools == &self.tools.tools,
                forall|j: int| 0 <= j < i ==> (#[trigger] tools@[j]).name@ != call.name@,
            ensures
                0 <= i <= tools@.len(),
                forall|j: int| 0 <= j < i ==> (#[trigger] tools@[j]).name@ != call.name@,
                i < tools@.len() ==> tools@[i as int].name@ == call.name@,
            decreases tools@.len() - i,
        {
            if crate::text::text_eq(tools[i].name.as_str(), call.name.as_str()) {
                break;
            }
            i = i + 1;
        }
        if i == tools.len() {
            proof {
                assert forall|k: int| !first_tool(tools@, call.name@, k) by {
                    if first_tool(tools@, call.name@, k) {
                        assert(tools@[k].name@ != call.name@);
                    }
                }
            }
            return Err(RequestGeneratorError::UnknownTool(call.name.clone()));
        }
        let t = &tools[i];
        proof {
            assert(first_tool(tools@, call.name@, i as int));
            let k = choose|k: int| first_tool(tools@, call.name@, k);
            if k < i {
                assert(tools@[k].name@ != call.name@);
            } else if k > i {
                assert(tools@[i as int].name@ != call.name@);
            }
            assert(k == i);
        }
        let tns = match parse_name(t.name.as_str()) {
            Err(m) => {
                return Err(reserved(m));
            },
            Ok(p) => qualify(p, &self.root),
        };
        let tool_ns = Some(copy_strings(&tns));
        let ins = Some(crate::generator::names::qualified_name(&tool_ns, INPUT_NAME));
        let mut td_in: StrMap<Option<Vec<String>>> = StrMap::new();
        assert(td_view(td_in@) =~= Seq::<(Seq<char>, Option<Seq<Seq<char>>>)>::empty());
        put_defs(&mut td_in, &self.tools.type_defs, &self.root);
        put_defs(&mut td_in, &t.type_defs, &tool_ns);
        let ghost td1 = td_view(td_in@);
        put_defs(&mut td_in, &t.inputs.type_defs, &ins);
        let ins_path = copy_strings(&crate::generator::names::qualified_name(&tool_ns, INPUT_NAME));
        let (input, mut entities) = match props_to_cedar(&self.config, &self.root, &td_in, &ins_path, &call.args) {
            Err(e) => {
                return Err(e);
            },
            Ok(x) => x,
        };
        let action_type = crate::generator::names::qualified_name(&self.root, ACTION);
        let action_id = t.name.clone();
        match output {
            Some(res) => if self.config.include_outputs {
                let outs_path = crate::generator::names::qualified_name(&tool_ns, OUTPUT_NAME);
                let outs = Some(copy_strings(&outs_path));
                let mut td_out: StrMap<Option<Vec<String>>> = StrMap::new();
                assert(td_view(td_out@) =~= Seq::<(Seq<char>, Option<Seq<Seq<char>>>)>::empty());
                put_defs(&mut td_out, &self.tools.type_defs, &self.root);
                put_defs(&mut td_out, &t.type_defs, &tool_ns);
                put_defs(&mut td_out, &t.outputs.type_defs, &outs);
                match props_to_cedar(&self.config, &self.root, &td_out, &outs_path, res) {
                    Err(e) => Err(e),
                    Ok((out_pairs, mut more)) => {
                        let ghost a = entities@;
                        let ghost b = more@;
                        entities.append(&mut more);
                        proof {
                            lemma_ents_add(a, b);
                        }
                        Ok(RequestPlan { action_type, action_id, input, output: Some(out_pairs), entities })
                    },
                }
            } else {
                Ok(RequestPlan { action_type, action_id, input, output: None, entities })
            },
            None => Ok(RequestPlan { action_type, action_id, input, output: None, entities }),
        }
    }
}

/// A value of one of Cedar's extension types becomes a call of that type's
/// constructor on its text, the type the schema gives the same property:
/// a decimal `decimal(..)` for a `decimal` attribute, a date
/// `datetime(..)` for a `datetime` one, a duration `duration(..)` for a
/// `duration` one, an address `ip(..)` for an `ipaddr` one; and it makes no
/// entity.
pub proof fn lemma_extension_values_match_schema(
    c: ReqCx,
    ns: Option<Seq<Seq<char>>>,
    ty: Seq<char>,
    s: String,
    cx: crate::generator::translate::CxV,
    common: Seq<(Seq<char>, Seq<Seq<char>>)>,
)
    ensures
        spec_val(c, ns, ty, McpValue::Decimal(s)) == Ok::<(CVal, Seq<EntV>), ReqErr>((CVal::Ext("decimal"@, s@), Seq::empty())),
        spec_val(c, ns, ty, McpValue::Datetime(s)) == Ok::<(CVal, Seq<EntV>), ReqErr>((CVal::Ext("datetime"@, s@), Seq::empty())),
        spec_val(c, ns, ty, McpValue::Duration(s)) == Ok::<(CVal, Seq<EntV>), ReqErr>((CVal::Ext("duration"@, s@), Seq::empty())),
        spec_val(c, ns, ty, McpValue::IpAddr(s)) == Ok::<(CVal, Seq<EntV>), ReqErr>((CVal::Ext("ip"@, s@), Seq::empty())),
        crate::generator::translate::spec_cedar_type(cx, common, ns, ty, crate::description::PropertyType::Decimal).1
            == Ok::<crate::generator::model::CTypeV, crate::generator::model::GenErr>(crate::generator::model::CTypeV::EntityOrCommon(seq!["decimal"@])),
        crate::generator::translate::spec_cedar_type(cx, common, ns, ty, crate::description::PropertyType::Datetime).1
            == Ok::<crate::generator::model::CTypeV, crate::generator::model::GenErr>(crate::generator::model::CTypeV::EntityOrCommon(seq!["datetime"@])),
        crate::generator::translate::spec_cedar_type(cx, common, ns, ty, crate::description::PropertyType::Duration).1
            == Ok::<crate::generator::model::CTypeV, crate::generator::model::GenErr>(crate::generator::model::CTypeV::EntityOrCommon(seq!["duration"@])),
        crate::generator::translate::spec_cedar_type(cx, common, ns, ty, crate::description::PropertyType::IpAddr).1
            == Ok::<crate::generator::model::CTypeV, crate::generator::model::GenErr>(crate::generator::model::CTypeV::EntityOrCommon(seq!["ipaddr"@])),
{
    crate::generator::translate::lemma_primitive_cedar_types(cx, common, ns, ty);
}

/// Plain values become the Cedar values of the same kind, with no entity:
/// booleans, integers and strings as they are.
pub proof fn lemma_plain_values(c: ReqCx, ns: Option<Seq<Seq<char>>>, ty: Seq<char>, b: bool, i: i64, s: String)
    ensures
        spec_val(c, ns, ty, McpValue::Bool(b)) == Ok::<(CVal, Seq<EntV>), ReqErr>((CVal::Bool(b), Seq::empty())),
        spec_val(c, ns, ty, McpValue::Integer(i)) == Ok::<(CVal, Seq<EntV>), ReqErr>((CVal::Long(i as int), Seq::empty())),
        spec_val(c, ns, ty, McpValue::String(s)) == Ok::<(CVal, Seq<EntV>), ReqErr>((CVal::Str(s@), Seq::empty())),
{
}

/// Values Cedar has no type for become entities of the namespace's own
/// entity types, the ones the schema gives the same property types: null
/// `Null::"null"`, unknown values `Unknown::"unknown"`, and numbers (unless
/// they are encoded as decimals) `Float` or `Number` entities named by the
/// number's text. Encoded as decimals, numbers become `decimal(..)` calls
/// on their decimal text, and a number without one is an error.
pub proof fn lemma_marker_values_match_schema(
    c: ReqCx,
    ns: Option<Seq<Seq<char>>>,
    ty: Seq<char>,
    d: String,
    od: Option<String>,
    id: String,
    cx: crate::generator::translate::CxV,
    common: Seq<(Seq<char>, Seq<Seq<char>>)>,
)
    requires
        cx.root == c.root,
        cx.config == c.config,
        cx.root matches Some(r) && r.len() > 0,
    ensures
        spec_val(c, ns, ty, McpValue::Null) == Ok::<(CVal, Seq<EntV>), ReqErr>((CVal::Entity(child_ns(c.root, "Null"@), "null"@), Seq::empty())),
        spec_val(c, ns, ty, McpValue::Unknown) == Ok::<(CVal, Seq<EntV>), ReqErr>((CVal::Entity(child_ns(c.root, "Unknown"@), "unknown"@), Seq::empty())),
        spec_val(c, ns, ty, McpValue::Float { decimal: d, id }) == if c.config.numbers_as_decimal {
            Ok::<(CVal, Seq<EntV>), ReqErr>((CVal::Ext("decimal"@, d@), Seq::empty()))
        } else {
            Ok((CVal::Entity(child_ns(c.root, "Float"@), id@), Seq::empty()))
        },
        spec_val(c, ns, ty, McpValue::Number { decimal: od, id }) == if c.config.numbers_as_decimal {
            match od {
                Some(x) => Ok::<(CVal, Seq<EntV>), ReqErr>((CVal::Ext("decimal"@, x@), Seq::empty())),
                None => Err(ReqErr::MalformedDecimal(id@)),
            }
        } else {
            Ok((CVal::Entity(child_ns(c.root, "Number"@), id@), Seq::empty()))
        },
        crate::generator::translate::spec_cedar_type(cx, common, ns, ty, crate::description::PropertyType::Null).1
            == Ok::<crate::generator::model::CTypeV, crate::generator::model::GenErr>(crate::generator::model::CTypeV::Entity(child_ns(c.root, "Null"@))),
        crate::generator::translate::spec_cedar_type(cx, common, ns, ty, crate::description::PropertyType::Unknown).1
            == Ok::<crate::generator::model::CTypeV, crate::generator::model::GenErr>(crate::generator::model::CTypeV::Entity(child_ns(c.root, "Unknown"@))),
        !c.config.numbers_as_decimal ==> crate::generator::translate::spec_cedar_type(cx, common, ns, ty, crate::description::PropertyType::Float).1
            == Ok::<crate::generator::model::CTypeV, crate::generator::model::GenErr>(crate::generator::model::CTypeV::Entity(child_ns(c.root, "Float"@))),
        !c.config.numbers_as_decimal ==> crate::generator::translate::spec_cedar_type(cx, common, ns, ty, crate::description::PropertyType::Number).1
            == Ok::<crate::generator::model::CTypeV, crate::generator::model::GenErr>(crate::generator::model::CTypeV::Entity(child_ns(c.root, "Number"@))),
        c.config.numbers_as_decimal ==> crate::generator::translate::spec_cedar_type(cx, common, ns, ty, crate::description::PropertyType::Number).1
            == Ok::<crate::generator::model::CTypeV, crate::generator::model::GenErr>(crate::generator::model::CTypeV::EntityOrCommon(seq!["decimal"@])),
{
}

/// The elements of an array each become what they become alone, in
/// order: the `k`-th element of the set is the value of the `k`-th
/// element, of the array's type; the array fails exactly when one of its
/// elements does.
pub proof fn lemma_list_elements(c: ReqCx, ns: Option<Seq<Seq<char>>>, ty: Seq<char>, vs: Seq<McpValue>)
    ensures
        (spec_list(c, ns, ty, vs) is Ok) <==> (forall|k: int| 0 <= k < vs.len() ==> (#[trigger] spec_val(c, ns, ty, vs[k])) is Ok),
        spec_list(c, ns, ty, vs) matches Ok((xs, _)) ==> xs.len() == vs.len() && forall|k: int|
            0 <= k < vs.len() ==> (#[trigger] spec_val(c, ns, ty, vs[k]) matches Ok((x, _)) && x == xs[k]),
    decreases vs.len(),
{
    if vs.len() > 0 {
        let pre = vs.drop_last();
        let n = vs.len() - 1;
        lemma_list_elements(c, ns, ty, pre);
        assert forall|k: int| 0 <= k < pre.len() implies #[trigger] pre[k] == vs[k] by {}
        assert(vs.last() == vs[n]);
        match spec_list(c, ns, ty, pre) {
            Err(_) => {
                let k = choose|k: int| 0 <= k < pre.len() && !(#[trigger] spec_val(c, ns, ty, pre[k]) is Ok);
                assert(pre[k] == vs[k]);
                assert(!(spec_val(c, ns, ty, vs[k]) is Ok));
            },
            Ok((xs, es)) => {
                match spec_val(c, ns, ty, vs.last()) {
                    Err(_) => {
                        assert(!(spec_val(c, ns, ty, vs[n]) is Ok));
                    },
                    Ok((x, es2)) => {
                        let ys = xs.push(x);
                        assert(spec_list(c, ns, ty, vs) == Ok::<(Seq<CVal>, Seq<EntV>), ReqErr>((ys, es + es2)));
                        assert forall|k: int| 0 <= k < vs.len() implies (#[trigger] spec_val(c, ns, ty, vs[k]) matches Ok((y, _)) && y == ys[k]) by {
                            if k < n {
                                assert(pre[k] == vs[k]);
                                assert(spec_val(c, ns, ty, pre[k]) matches Ok((y, _)) && y == xs[k]);
                                assert(ys[k] == xs[k]);
                            } else {
                                assert(k == n);
                                assert(ys[k] == x);
                            }
                        }
                    },
                }
            },
        }
    }
}

/// The fields of a tuple each become what they become alone: the `k`-th
/// field `projk` holds the value of the `k`-th element, of the type
/// `Projk` read in the tuple's namespace; the tuple fails exactly when one
/// of its fields does.
pub proof fn lemma_tuple_fields(c: ReqCx, sub: Seq<Seq<char>>, vs: Seq<McpValue>)
    ensures
        (spec_tuple(c, sub, vs) is Ok) <==> (forall|k: int|
            0 <= k < vs.len() ==> (#[trigger] spec_val(c, Some(sub), "Proj"@ + decimal(k as nat), vs[k])) is Ok),
        spec_tuple(c, sub, vs) matches Ok((ps, _)) ==> ps.len() == vs.len() && forall|k: int|
            0 <= k < vs.len() ==> (#[trigger] spec_val(c, Some(sub), "Proj"@ + decimal(k as nat), vs[k]) matches Ok((x, _))
                && ps[k] == ("proj"@ + decimal(k as nat), x)),
    decreases vs.len(),
{
    if vs.len() > 0 {
        let pre = vs.drop_last();
        let n = vs.len() - 1;
        lemma_tuple_fields(c, sub, pre);
        assert forall|k: int| 0 <= k < pre.len() implies #[trigger] pre[k] == vs[k] by {}
        assert(vs.last() == vs[n]);
        match spec_tuple(c, sub, pre) {
            Err(_) => {
                let k = choose|k: int| 0 <= k < pre.len() && !(#[trigger] spec_val(c, Some(sub), "Proj"@ + decimal(k as nat), pre[k]) is Ok);
                assert(pre[k] == vs[k]);
                assert(!(spec_val(c, Some(sub), "Proj"@ + decimal(k as nat), vs[k]) is Ok));
            },
            Ok((ps, es)) => {
                match spec_val(c, Some(sub), "Proj"@ + decimal(n as nat), vs.last()) {
                    Err(_) => {
                        assert(!(spec_val(c, Some(sub), "Proj"@ + decimal(n as nat), vs[n]) is Ok));
                    },
                    Ok((x, es2)) => {
                        let qs = ps.push(("proj"@ + decimal(n as nat), x));
                        assert(spec_tuple(c, sub, vs) == Ok::<(Seq<(Seq<char>, CVal)>, Seq<EntV>), ReqErr>((qs, es + es2)));
                        assert forall|k: int| 0 <= k < vs.len() implies (#[trigger] spec_val(c, Some(sub), "Proj"@ + decimal(k as nat), vs[k]) matches Ok((y, _))
                            && qs[k] == ("proj"@ + decimal(k as nat), y)) by {
                            if k < n {
                                assert(pre[k] == vs[k]);
                                assert(spec_val(c, Some(sub), "Proj"@ + decimal(k as nat), pre[k]) matches Ok((y, _)) && ps[k] == ("proj"@ + decimal(k as nat), y));
                                assert(qs[k] == ps[k]);
                            } else {
                                assert(k == n);
                            }
                        }
                    },
                }
            },
        }
    }
}

/// The properties of an object each become what they become alone: the
/// `k`-th field is named after the `k`-th property and holds its value,
/// of the type named after it read in the object's namespace; the object
/// fails exactly when one of its properties does.
pub proof fn lemma_prop_fields(c: ReqCx, sub: Seq<Seq<char>>, ps: Seq<(String, McpValue)>)
    ensures
        (spec_props(c, sub, ps) is Ok) <==> (forall|k: int|
            0 <= k < ps.len() ==> (#[trigger] spec_val(c, Some(sub), ps[k].0@, ps[k].1)) is Ok),
        spec_props(c, sub, ps) matches Ok((qs, _)) ==> qs.len() == ps.len() && forall|k: int|
            0 <= k < ps.len() ==> (#[trigger] spec_val(c, Some(sub), ps[k].0@, ps[k].1) matches Ok((x, _))
                && qs[k] == (ps[k].0@, x)),
    decreases ps.len(),
{
    if ps.len() > 0 {
        let pre = ps.drop_last();
        let n = ps.len() - 1;
        lemma_prop_fields(c, sub, pre);
        assert forall|k: int| 0 <= k < pre.len() implies #[trigger] pre[k] == ps[k] by {}
        assert(ps.last() == ps[n]);
        match spec_props(c, sub, pre) {
            Err(_) => {
                let k = choose|k: int| 0 <= k < pre.len() && !(#[trigger] spec_val(c, Some(sub), pre[k].0@, pre[k].1) is Ok);
                assert(pre[k] == ps[k]);
                assert(!(spec_val(c, Some(sub), ps[k].0@, ps[k].1) is Ok));
            },
            Ok((qs, es)) => {
                match spec_val(c, Some(sub), ps.last().0@, ps.last().1) {
                    Err(_) => {
                        assert(!(spec_val(c, Some(sub), ps[n].0@, ps[n].1) is Ok));
                    },
                    Ok((x, es2)) => {
                        let rs = qs.push((ps.last().0@, x));
                        assert(spec_props(c, sub, ps) == Ok::<(Seq<(Seq<char>, CVal)>, Seq<EntV>), ReqErr>((rs, es + es2)));
                        assert forall|k: int| 0 <= k < ps.len() implies (#[trigger] spec_val(c, Some(sub), ps[k].0@, ps[k].1) matches Ok((y, _))
                            && rs[k] == (ps[k].0@, y)) by {
                            if k < n {
                                assert(pre[k] == ps[k]);
                                assert(spec_val(c, Some(sub), pre[k].0@, pre[k].1) matches Ok((y, _)) && qs[k] == (pre[k].0@, y));
                                assert(rs[k] == qs[k]);
                            } else {
                                assert(k == n);
                            }
                        }
                    },
                }
            },
        }
    }
}

} // verus!
