//! The part of a Cedar schema that the generator writes: the types of
//! attributes and declarations it adds, and the steps by which it adds
//! them to a schema.

use crate::generator::dedup::ns_view;
use crate::generator::err::SchemaGeneratorError;
use crate::text::strings_of;
use vstd::prelude::*;

verus! {

/// A Cedar type as the generator writes it. Names are paths of
/// identifiers, outermost first.
#[derive(Debug)]
pub enum CType {
    /// A reference to an entity type or a common type.
    EntityOrCommon(Vec<String>),
    /// A reference to an entity type.
    Entity(Vec<String>),
    /// A reference to a common type.
    CommonRef(Vec<String>),
    /// A set of elements of a type.
    SetOf(Box<CType>),
    /// A record: its attributes in name order, each with its type and
    /// whether it is required; no other attributes.
    Record(Vec<(String, CType, bool)>),
}

/// The content of a Cedar type.
pub enum CTypeV {
    EntityOrCommon(Seq<Seq<char>>),
    Entity(Seq<Seq<char>>),
    CommonRef(Seq<Seq<char>>),
    SetOf(Box<CTypeV>),
    Record(Seq<(Seq<char>, (CTypeV, bool))>),
}

/// The content of a Cedar type.
pub open spec fn ctype_view(t: CType) -> CTypeV
    decreases t,
{
    match t {
        CType::EntityOrCommon(n) => CTypeV::EntityOrCommon(strings_of(n@)),
        CType::Entity(n) => CTypeV::Entity(strings_of(n@)),
        CType::CommonRef(n) => CTypeV::CommonRef(strings_of(n@)),
        CType::SetOf(e) => CTypeV::SetOf(Box::new(ctype_view(*e))),
        CType::Record(attrs) => CTypeV::Record(attrs_view(attrs@)),
    }
}

/// The content of the attributes of a record.
pub open spec fn attrs_view(attrs: Seq<(String, CType, bool)>) -> Seq<(Seq<char>, (CTypeV, bool))>
    decreases attrs,
{
    if attrs.len() == 0 {
        Seq::empty()
    } else {
        attrs_view(attrs.drop_last()).push(
            (attrs.last().0@, (ctype_view(attrs.last().1), attrs.last().2)),
        )
    }
}

pub proof fn lemma_attrs_view_push(s: Seq<(String, CType, bool)>, x: (String, CType, bool))
    ensures
        attrs_view(s.push(x)) == attrs_view(s).push((x.0@, (ctype_view(x.1), x.2))),
{
    assert(s.push(x).drop_last() =~= s);
}

/// The content of the attributes, one by one.
pub proof fn lemma_attrs_view_index(s: Seq<(String, CType, bool)>)
    ensures
        attrs_view(s).len() == s.len(),
        forall|j: int| 0 <= j < s.len() ==> #[trigger] attrs_view(s)[j] == (s[j].0@, (ctype_view(s[j].1), s[j].2)),
    decreases s.len(),
{
    if s.len() > 0 {
        lemma_attrs_view_index(s.drop_last());
        assert forall|j: int| 0 <= j < s.len() implies #[trigger] attrs_view(s)[j] == (s[j].0@, (ctype_view(s[j].1), s[j].2)) by {
            if j < s.len() - 1 {
                assert(s.drop_last()[j] == s[j]);
            }
        }
    }
}

/// An entity type as the generator declares it.
#[derive(Debug)]
pub enum EntityDecl {
    /// An enumerated entity type with its choices.
    Enum(Vec<String>),
    /// An entity type with the attributes of a record and, if entities have
    /// tags, their type.
    Record(Vec<(String, CType, bool)>, Option<CType>),
    /// An entity type without attributes.
    Opaque,
}

/// The content of an entity type declaration.
pub enum EntityDeclV {
    Enum(Seq<Seq<char>>),
    Record(Seq<(Seq<char>, (CTypeV, bool))>, Option<CTypeV>),
    Opaque,
}

pub open spec fn entity_decl_view(d: EntityDecl) -> EntityDeclV {
    match d {
        EntityDecl::Enum(cs) => EntityDeclV::Enum(strings_of(cs@)),
        EntityDecl::Record(attrs, tags) => EntityDeclV::Record(
            attrs_view(attrs@),
            match tags {
                Some(t) => Some(ctype_view(t)),
                None => None,
            },
        ),
        EntityDecl::Opaque => EntityDeclV::Opaque,
    }
}

/// An action as the generator declares it.
#[derive(Debug)]
pub struct ActionDecl {
    /// The principal entity types.
    pub principals: Vec<String>,
    /// The resource entity types.
    pub resources: Vec<String>,
    /// The attributes of the context, in name order.
    pub context: Vec<(String, CType, bool)>,
    /// The parent actions, if any.
    pub member_of: Option<Vec<String>>,
}

/// The content of an action declaration.
pub struct ActionDeclV {
    pub principals: Seq<Seq<char>>,
    pub resources: Seq<Seq<char>>,
    pub context: Seq<(Seq<char>, (CTypeV, bool))>,
    pub member_of: Option<Seq<Seq<char>>>,
}

pub open spec fn action_decl_view(a: ActionDecl) -> ActionDeclV {
    ActionDeclV {
        principals: strings_of(a.principals@),
        resources: strings_of(a.resources@),
        context: attrs_view(a.context@),
        member_of: match a.member_of {
            Some(m) => Some(strings_of(m@)),
            None => None,
        },
    }
}

/// A step of building a schema.
#[derive(Debug)]
pub enum Op {
    /// Makes sure the namespace exists.
    AddNamespace(Option<Vec<String>>),
    /// Removes the namespace if it declares nothing.
    DropIfEmpty(Option<Vec<String>>),
    /// Declares a common type in a namespace; a type already declared under
    /// the name is an error when `error_if_exists` is set, and is kept
    /// otherwise.
    AddCommon { ns: Option<Vec<String>>, name: String, ty: CType, error_if_exists: bool },
    /// Declares an entity type in a namespace, in the same way.
    AddEntity { ns: Option<Vec<String>>, name: String, decl: EntityDecl, error_if_exists: bool },
    /// Declares an action in a namespace, replacing one of the same name.
    AddAction { ns: Option<Vec<String>>, name: String, action: ActionDecl },
}

/// The content of a step.
pub enum OpV {
    AddNamespace(Option<Seq<Seq<char>>>),
    DropIfEmpty(Option<Seq<Seq<char>>>),
    AddCommon(Option<Seq<Seq<char>>>, Seq<char>, CTypeV, bool),
    AddEntity(Option<Seq<Seq<char>>>, Seq<char>, EntityDeclV, bool),
    AddAction(Option<Seq<Seq<char>>>, Seq<char>, ActionDeclV),
}

pub open spec fn op_view(o: Op) -> OpV {
    match o {
        Op::AddNamespace(n) => OpV::AddNamespace(ns_view(n)),
        Op::DropIfEmpty(n) => OpV::DropIfEmpty(ns_view(n)),
        Op::AddCommon { ns, name, ty, error_if_exists } => OpV::AddCommon(
            ns_view(ns),
            name@,
            ctype_view(ty),
            error_if_exists,
        ),
        Op::AddEntity { ns, name, decl, error_if_exists } => OpV::AddEntity(
            ns_view(ns),
            name@,
            entity_decl_view(decl),
            error_if_exists,
        ),
        Op::AddAction { ns, name, action } => OpV::AddAction(ns_view(ns), name@, action_decl_view(action)),
    }
}

/// The contents of a list of steps.
pub open spec fn ops_view(s: Seq<Op>) -> Seq<OpV> {
    s.map_values(|o: Op| op_view(o))
}

/// Why generation fails, as texts.
pub enum GenErr {
    WrongNumberOfNamespaces,
    GlobalNamespaceUsed,
    NoPrincipalTypes,
    NoResourceTypes,
    ReservedName(Seq<char>),
    ReservedCommonTypeName(Seq<char>),
    Conflict(Seq<char>),
    UndefinedRef(Seq<char>, Seq<char>),
    EmptyEnum(Seq<char>),
    Resolution(Seq<char>),
    StubParse(Seq<char>),
    Merge,
}

pub open spec fn err_view(e: SchemaGeneratorError) -> GenErr {
    match e {
        SchemaGeneratorError::WrongNumberOfNamespaces => GenErr::WrongNumberOfNamespaces,
        SchemaGeneratorError::GlobalNamespaceUsed => GenErr::GlobalNamespaceUsed,
        SchemaGeneratorError::NoPrincipalTypes => GenErr::NoPrincipalTypes,
        SchemaGeneratorError::NoResourceTypes => GenErr::NoResourceTypes,
        SchemaGeneratorError::ReservedName(m) => GenErr::ReservedName(m@),
        SchemaGeneratorError::ReservedCommonTypeName(m) => GenErr::ReservedCommonTypeName(m@),
        SchemaGeneratorError::ConflictingSchemaNameError(c) => GenErr::Conflict(c.name@),
        SchemaGeneratorError::UndefinedReferenceType(u) => GenErr::UndefinedRef(u.name@, u.namespace@),
        SchemaGeneratorError::EmptyEnumChoice(e) => GenErr::EmptyEnum(e.name@),
        SchemaGeneratorError::SchemaResolutionError(m) => GenErr::Resolution(m@),
        SchemaGeneratorError::SchemaParseError(m) => GenErr::StubParse(m@),
        SchemaGeneratorError::ServerDescriptionMerge => GenErr::Merge,
    }
}

} // verus!
