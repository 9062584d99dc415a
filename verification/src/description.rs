//! The model of MCP tool descriptions: the tools a server offers, the
//! parameters they take and return, and the JSON-Schema types of those
//! parameters.

use crate::loc::utf8_bytes;
use vstd::prelude::*;

verus! {

/// The type a `Property` can take.
#[derive(Debug, Hash)]
pub enum PropertyType {
    Bool,
    Integer,
    Float,
    Number,
    String,
    Decimal,
    Datetime,
    Duration,
    IpAddr,
    Null,
    Enum { variants: Vec<String> },
    Array { element_ty: Box<PropertyType> },
    Tuple { types: Vec<PropertyType> },
    Union { types: Vec<PropertyType> },
    Object { properties: Vec<Property>, additional_properties: Option<Box<PropertyType>> },
    Ref { name: String },
    /// A type that the description leaves unknown.
    Unknown,
}

/// An input or output property: a named, typed parameter.
#[derive(Debug, Hash)]
pub struct Property {
    pub name: String,
    pub description: Option<String>,
    pub required: bool,
    pub prop_type: PropertyType,
}

/// A named type definition used by properties.
#[derive(Debug)]
pub struct PropertyTypeDef {
    pub name: String,
    pub prop_type: PropertyType,
    pub description: Option<String>,
}

/// The input (or output) properties of a tool, with the type definitions
/// local to them.
#[derive(Debug)]
pub struct Parameters {
    pub properties: Vec<Property>,
    pub type_defs: Vec<PropertyTypeDef>,
}

/// The description of one MCP tool.
#[derive(Debug)]
pub struct ToolDescription {
    pub name: String,
    pub description: Option<String>,
    pub inputs: Parameters,
    pub outputs: Parameters,
    pub type_defs: Vec<PropertyTypeDef>,
}

/// The tools offered by an MCP server, with the type definitions they share.
#[derive(Debug)]
pub struct ServerDescription {
    pub tools: Vec<ToolDescription>,
    pub type_defs: Vec<PropertyTypeDef>,
}

// ---------------------------------------------------------------------------
// The mathematical model. Names and texts are kept as their UTF-8 bytes.
// ---------------------------------------------------------------------------
pub enum PType {
    Bool,
    Integer,
    Float,
    Number,
    String,
    Decimal,
    Datetime,
    Duration,
    IpAddr,
    Null,
    Enum(Seq<Seq<u8>>),
    Array(Box<PType>),
    Tuple(Seq<PType>),
    Union(Seq<PType>),
    Object(Seq<PropSpec>, Option<Box<PType>>),
    Ref(Seq<u8>),
    Unknown,
}

pub struct PropSpec {
    pub name: Seq<u8>,
    pub description: Option<Seq<u8>>,
    pub required: bool,
    pub ptype: PType,
}

pub struct TypeDefSpec {
    pub name: Seq<u8>,
    pub ptype: PType,
    pub description: Option<Seq<u8>>,
}

pub struct ParamsSpec {
    pub properties: Seq<PropSpec>,
    pub type_defs: Seq<TypeDefSpec>,
}

pub struct ToolSpec {
    pub name: Seq<u8>,
    pub description: Option<Seq<u8>>,
    pub inputs: ParamsSpec,
    pub outputs: ParamsSpec,
    pub type_defs: Seq<TypeDefSpec>,
}

pub struct ServerSpec {
    pub tools: Seq<ToolSpec>,
    pub type_defs: Seq<TypeDefSpec>,
}

pub open spec fn text_bytes(s: String) -> Seq<u8> {
    utf8_bytes(s@)
}

pub open spec fn opt_text_bytes(s: Option<String>) -> Option<Seq<u8>> {
    match s {
        Some(t) => Some(text_bytes(t)),
        None => None,
    }
}

pub open spec fn texts_bytes(s: Seq<String>) -> Seq<Seq<u8>> {
    s.map_values(|t: String| text_bytes(t))
}

pub open spec fn ptype_view(t: PropertyType) -> PType
    decreases t,
{
    match t {
        PropertyType::Bool => PType::Bool,
        PropertyType::Integer => PType::Integer,
        PropertyType::Float => PType::Float,
        PropertyType::Number => PType::Number,
        PropertyType::String => PType::String,
        PropertyType::Decimal => PType::Decimal,
        PropertyType::Datetime => PType::Datetime,
        PropertyType::Duration => PType::Duration,
        PropertyType::IpAddr => PType::IpAddr,
        PropertyType::Null => PType::Null,
        PropertyType::Enum { variants } => PType::Enum(texts_bytes(variants@)),
        PropertyType::Array { element_ty } => PType::Array(Box::new(ptype_view(*element_ty))),
        PropertyType::Tuple { types } => PType::Tuple(ptypes_view(types@)),
        PropertyType::Union { types } => PType::Union(ptypes_view(types@)),
        PropertyType::Object { properties, additional_properties } => PType::Object(
            props_view(properties@),
            match additional_properties {
                Some(a) => Some(Box::new(ptype_view(*a))),
                None => None,
            },
        ),
        PropertyType::Ref { name } => PType::Ref(text_bytes(name)),
        PropertyType::Unknown => PType::Unknown,
    }
}

pub open spec fn ptypes_view(s: Seq<PropertyType>) -> Seq<PType>
    decreases s,
{
    if s.len() == 0 {
        Seq::empty()
    } else {
        ptypes_view(s.drop_last()).push(ptype_view(s.last()))
    }
}

pub open spec fn prop_view(p: Property) -> PropSpec
    decreases p,
{
    PropSpec {
        name: text_bytes(p.name),
        description: opt_text_bytes(p.description),
        required: p.required,
        ptype: ptype_view(p.prop_type),
    }
}

pub open spec fn props_view(s: Seq<Property>) -> Seq<PropSpec>
    decreases s,
{
    if s.len() == 0 {
        Seq::empty()
    } else {
        props_view(s.drop_last()).push(prop_view(s.last()))
    }
}

pub open spec fn typedef_view(d: PropertyTypeDef) -> TypeDefSpec {
    TypeDefSpec {
        name: text_bytes(d.name),
        ptype: ptype_view(d.prop_type),
        description: opt_text_bytes(d.description),
    }
}

pub open spec fn typedefs_view(s: Seq<PropertyTypeDef>) -> Seq<TypeDefSpec> {
    s.map_values(|d: PropertyTypeDef| typedef_view(d))
}

pub open spec fn params_view(p: Parameters) -> ParamsSpec {
    ParamsSpec { properties: props_view(p.properties@), type_defs: typedefs_view(p.type_defs@) }
}

pub open spec fn tool_view(t: ToolDescription) -> ToolSpec {
    ToolSpec {
        name: text_bytes(t.name),
        description: opt_text_bytes(t.description),
        inputs: params_view(t.inputs),
        outputs: params_view(t.outputs),
        type_defs: typedefs_view(t.type_defs@),
    }
}

pub open spec fn tools_view(s: Seq<ToolDescription>) -> Seq<ToolSpec> {
    s.map_values(|t: ToolDescription| tool_view(t))
}

pub open spec fn server_view(s: ServerDescription) -> ServerSpec {
    ServerSpec { tools: tools_view(s.tools@), type_defs: typedefs_view(s.type_defs@) }
}

pub proof fn lemma_ptypes_view_push(s: Seq<PropertyType>, x: PropertyType)
    ensures
        ptypes_view(s.push(x)) == ptypes_view(s).push(ptype_view(x)),
{
    assert(s.push(x).drop_last() =~= s);
}

pub proof fn lemma_props_view_push(s: Seq<Property>, x: Property)
    ensures
        props_view(s.push(x)) == props_view(s).push(prop_view(x)),
{
    assert(s.push(x).drop_last() =~= s);
}

pub proof fn lemma_ptypes_view_empty(s: Seq<PropertyType>)
    requires
        s.len() == 0,
    ensures
        ptypes_view(s) == Seq::<PType>::empty(),
{
}

pub proof fn lemma_props_view_empty(s: Seq<Property>)
    requires
        s.len() == 0,
    ensures
        props_view(s) == Seq::<PropSpec>::empty(),
{
}

impl View for PropertyType {
    type V = PType;

    open spec fn view(&self) -> PType {
        ptype_view(*self)
    }
}

impl View for Property {
    type V = PropSpec;

    open spec fn view(&self) -> PropSpec {
        prop_view(*self)
    }
}

impl View for PropertyTypeDef {
    type V = TypeDefSpec;

    open spec fn view(&self) -> TypeDefSpec {
        typedef_view(*self)
    }
}

impl View for Parameters {
    type V = ParamsSpec;

    open spec fn view(&self) -> ParamsSpec {
        params_view(*self)
    }
}

impl View for ToolDescription {
    type V = ToolSpec;

    open spec fn view(&self) -> ToolSpec {
        tool_view(*self)
    }
}

impl View for ServerDescription {
    type V = ServerSpec;

    open spec fn view(&self) -> ServerSpec {
        server_view(*self)
    }
}

impl Property {
    /// Create a new `Property`.
    pub fn new(
        name: String,
        required: bool,
        prop_type: PropertyType,
        description: Option<String>,
    ) -> (r: Self)
        ensures
            r.name == name,
            r.required == required,
            r.prop_type == prop_type,
            r.description == description,
    {
        Property { name, description, required, prop_type }
    }

    /// The name of the property.
    pub fn name(&self) -> (r: &str)
        ensures
            r@ == self.name@,
    {
        self.name.as_str()
    }

    /// Whether the property is required.
    pub fn is_required(&self) -> (r: bool)
        ensures
            r == self.required,
    {
        self.required
    }

    /// The description of the property, if it has one.
    pub fn description(&self) -> (r: Option<&str>)
        ensures
            match self.description {
                Some(d) => r matches Some(s) && s@ == d@,
                None => r is None,
            },
    {
        match &self.description {
            Some(d) => Some(d.as_str()),
            None => None,
        }
    }

    /// The type of the property.
    pub fn property_type(&self) -> (r: &PropertyType)
        ensures
            *r == self.prop_type,
    {
        &self.prop_type
    }
}

impl PropertyTypeDef {
    /// Create a new type definition from its components.
    pub fn new(name: String, prop_type: PropertyType, description: Option<String>) -> (r: Self)
        ensures
            r.name == name,
            r.prop_type == prop_type,
            r.description == description,
    {
        PropertyTypeDef { name, prop_type, description }
    }

    /// The name of the defined type.
    pub fn name(&self) -> (r: &str)
        ensures
            r@ == self.name@,
    {
        self.name.as_str()
    }

    /// The definition of the type.
    pub fn property_type(&self) -> (r: &PropertyType)
        ensures
            *r == self.prop_type,
    {
        &self.prop_type
    }

    /// The description of the type, if it has one.
    pub fn description(&self) -> (r: Option<&str>)
        ensures
            match self.description {
                Some(d) => r matches Some(s) && s@ == d@,
                None => r is None,
            },
    {
        match &self.description {
            Some(d) => Some(d.as_str()),
            None => None,
        }
    }
}

impl Parameters {
    /// Create a new collection of parameters.
    pub fn new(properties: Vec<Property>, type_defs: Vec<PropertyTypeDef>) -> (r: Self)
        ensures
            r.properties == properties,
            r.type_defs == type_defs,
    {
        Parameters { properties, type_defs }
    }

    /// The properties, in the order they were given.
    pub fn properties(&self) -> (r: &Vec<Property>)
        ensures
            *r == self.properties,
    {
        &self.properties
    }

    /// The type definitions local to these parameters.
    pub fn type_definitions(&self) -> (r: &Vec<PropertyTypeDef>)
        ensures
            *r == self.type_defs,
    {
        &self.type_defs
    }
}

impl ToolDescription {
    /// Construct a tool description from its components.
    pub fn new(
        name: String,
        inputs: Parameters,
        outputs: Parameters,
        type_defs: Vec<PropertyTypeDef>,
        description: Option<String>,
    ) -> (r: Self)
        ensures
            r.name == name,
            r.inputs == inputs,
            r.outputs == outputs,
            r.type_defs == type_defs,
            r.description == description,
    {
        ToolDescription { name, description, inputs, outputs, type_defs }
    }

    /// The name of the tool.
    pub fn name(&self) -> (r: &str)
        ensures
            r@ == self.name@,
    {
        self.name.as_str()
    }

    /// The description of the tool, if it has one.
    pub fn description(&self) -> (r: Option<&str>)
        ensures
            match self.description {
                Some(d) => r matches Some(s) && s@ == d@,
                None => r is None,
            },
    {
        match &self.description {
            Some(d) => Some(d.as_str()),
            None => None,
        }
    }

    /// The input parameters of the tool.
    pub fn inputs(&self) -> (r: &Parameters)
        ensures
            *r == self.inputs,
    {
        &self.inputs
    }

    /// The output parameters of the tool.
    pub fn outputs(&self) -> (r: &Parameters)
        ensures
            *r == self.outputs,
    {
        &self.outputs
    }

    /// The type definitions shared by the tool's inputs and outputs.
    pub fn type_definitions(&self) -> (r: &Vec<PropertyTypeDef>)
        ensures
            *r == self.type_defs,
    {
        &self.type_defs
    }
}

impl ServerDescription {
    /// Create a server description from its components.
    pub fn new(tools: Vec<ToolDescription>, type_defs: Vec<PropertyTypeDef>) -> (r: Self)
        ensures
            r.tools == tools,
            r.type_defs == type_defs,
    {
        ServerDescription { tools, type_defs }
    }

    /// The tool descriptions, in the order they were given.
    pub fn tool_descriptions(&self) -> (r: &Vec<ToolDescription>)
        ensures
            *r == self.tools,
    {
        &self.tools
    }

    /// The type definitions shared between tools.
    pub fn type_definitions(&self) -> (r: &Vec<PropertyTypeDef>)
        ensures
            *r == self.type_defs,
    {
        &self.type_defs
    }
}

pub proof fn lemma_ptypes_view_index(s: Seq<PropertyType>)
    ensures
        ptypes_view(s).len() == s.len(),
        forall|i: int| 0 <= i < s.len() ==> #[trigger] ptypes_view(s)[i] == ptype_view(s[i]),
    decreases s.len(),
{
    if s.len() > 0 {
        lemma_ptypes_view_index(s.drop_last());
    }
}

pub proof fn lemma_props_view_index(s: Seq<Property>)
    ensures
        props_view(s).len() == s.len(),
        forall|i: int| 0 <= i < s.len() ==> #[trigger] props_view(s)[i] == prop_view(s[i]),
    decreases s.len(),
{
    if s.len() > 0 {
        lemma_props_view_index(s.drop_last());
    }
}

/// Sequences of types with the same views, element by element, have the
/// same view.
pub proof fn lemma_ptypes_view_ext(a: Seq<PropertyType>, b: Seq<PropertyType>)
    requires
        a.len() == b.len(),
        forall|i: int| 0 <= i < a.len() ==> ptype_view(#[trigger] a[i]) == ptype_view(b[i]),
    ensures
        ptypes_view(a) == ptypes_view(b),
{
    lemma_ptypes_view_index(a);
    lemma_ptypes_view_index(b);
    assert(ptypes_view(a) =~= ptypes_view(b));
}

/// Sequences of properties with the same views, element by element, have
/// the same view.
pub proof fn lemma_props_view_ext(a: Seq<Property>, b: Seq<Property>)
    requires
        a.len() == b.len(),
        forall|i: int| 0 <= i < a.len() ==> prop_view(#[trigger] a[i]) == prop_view(b[i]),
    ensures
        props_view(a) == props_view(b),
{
    lemma_props_view_index(a);
    lemma_props_view_index(b);
    assert(props_view(a) =~= props_view(b));
}

/// A copy of an optional text.
fn copy_opt_string(s: &Option<String>) -> (r: Option<String>)
    ensures
        r == *s,
{
    match s {
        Some(t) => Some(t.clone()),
        None => None,
    }
}

impl PropertyType {
    /// A copy of the type.
    pub fn deep_copy(&self) -> (r: PropertyType)
        ensures
            r@ == self@,
        decreases *self,
    {
        match self {
            PropertyType::Bool => PropertyType::Bool,
            PropertyType::Integer => PropertyType::Integer,
            PropertyType::Float => PropertyType::Float,
            PropertyType::Number => PropertyType::Number,
            PropertyType::String => PropertyType::String,
            PropertyType::Decimal => PropertyType::Decimal,
            PropertyType::Datetime => PropertyType::Datetime,
            PropertyType::Duration => PropertyType::Duration,
            PropertyType::IpAddr => PropertyType::IpAddr,
            PropertyType::Null => PropertyType::Null,
            PropertyType::Enum { variants } => PropertyType::Enum { variants: variants.clone() },
            PropertyType::Array { element_ty } => PropertyType::Array {
                element_ty: Box::new((&**element_ty).deep_copy()),
            },
            PropertyType::Tuple { types } => PropertyType::Tuple { types: Self::copy_all(types) },
            PropertyType::Union { types } => PropertyType::Union { types: Self::copy_all(types) },
            PropertyType::Object { properties, additional_properties } => {
                let mut props: Vec<Property> = Vec::new();
                let mut i: usize = 0;
                assert forall|j: int|
                    0 <= j < properties@.len() implies decreases_to!(
                        *self => (#[trigger] properties@[j]).prop_type) by {
                    assert(decreases_to!(*self => *properties));
                    assert(decreases_to!(*properties => properties@));
                    assert(decreases_to!(properties@ => properties@[j]));
                    assert(decreases_to!(properties@[j] => properties@[j].prop_type));
                }
                while i < properties.len()
                    invariant
                        0 <= i <= properties@.len(),
                        forall|j: int|
                            0 <= j < properties@.len() ==> decreases_to!(
                                *self => (#[trigger] properties@[j]).prop_type),
                        props@.len() == i,
                        forall|j: int|
                            0 <= j < i ==> prop_view(#[trigger] props@[j]) == prop_view(
                                properties@[j],
                            ),
                    decreases properties@.len() - i,
                {
                    let p = &properties[i];
                    let c = Property {
                        name: p.name.clone(),
                        description: copy_opt_string(&p.description),
                        required: p.required,
                        prop_type: p.prop_type.deep_copy(),
                    };
                    props.push(c);
                    i = i + 1;
                }
                proof {
                    lemma_props_view_ext(props@, properties@);
                }
                let additional = match additional_properties {
                    Some(a) => Some(Box::new((&**a).deep_copy())),
                    None => None,
                };
                PropertyType::Object { properties: props, additional_properties: additional }
            },
            PropertyType::Ref { name } => PropertyType::Ref { name: name.clone() },
            PropertyType::Unknown => PropertyType::Unknown,
        }
    }

    /// Copies of the types.
    fn copy_all(types: &Vec<PropertyType>) -> (r: Vec<PropertyType>)
        ensures
            ptypes_view(r@) == ptypes_view(types@),
        decreases types,
    {
        let mut out: Vec<PropertyType> = Vec::new();
        let mut i: usize = 0;
        while i < types.len()
            invariant
                0 <= i <= types@.len(),
                out@.len() == i,
                forall|j: int| 0 <= j < i ==> ptype_view(#[trigger] out@[j]) == ptype_view(types@[j]),
            decreases types@.len() - i,
        {
            assert(decreases_to!(*types => types@[i as int]));
            out.push(types[i].deep_copy());
            i = i + 1;
        }
        proof {
            lemma_ptypes_view_ext(out@, types@);
        }
        out
    }
}

/// Whether two texts have the same UTF-8 bytes, where both are present.
fn same_opt_text(a: &Option<String>, b: &Option<String>) -> (r: bool)
    ensures
        r == (opt_text_bytes(*a) == opt_text_bytes(*b)),
{
    match (a, b) {
        (Some(x), Some(y)) => crate::json::same_text(x.as_str(), y.as_str()),
        (None, None) => true,
        _ => false,
    }
}

/// Whether two lists of texts have the same UTF-8 bytes, element by element.
fn same_texts(a: &Vec<String>, b: &Vec<String>) -> (r: bool)
    ensures
        r == (texts_bytes(a@) == texts_bytes(b@)),
{
    if a.len() != b.len() {
        return false;
    }
    let mut i: usize = 0;
    while i < a.len()
        invariant
            0 <= i <= a@.len(),
            a@.len() == b@.len(),
            forall|j: int| 0 <= j < i ==> text_bytes(#[trigger] a@[j]) == text_bytes(b@[j]),
        decreases a@.len() - i,
    {
        if !crate::json::same_text(a[i].as_str(), b[i].as_str()) {
            assert(texts_bytes(a@)[i as int] != texts_bytes(b@)[i as int]);
            return false;
        }
        i = i + 1;
    }
    assert(texts_bytes(a@) =~= texts_bytes(b@));
    true
}

impl PropertyType {
    /// Whether two types describe the same type.
    pub fn same_as(&self, other: &PropertyType) -> (r: bool)
        ensures
            r == (self@ == other@),
        decreases *self,
    {
        match (self, other) {
            (PropertyType::Bool, PropertyType::Bool) => true,
            (PropertyType::Integer, PropertyType::Integer) => true,
            (PropertyType::Float, PropertyType::Float) => true,
            (PropertyType::Number, PropertyType::Number) => true,
            (PropertyType::String, PropertyType::String) => true,
            (PropertyType::Decimal, PropertyType::Decimal) => true,
            (PropertyType::Datetime, PropertyType::Datetime) => true,
            (PropertyType::Duration, PropertyType::Duration) => true,
            (PropertyType::IpAddr, PropertyType::IpAddr) => true,
            (PropertyType::Null, PropertyType::Null) => true,
            (PropertyType::Unknown, PropertyType::Unknown) => true,
            (PropertyType::Enum { variants: a }, PropertyType::Enum { variants: b }) => same_texts(
                a,
                b,
            ),
            (PropertyType::Array { element_ty: a }, PropertyType::Array { element_ty: b }) => (&**a).same_as(
                &**b,
            ),
            (PropertyType::Tuple { types: a }, PropertyType::Tuple { types: b }) => Self::same_all(a, b),
            (PropertyType::Union { types: a }, PropertyType::Union { types: b }) => Self::same_all(a, b),
            (
                PropertyType::Object { properties: pa, additional_properties: aa },
                PropertyType::Object { properties: pb, additional_properties: ab },
            ) => {
                let same_additional = match (aa, ab) {
                    (Some(x), Some(y)) => (&**x).same_as(&**y),
                    (None, None) => true,
                    _ => false,
                };
                if !same_additional {
                    return false;
                }
                proof {
                    lemma_props_view_index(pa@);
                    lemma_props_view_index(pb@);
                }
                if pa.len() != pb.len() {
                    return false;
                }
                assert forall|j: int|
                    0 <= j < pa@.len() implies decreases_to!(
                        *self => (#[trigger] pa@[j]).prop_type) by {
                    assert(decreases_to!(*self => *pa));
                    assert(decreases_to!(*pa => pa@));
                    assert(decreases_to!(pa@ => pa@[j]));
                    assert(decreases_to!(pa@[j] => pa@[j].prop_type));
                }
                let mut i: usize = 0;
                while i < pa.len()
                    invariant
                        0 <= i <= pa@.len(),
                        pa@.len() == pb@.len(),
                        self@ is Object,
                        other@ is Object,
                        self@->Object_0 == props_view(pa@),
                        other@->Object_0 == props_view(pb@),
                        self@->Object_1 == other@->Object_1,
                        forall|j: int|
                            0 <= j < pa@.len() ==> decreases_to!(
                                *self => (#[trigger] pa@[j]).prop_type),
                        forall|j: int|
                            0 <= j < i ==> prop_view(#[trigger] pa@[j]) == prop_view(pb@[j]),
                    decreases pa@.len() - i,
                {
                    let x = &pa[i];
                    let y = &pb[i];
                    if !(crate::json::same_text(x.name.as_str(), y.name.as_str()) && same_opt_text(
                        &x.description,
                        &y.description,
                    ) && x.required == y.required && x.prop_type.same_as(&y.prop_type)) {
                        proof {
                            lemma_props_view_index(pa@);
                            lemma_props_view_index(pb@);
                            assert(props_view(pa@)[i as int] != props_view(pb@)[i as int]);
                        }
                        return false;
                    }
                    i = i + 1;
                }
                proof {
                    lemma_props_view_ext(pa@, pb@);
                }
                true
            },
            (PropertyType::Ref { name: a }, PropertyType::Ref { name: b }) => crate::json::same_text(
                a.as_str(),
                b.as_str(),
            ),
            _ => false,
        }
    }

    /// Whether two lists of types describe the same types, element by
    /// element.
    fn same_all(a: &Vec<PropertyType>, b: &Vec<PropertyType>) -> (r: bool)
        ensures
            r == (ptypes_view(a@) == ptypes_view(b@)),
        decreases a,
    {
        proof {
            lemma_ptypes_view_index(a@);
            lemma_ptypes_view_index(b@);
        }
        if a.len() != b.len() {
            return false;
        }
        let mut i: usize = 0;
        while i < a.len()
            invariant
                0 <= i <= a@.len(),
                a@.len() == b@.len(),
                forall|j: int| 0 <= j < i ==> ptype_view(#[trigger] a@[j]) == ptype_view(b@[j]),
            decreases a@.len() - i,
        {
            assert(decreases_to!(*a => a@[i as int]));
            if !a[i].same_as(&b[i]) {
                proof {
                    lemma_ptypes_view_index(a@);
                    lemma_ptypes_view_index(b@);
                    assert(ptypes_view(a@)[i as int] != ptypes_view(b@)[i as int]);
                }
                return false;
            }
            i = i + 1;
        }
        proof {
            lemma_ptypes_view_ext(a@, b@);
        }
        true
    }
}

} // verus!
