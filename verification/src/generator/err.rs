//! What the schema generator reports when it cannot generate a schema.

use vstd::prelude::*;
use vstd::string::StringExecFns;

verus! {

/// A type of the tool descriptions has the name of a type of the schema
/// stub.
#[derive(Clone, Debug)]
pub struct ConflictingSchemaNameError {
    pub name: String,
}

/// A `$ref` type has no definition in the tool or server description.
#[derive(Clone, Debug)]
pub struct UndefinedReferenceType {
    pub name: String,
    pub namespace: String,
}

/// An enum type has no variants.
#[derive(Clone, Debug)]
pub struct EmptyEnum {
    pub name: String,
}

/// Why schema generation failed. Errors that Cedar reports are kept as
/// their messages.
#[derive(Clone, Debug)]
pub enum SchemaGeneratorError {
    /// The schema stub does not have exactly one namespace.
    WrongNumberOfNamespaces,
    /// The schema stub uses the global (unnamed) namespace.
    GlobalNamespaceUsed,
    /// The schema stub marks no entity type as an MCP principal.
    NoPrincipalTypes,
    /// The schema stub marks no entity type as an MCP resource.
    NoResourceTypes,
    /// A name of the tool descriptions is reserved by Cedar.
    ReservedName(String),
    /// A common type name of the tool descriptions is reserved by Cedar.
    ReservedCommonTypeName(String),
    /// A type name conflicts with one of the schema stub.
    ConflictingSchemaNameError(ConflictingSchemaNameError),
    /// A `$ref` type has no definition.
    UndefinedReferenceType(UndefinedReferenceType),
    /// An enum type has no variants.
    EmptyEnumChoice(EmptyEnum),
    /// The schema stub text does not parse; Cedar's message.
    SchemaParseError(String),
    /// The generated schema does not resolve.
    SchemaResolutionError(String),
    /// Server descriptions cannot be merged.
    ServerDescriptionMerge,
}

/// The message of a schema generation error.
pub open spec fn generator_error_message(e: SchemaGeneratorError) -> Seq<char> {
    match e {
        SchemaGeneratorError::WrongNumberOfNamespaces => "Expected schema with a single namespace"@,
        SchemaGeneratorError::GlobalNamespaceUsed => "Input Schema's should not use global namespace."@,
        SchemaGeneratorError::NoPrincipalTypes => "No MCP Principal Entity types specified."@,
        SchemaGeneratorError::NoResourceTypes => "No MCP Resource Entity types specified."@,
        SchemaGeneratorError::ReservedName(m) => m@,
        SchemaGeneratorError::ReservedCommonTypeName(m) => m@,
        SchemaGeneratorError::ConflictingSchemaNameError(_) =>
            "Conflicting type definitions between MCP Tool Description and input Cedar Schema Stub File."@,
        SchemaGeneratorError::UndefinedReferenceType(_) => "Undefined Reference Type."@,
        SchemaGeneratorError::EmptyEnumChoice(e) => "Empty Enum Type: "@ + e.name@ + "."@,
        SchemaGeneratorError::SchemaParseError(m) => "Failed to parse Cedar schema: "@ + m@,
        SchemaGeneratorError::SchemaResolutionError(m) => m@,
        SchemaGeneratorError::ServerDescriptionMerge => "Server Descriptions cannot be merged."@,
    }
}

/// The help text of a schema generation error, where it has one.
pub open spec fn generator_error_help(e: SchemaGeneratorError) -> Option<Seq<char>> {
    match e {
        SchemaGeneratorError::WrongNumberOfNamespaces => Some(
            "Input Cedar Schema stub should contain exactly 1 namespace."@,
        ),
        SchemaGeneratorError::GlobalNamespaceUsed => Some(
            "Input Cedar Schema stub should not use the global namespace."@,
        ),
        SchemaGeneratorError::NoPrincipalTypes => Some(
            "Input Cedar Schema stub should specify at least 1 Entity Type as an MCP Principal."@,
        ),
        SchemaGeneratorError::NoResourceTypes => Some(
            "Input Cedar Schema stub should specify at least 1 Entity Type as an MCP Resource."@,
        ),
        SchemaGeneratorError::ReservedName(_) => Some(
            "MCP Tool Description Schemas make use of reserved keyword."@,
        ),
        SchemaGeneratorError::ReservedCommonTypeName(_) => Some(
            "MCP Tool Description Schemas make use of reserved keyword."@,
        ),
        SchemaGeneratorError::ConflictingSchemaNameError(c) => Some(
            "MCP Tool Description's Schema makes use of a type name `"@ + c.name@
                + "` that conflicts with a type defined in the input Cedar Schema stub file."@,
        ),
        SchemaGeneratorError::UndefinedReferenceType(u) => Some(
            "`"@ + u.name@ + "` not found in `"@ + u.namespace@
                + "` (or any containing namespace). Ensure that every `$ref` type in input MCP Tool Description references a defined type definition."@,
        ),
        SchemaGeneratorError::EmptyEnumChoice(_) => Some(
            "Ensure MCP Description does not contain any enum types with empty array of variant names."@,
        ),
        SchemaGeneratorError::SchemaParseError(_) => None,
        SchemaGeneratorError::SchemaResolutionError(_) => None,
        SchemaGeneratorError::ServerDescriptionMerge => Some(
            "Server Descriptions cannot be merged. Consider pre-merging Server descriptions and using add_tools_from_serve_description API."@,
        ),
    }
}

impl SchemaGeneratorError {
    /// A type name of the tool descriptions conflicts with one of the
    /// schema stub.
    pub fn conflicting_name(name: String) -> (r: Self)
        ensures
            r == SchemaGeneratorError::ConflictingSchemaNameError(ConflictingSchemaNameError { name }),
    {
        SchemaGeneratorError::ConflictingSchemaNameError(ConflictingSchemaNameError { name })
    }

    /// The `$ref` type `name` has no definition in `namespace`.
    pub fn undefined_ref(name: String, namespace: String) -> (r: Self)
        ensures
            r == SchemaGeneratorError::UndefinedReferenceType(
                UndefinedReferenceType { name, namespace },
            ),
    {
        SchemaGeneratorError::UndefinedReferenceType(UndefinedReferenceType { name, namespace })
    }

    /// The enum type `name` has no variants.
    pub fn empty_enum_choice(name: String) -> (r: Self)
        ensures
            r == SchemaGeneratorError::EmptyEnumChoice(EmptyEnum { name }),
    {
        SchemaGeneratorError::EmptyEnumChoice(EmptyEnum { name })
    }

    /// The message of the error.
    pub fn to_string(&self) -> (r: String)
        ensures
            r@ == generator_error_message(*self),
    {
        match self {
            SchemaGeneratorError::WrongNumberOfNamespaces => "Expected schema with a single namespace".to_string(),
            SchemaGeneratorError::GlobalNamespaceUsed => "Input Schema's should not use global namespace.".to_string(),
            SchemaGeneratorError::NoPrincipalTypes => "No MCP Principal Entity types specified.".to_string(),
            SchemaGeneratorError::NoResourceTypes => "No MCP Resource Entity types specified.".to_string(),
            SchemaGeneratorError::ReservedName(m) => m.clone(),
            SchemaGeneratorError::ReservedCommonTypeName(m) => m.clone(),
            SchemaGeneratorError::ConflictingSchemaNameError(_) =>
                "Conflicting type definitions between MCP Tool Description and input Cedar Schema Stub File.".to_string(),
            SchemaGeneratorError::UndefinedReferenceType(_) => "Undefined Reference Type.".to_string(),
            SchemaGeneratorError::EmptyEnumChoice(e) => {
                let mut s = "Empty Enum Type: ".to_string();
                s.append(e.name.as_str());
                s.append(".");
                s
            },
            SchemaGeneratorError::SchemaParseError(m) => {
                let mut s = "Failed to parse Cedar schema: ".to_string();
                s.append(m.as_str());
                s
            },
            SchemaGeneratorError::SchemaResolutionError(m) => m.clone(),
            SchemaGeneratorError::ServerDescriptionMerge => "Server Descriptions cannot be merged.".to_string(),
        }
    }

    /// The help text of the error, where it has one.
    pub fn help(&self) -> (r: Option<String>)
        ensures
            match generator_error_help(*self) {
                Some(h) => r matches Some(s) && s@ == h,
                None => r is None,
            },
    {
        match self {
            SchemaGeneratorError::WrongNumberOfNamespaces => Some(
                "Input Cedar Schema stub should contain exactly 1 namespace.".to_string(),
            ),
            SchemaGeneratorError::GlobalNamespaceUsed => Some(
                "Input Cedar Schema stub should not use the global namespace.".to_string(),
            ),
            SchemaGeneratorError::NoPrincipalTypes => Some(
                "Input Cedar Schema stub should specify at least 1 Entity Type as an MCP Principal.".to_string(),
            ),
            SchemaGeneratorError::NoResourceTypes => Some(
                "Input Cedar Schema stub should specify at least 1 Entity Type as an MCP Resource.".to_string(),
            ),
            SchemaGeneratorError::ReservedName(_) => Some(
                "MCP Tool Description Schemas make use of reserved keyword.".to_string(),
            ),
            SchemaGeneratorError::ReservedCommonTypeName(_) => Some(
                "MCP Tool Description Schemas make use of reserved keyword.".to_string(),
            ),
            SchemaGeneratorError::ConflictingSchemaNameError(c) => {
                let mut s = "MCP Tool Description's Schema makes use of a type name `".to_string();
                s.append(c.name.as_str());
                s.append("` that conflicts with a type defined in the input Cedar Schema stub file.");
                Some(s)
            },
            SchemaGeneratorError::UndefinedReferenceType(u) => {
                let mut s = "`".to_string();
                s.append(u.name.as_str());
                s.append("` not found in `");
                s.append(u.namespace.as_str());
                s.append("` (or any containing namespace). Ensure that every `$ref` type in input MCP Tool Description references a defined type definition.");
                Some(s)
            },
            SchemaGeneratorError::EmptyEnumChoice(_) => Some(
                "Ensure MCP Description does not contain any enum types with empty array of variant names.".to_string(),
            ),
            SchemaGeneratorError::SchemaParseError(_) => None,
            SchemaGeneratorError::SchemaResolutionError(_) => None,
            SchemaGeneratorError::ServerDescriptionMerge => Some(
                "Server Descriptions cannot be merged. Consider pre-merging Server descriptions and using add_tools_from_serve_description API.".to_string(),
            ),
        }
    }
}

} // verus!
