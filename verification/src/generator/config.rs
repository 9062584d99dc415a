//! How the schema generator functions.

use vstd::prelude::*;

verus! {

/// How the schema generator functions.
#[derive(Clone, Copy, Debug, PartialEq, Eq, Structural)]
pub struct SchemaGeneratorConfig {
    pub include_outputs: bool,
    pub objects_as_records: bool,
    pub erase_annotations: bool,
    pub flatten_namespaces: bool,
    pub numbers_as_decimal: bool,
    pub deduplicate_entity_types: bool,
}

impl SchemaGeneratorConfig {
    /// Sets `include_outputs` (default: false): when set, the context of the
    /// action generated for each tool holds both the tool's input and output
    /// parameters.
    pub fn include_outputs(self, val: bool) -> (r: Self)
        ensures
            r == (SchemaGeneratorConfig { include_outputs: val, ..self }),
    {
        SchemaGeneratorConfig { include_outputs: val, ..self }
    }

    /// Sets `objects_as_records` (default: false): when set, an object that
    /// allows no `additionalProperties` is encoded as a record type rather
    /// than an entity type.
    pub fn objects_as_records(self, val: bool) -> (r: Self)
        ensures
            r == (SchemaGeneratorConfig { objects_as_records: val, ..self }),
    {
        SchemaGeneratorConfig { objects_as_records: val, ..self }
    }

    /// Sets `erase_annotations` (default: true): when set, the
    /// `mcp_principal`, `mcp_resource`, `mcp_context` and `mcp_action`
    /// annotations are erased from the output schema.
    pub fn erase_annotations(self, val: bool) -> (r: Self)
        ensures
            r == (SchemaGeneratorConfig { erase_annotations: val, ..self }),
    {
        SchemaGeneratorConfig { erase_annotations: val, ..self }
    }

    /// Sets `flatten_namespaces` (default: false): when set, every name
    /// `Foo::Bar::Baz` becomes `Foo_Bar_Baz`, so the output has one
    /// namespace.
    pub fn flatten_namespaces(self, val: bool) -> (r: Self)
        ensures
            r == (SchemaGeneratorConfig { flatten_namespaces: val, ..self }),
    {
        SchemaGeneratorConfig { flatten_namespaces: val, ..self }
    }

    /// Sets `encode_numbers_as_decimal` (default: false): when set, every
    /// `"number"` or `"float"` parameter is encoded as a Cedar `decimal`.
    pub fn encode_numbers_as_decimal(self, val: bool) -> (r: Self)
        ensures
            r == (SchemaGeneratorConfig { numbers_as_decimal: val, ..self }),
    {
        SchemaGeneratorConfig { numbers_as_decimal: val, ..self }
    }

    /// Sets `deduplicate_entity_types` (default: false): when set, entity
    /// types defined alike by several tools become one entity type in their
    /// lowest common namespace.
    pub fn deduplicate_entity_types(self, val: bool) -> (r: Self)
        ensures
            r == (SchemaGeneratorConfig { deduplicate_entity_types: val, ..self }),
    {
        SchemaGeneratorConfig { deduplicate_entity_types: val, ..self }
    }
}

/// The default configuration: annotations erased, every other option off.
pub open spec fn default_generator_config() -> SchemaGeneratorConfig {
    SchemaGeneratorConfig {
        include_outputs: false,
        objects_as_records: false,
        erase_annotations: true,
        flatten_namespaces: false,
        numbers_as_decimal: false,
        deduplicate_entity_types: false,
    }
}

impl Default for SchemaGeneratorConfig {
    fn default() -> (r: Self)
        ensures
            r == default_generator_config(),
    {
        SchemaGeneratorConfig {
            include_outputs: false,
            objects_as_records: false,
            erase_annotations: true,
            flatten_namespaces: false,
            numbers_as_decimal: false,
            deduplicate_entity_types: false,
        }
    }
}

} // verus!
