//! Generation of Cedar policies and entities for agents that call MCP tools,
//! driven by a declarative configuration or a fluent builder.

pub mod config;
pub mod policy;
pub mod entities;
pub mod builder;
pub mod validate;
pub mod schema;

use crate::agent::builder::CedarAgentPolicyBuilder;
use crate::agent::config::CedarAgentConfig;
use crate::agent::entities::{entities_view, generate_entities, spec_entities, EntityJson};
use crate::agent::policy::{generate_policies, spec_policies_text};
use crate::agent::schema::configured_tools;
use vstd::prelude::*;
use vstd::string::StringExecFns;

verus! {

/// A problem found when validating policies against a schema.
#[derive(Clone, Debug)]
pub struct ValidationError {
    pub policy_id: String,
    pub message: String,
    pub help: Option<String>,
}

/// The outcome of validating policies against a schema.
#[derive(Clone, Debug)]
pub struct ValidationResult {
    pub valid: bool,
    pub errors: Vec<ValidationError>,
    pub warnings: Vec<ValidationError>,
}

/// A failure of schema generation: the stage that failed, and why.
#[derive(Clone, Debug)]
pub struct SchemaError {
    pub stage: String,
    pub message: String,
}

impl SchemaError {
    /// The message of the error.
    pub fn to_string(&self) -> (r: String)
        ensures
            r@ == "schema generation failed at "@ + self.stage@ + ": "@ + self.message@,
    {
        let mut s = "schema generation failed at ".to_string();
        s.append(self.stage.as_str());
        s.append(": ");
        s.append(self.message.as_str());
        s
    }
}

/// What building a configuration gives: policies, entities, and the schema
/// or why it could not be generated.
#[derive(Clone, Debug)]
pub struct BuildResult {
    pub policies: String,
    pub entities: Vec<EntityJson>,
    pub schema: Option<String>,
    pub schema_errors: Vec<SchemaError>,
}

/// The policies and entities of `config`, with the outcome `schema` of
/// generating its schema: the schema, or the error; with tools, the
/// outcome is a schema or an error. A configuration without tools has no
/// schema, whatever the outcome.
pub fn build(config: &CedarAgentConfig, schema: Result<Option<String>, SchemaError>) -> (r:
    BuildResult)
    requires
        configured_tools(*config) is Some ==> !(schema matches Ok(None)),
    ensures
        r.policies@ == spec_policies_text(*config),
        entities_view(r.entities@) == spec_entities(*config),
        configured_tools(*config) is None ==> r.schema is None && r.schema_errors@.len() == 0,
        configured_tools(*config) is Some ==> match schema {
            Ok(s) => r.schema == s && r.schema_errors@.len() == 0,
            Err(e) => r.schema is None && r.schema_errors@ == seq![e],
        },
{
    let policies = generate_policies(config);
    let entities = generate_entities(config);
    let has_tools = match &config.tools {
        Some(t) => t.len() > 0,
        None => false,
    };
    if !has_tools {
        return BuildResult { policies, entities, schema: None, schema_errors: Vec::new() };
    }
    let (schema, schema_errors) = match schema {
        Ok(s) => (s, Vec::new()),
        Err(e) => (None, vec![e]),
    };
    BuildResult { policies, entities, schema, schema_errors }
}

impl CedarAgentPolicyBuilder {
    /// The policies and entities of the configuration built, with the
    /// outcome `schema` of generating its schema.
    pub fn build(self, schema: Result<Option<String>, SchemaError>) -> (r: BuildResult)
        requires
            configured_tools(self.spec_config()) is Some ==> !(schema matches Ok(None)),
        ensures
            r.policies@ == spec_policies_text(self.spec_config()),
            entities_view(r.entities@) == spec_entities(self.spec_config()),
            configured_tools(self.spec_config()) is None ==> r.schema is None && r.schema_errors@.len() == 0,
            configured_tools(self.spec_config()) is Some ==> match schema {
                Ok(s) => r.schema == s && r.schema_errors@.len() == 0,
                Err(e) => r.schema is None && r.schema_errors@ == seq![e],
            },
    {
        build(self.config(), schema)
    }
}

/// The resource entity type of a configuration: `Resource` unless
/// configured.
pub open spec fn resource_type_of(c: CedarAgentConfig) -> Seq<char> {
    match c.resource {
        Some(r) => r.resource_type@,
        None => "Resource"@,
    }
}

/// The Cedar schema that schema generation starts from: the namespace with
/// the role, principal and resource entity types, the principal and
/// resource marked for the generator.
pub open spec fn spec_schema_stub(c: CedarAgentConfig) -> Seq<char> {
    let pt = c.principal.principal_type@;
    let rt = resource_type_of(c);
    "namespace "@ + c.namespace@ + " {\n  entity Role;\n\n  @mcp_principal(\""@ + pt
        + "\")\n  entity "@ + pt + " in [Role];\n\n  @mcp_resource(\""@ + rt + "\")\n  entity "@
        + rt + ";\n}"@
}

/// The Cedar schema that schema generation starts from.
pub fn schema_stub(config: &CedarAgentConfig) -> (r: String)
    ensures
        r@ == spec_schema_stub(*config),
{
    let pt = config.principal.principal_type.as_str();
    let rt = match &config.resource {
        Some(r) => r.resource_type.as_str(),
        None => "Resource",
    };
    let mut s = "namespace ".to_string();
    s.append(config.namespace.as_str());
    s.append(" {\n  entity Role;\n\n  @mcp_principal(\"");
    s.append(pt);
    s.append("\")\n  entity ");
    s.append(pt);
    s.append(" in [Role];\n\n  @mcp_resource(\"");
    s.append(rt);
    s.append("\")\n  entity ");
    s.append(rt);
    s.append(";\n}");
    s
}

} // verus!
