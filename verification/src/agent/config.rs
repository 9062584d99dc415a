//! The declarative configuration that drives policy generation: roles,
//! users, and the per-tool restrictions, limits and consent rules.

use crate::strmap::StrMap;
use vstd::prelude::*;
use vstd::string::StringExecFns;

verus! {

/// The principal (user or agent) entity type, and the key that names a
/// principal at runtime.
#[derive(Clone, Debug)]
pub struct PrincipalConfig {
    pub key: String,
    pub principal_type: String,
}

/// The default principal entity type.
pub fn default_principal_type() -> (r: String)
    ensures
        r@ == "User"@,
{
    "User".to_string()
}

impl Default for PrincipalConfig {
    fn default() -> (r: Self)
        ensures
            r.key@ == "user_id"@,
            r.principal_type@ == "User"@,
    {
        PrincipalConfig { key: "user_id".to_string(), principal_type: default_principal_type() }
    }
}

/// The resource entity: the thing being accessed.
#[derive(Clone, Debug)]
pub struct ResourceConfig {
    pub resource_type: String,
    pub id: String,
}

/// The default resource entity type.
pub fn default_resource_type() -> (r: String)
    ensures
        r@ == "Resource"@,
{
    "Resource".to_string()
}

/// The default resource id.
pub fn default_resource_id() -> (r: String)
    ensures
        r@ == "default"@,
{
    "default".to_string()
}

impl Default for ResourceConfig {
    fn default() -> (r: Self)
        ensures
            r.resource_type@ == "Resource"@,
            r.id@ == "default"@,
    {
        ResourceConfig { resource_type: default_resource_type(), id: default_resource_id() }
    }
}

/// Whether consent is required for all roles or for specific ones.
#[derive(Clone, Debug)]
pub enum ConsentScope {
    /// `true`: all roles require consent; `false`: none does.
    AllRoles(bool),
    /// Only the listed roles require consent for the tool. A role that does
    /// not already grant the tool gains nothing from being listed.
    SpecificRoles(Vec<String>),
}

/// A JSON value that a restricted input field may take, as policy
/// generation reads it.
#[derive(Clone, Debug, PartialEq)]
pub enum AllowedValue {
    /// A JSON string, with its text.
    Str(String),
    /// A JSON number, with its text.
    Number(String),
    /// A JSON boolean.
    Bool(bool),
    /// Any other JSON value (null, array, object), with its compact JSON text.
    Other(String),
}

/// Input field restrictions for a tool action.
#[derive(Clone, Debug)]
pub struct Restriction {
    /// Field name to allowed values. The action is denied unless the field
    /// holds one of them.
    pub allowed_values: StrMap<Vec<AllowedValue>>,
}

/// A UTC hour window during which an action is permitted.
#[derive(Clone, Copy, Debug, PartialEq, Eq, Structural)]
pub struct TimeWindow {
    /// Start hour (inclusive), 0-23.
    pub hour_start: u8,
    /// End hour (exclusive), 1-24.
    pub hour_end: u8,
}

/// An MCP tool definition used for Cedar schema generation. The schemas are
/// kept as JSON text.
#[derive(Clone, Debug)]
pub struct McpToolDefinition {
    pub name: String,
    pub description: Option<String>,
    pub input_schema: String,
    pub output_schema: Option<String>,
}

/// The configuration of policy generation.
#[derive(Clone, Debug)]
pub struct CedarAgentConfig {
    /// Principal entity configuration.
    pub principal: PrincipalConfig,
    /// Role name to the tools it permits (`"*"`: all).
    pub roles: Option<StrMap<Vec<String>>>,
    /// User id to its roles.
    pub users: Option<StrMap<Vec<String>>>,
    /// Per-tool input field restrictions.
    pub restrictions: Option<StrMap<Restriction>>,
    /// Per-tool (or global `"*"`) invocation count limits.
    pub rate_limits: Option<StrMap<u64>>,
    /// Per-tool (or global `"*"`) allowed UTC hour windows.
    pub time_windows: Option<StrMap<TimeWindow>>,
    /// Environment to the tools denied in it (`"*"`: all).
    pub deny_in_env: Option<StrMap<Vec<String>>>,
    /// Tools requiring user consent.
    pub consent: Option<StrMap<ConsentScope>>,
    /// Custom resource entity configuration.
    pub resource: Option<ResourceConfig>,
    /// MCP tool definitions for schema generation.
    pub tools: Option<Vec<McpToolDefinition>>,
    /// Cedar namespace.
    pub namespace: String,
}

/// The default namespace.
pub fn default_namespace() -> (r: String)
    ensures
        r@ == "Agent"@,
{
    "Agent".to_string()
}

/// The configuration is the default one: principal `User` keyed by
/// `user_id`, namespace `Agent`, and nothing else.
pub open spec fn is_default_config(c: CedarAgentConfig) -> bool {
    &&& c.principal.key@ == "user_id"@
    &&& c.principal.principal_type@ == "User"@
    &&& c.roles is None
    &&& c.users is None
    &&& c.restrictions is None
    &&& c.rate_limits is None
    &&& c.time_windows is None
    &&& c.deny_in_env is None
    &&& c.consent is None
    &&& c.resource is None
    &&& c.tools is None
    &&& c.namespace@ == "Agent"@
}

impl Default for CedarAgentConfig {
    fn default() -> (r: Self)
        ensures
            is_default_config(r),
    {
        CedarAgentConfig {
            principal: PrincipalConfig::default(),
            roles: None,
            users: None,
            restrictions: None,
            rate_limits: None,
            time_windows: None,
            deny_in_env: None,
            consent: None,
            resource: None,
            tools: None,
            namespace: default_namespace(),
        }
    }
}

/// Identifier fields of a configuration that are not valid Cedar identifiers.
#[derive(Clone, Debug, PartialEq, Eq)]
pub enum ConfigValidationError {
    /// The `namespace` field is not a valid Cedar identifier.
    InvalidNamespace { value: String },
    /// The `principal.type` field is not a valid Cedar identifier.
    InvalidPrincipalType { value: String },
    /// The `resource.type` field is not a valid Cedar identifier.
    InvalidResourceType { value: String },
}

impl ConfigValidationError {
    /// The message of the error.
    pub fn to_string(&self) -> (r: String)
        ensures
            r@ == config_error_message(*self),
    {
        let mut s = String::new();
        match self {
            ConfigValidationError::InvalidNamespace { value } => {
                s.append("invalid namespace \"");
                s.append(value.as_str());
            },
            ConfigValidationError::InvalidPrincipalType { value } => {
                s.append("invalid principal type \"");
                s.append(value.as_str());
            },
            ConfigValidationError::InvalidResourceType { value } => {
                s.append("invalid resource type \"");
                s.append(value.as_str());
            },
        }
        s.append("\": not a valid Cedar identifier");
        s
    }
}

/// The message of a configuration error.
pub open spec fn config_error_message(e: ConfigValidationError) -> Seq<char> {
    let (what, value) = match e {
        ConfigValidationError::InvalidNamespace { value } => ("invalid namespace \""@, value@),
        ConfigValidationError::InvalidPrincipalType { value } => (
            "invalid principal type \""@,
            value@,
        ),
        ConfigValidationError::InvalidResourceType { value } => (
            "invalid resource type \""@,
            value@,
        ),
    };
    Seq::<char>::empty() + what + value + "\": not a valid Cedar identifier"@
}

/// Whether `s` is a legal Cedar identifier, as Cedar's parser decides
/// (reserved words and characters outside identifiers are refused).
pub uninterp spec fn valid_cedar_ident(s: Seq<char>) -> bool;

/// Whether `s` is a valid Cedar identifier. Calls
/// `cedar_policy::pst::Id::new`; the contract claims only that the answer
/// is a function of the text, named `valid_cedar_ident`.
#[verifier::external_body]
pub(crate) fn is_valid_cedar_ident(s: &str) -> (r: bool)
    ensures
        r == valid_cedar_ident(s@),
{
    cedar_policy::pst::Id::new(s).is_ok()
}

/// Whether `s` is a legal Cedar identifier: what a configuration read from
/// an untrusted source is checked against.
pub fn is_cedar_identifier(s: &str) -> (r: bool)
    ensures
        r == valid_cedar_ident(s@),
{
    is_valid_cedar_ident(s)
}

/// What validating a configuration gives: the first identifier field that
/// is not a valid Cedar identifier, checked in the order namespace,
/// principal type, resource type.
pub open spec fn spec_validate_config(c: CedarAgentConfig) -> Result<(), ConfigValidationError> {
    if !valid_cedar_ident(c.namespace@) {
        Err(ConfigValidationError::InvalidNamespace { value: c.namespace })
    } else if !valid_cedar_ident(c.principal.principal_type@) {
        Err(ConfigValidationError::InvalidPrincipalType { value: c.principal.principal_type })
    } else {
        match c.resource {
            Some(r) => if !valid_cedar_ident(r.resource_type@) {
                Err(ConfigValidationError::InvalidResourceType { value: r.resource_type })
            } else {
                Ok(())
            },
            None => Ok(()),
        }
    }
}

/// Checks the identifier-like fields of `config`; returns the first one
/// that is not a valid Cedar identifier.
pub fn validate_config(config: &CedarAgentConfig) -> (r: Result<(), ConfigValidationError>)
    ensures
        r == spec_validate_config(*config),
{
    if !is_valid_cedar_ident(config.namespace.as_str()) {
        return Err(ConfigValidationError::InvalidNamespace { value: config.namespace.clone() });
    }
    if !is_valid_cedar_ident(config.principal.principal_type.as_str()) {
        return Err(
            ConfigValidationError::InvalidPrincipalType {
                value: config.principal.principal_type.clone(),
            },
        );
    }
    if let Some(resource) = &config.resource {
        if !is_valid_cedar_ident(resource.resource_type.as_str()) {
            return Err(
                ConfigValidationError::InvalidResourceType {
                    value: resource.resource_type.clone(),
                },
            );
        }
    }
    Ok(())
}

} // verus!
