//! The arguments of the schema generator's command line, and the choices
//! they make.

use crate::generator::config::{default_generator_config, SchemaGeneratorConfig};
use vstd::prelude::*;
use vstd::string::StringExecFns;

verus! {

/// The arguments that together specify a request.
#[derive(Clone, Debug)]
pub struct RequestArgs {
    /// Principal of the request, e.g. `MyMcpServer::User::"Alice"`.
    pub principal: Option<String>,
    /// Resource of the request, e.g. `MyMcpServer::McpServer::"Server 0"`.
    pub resource: Option<String>,
    /// File holding the JSON object of the request's context.
    pub context_json_file: Option<String>,
    /// File holding the JSON object of the whole request.
    pub request_json_file: Option<String>,
}

/// The format of a policy file.
#[derive(Clone, Copy, Debug, PartialEq, Eq, Structural)]
pub enum PolicyFormat {
    /// The standard Cedar policy format.
    Cedar,
    /// Cedar's JSON policy format.
    Json,
}

impl Default for PolicyFormat {
    fn default() -> (r: Self)
        ensures
            r == PolicyFormat::Cedar,
    {
        PolicyFormat::Cedar
    }
}

/// The arguments that together specify a policy set.
#[derive(Clone, Debug)]
pub struct PoliciesArgs {
    /// File holding the policies and templates.
    pub policies_file: String,
    /// Format of the policies file.
    pub policy_format: PolicyFormat,
}

/// The options of schema generation given on the command line.
#[derive(Clone, Debug)]
pub struct ConfigOptions {
    pub include_outputs: bool,
    pub objects_as_records: bool,
    pub keep_annotations: bool,
    pub flatten_namespaces: bool,
    pub encode_numbers_as_decimal: bool,
}

/// The format of a generated schema.
#[derive(Clone, Copy, Debug, PartialEq, Eq, Structural)]
pub enum OutputFormat {
    /// Human-readable Cedar schema format.
    Human,
    /// JSON Cedar schema format.
    Json,
}

/// The format of error messages.
#[derive(Clone, Copy, Debug, PartialEq, Eq, Structural)]
pub enum ErrorFormat {
    /// Human-readable messages with terminal graphics and code snippets.
    Human,
    /// Plain-text messages, suitable for screen readers.
    Plain,
    /// Machine-readable JSON.
    Json,
}

/// A command of the command line.
#[derive(Clone, Debug)]
pub enum Command {
    /// Generate a Cedar schema: an action for each tool described, added to
    /// a schema stub.
    Generate {
        schema_stub: String,
        tool_descriptions: String,
        output: Option<String>,
        output_format: OutputFormat,
        error_format: ErrorFormat,
        config: ConfigOptions,
    },
    /// Turn a tool's input and output into a Cedar request and authorize it.
    Authorize {
        schema_stub: String,
        tool_descriptions: String,
        output_format: OutputFormat,
        error_format: ErrorFormat,
        request: RequestArgs,
        policies: PoliciesArgs,
        entities: String,
        mcp_tool_input: String,
        mcp_tool_output: Option<String>,
        config: ConfigOptions,
    },
}

/// The command line of the schema generator.
#[derive(Debug)]
pub struct CliArgs {
    pub command: Command,
}

impl CliArgs {
    /// The error format the command asks for.
    pub fn get_error_format(&self) -> (r: ErrorFormat)
        ensures
            r == match self.command {
                Command::Generate { error_format, .. } => error_format,
                Command::Authorize { error_format, .. } => error_format,
            },
    {
        match &self.command {
            Command::Generate { error_format, .. } => *error_format,
            Command::Authorize { error_format, .. } => *error_format,
        }
    }
}

/// The generator configuration that the command-line options ask for:
/// annotations are erased unless kept.
pub fn get_config(config_options: &ConfigOptions) -> (r: SchemaGeneratorConfig)
    ensures
        r == (SchemaGeneratorConfig {
            include_outputs: config_options.include_outputs,
            objects_as_records: config_options.objects_as_records,
            erase_annotations: !config_options.keep_annotations,
            flatten_namespaces: config_options.flatten_namespaces,
            numbers_as_decimal: config_options.encode_numbers_as_decimal,
            ..default_generator_config()
        }),
{
    SchemaGeneratorConfig::default().include_outputs(config_options.include_outputs).objects_as_records(
        config_options.objects_as_records,
    ).erase_annotations(!config_options.keep_annotations).flatten_namespaces(
        config_options.flatten_namespaces,
    ).encode_numbers_as_decimal(config_options.encode_numbers_as_decimal)
}

/// A file could not be opened.
#[derive(Debug)]
pub struct FileOpenError {
    pub file: String,
    pub error: String,
}

impl FileOpenError {
    /// The message of the error.
    pub fn to_string(&self) -> (r: String)
        ensures
            r@ == "Could not open file `"@ + self.file@ + "`: "@ + self.error@,
    {
        let mut s = "Could not open file `".to_string();
        s.append(self.file.as_str());
        s.append("`: ");
        s.append(self.error.as_str());
        s
    }
}

} // verus!
