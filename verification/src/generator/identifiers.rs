//! The identifiers the schema generator writes into schemas.

use vstd::prelude::*;

verus! {

/// Annotation marking the principal entity types of a schema stub.
pub const MCP_PRINCIPAL: &'static str = "mcp_principal";
/// Annotation marking the resource entity types of a schema stub.
pub const MCP_RESOURCE: &'static str = "mcp_resource";
/// Annotation marking the common context type of a schema stub.
pub const MCP_CONTEXT: &'static str = "mcp_context";
/// Annotation marking the actions of a schema stub.
pub const MCP_ACTION: &'static str = "mcp_action";
/// The namespace of a tool's input types.
pub const INPUT_NAME: &'static str = "Input";
/// The namespace of a tool's output types.
pub const OUTPUT_NAME: &'static str = "Output";
/// Cedar's boolean type.
pub const BOOL_TYPE: &'static str = "Bool";
/// Cedar's integer type.
pub const LONG_TYPE: &'static str = "Long";
/// Cedar's string type.
pub const STRING_TYPE: &'static str = "String";
/// Cedar's decimal extension type.
pub const DECIMAL_TYPE: &'static str = "decimal";
/// Cedar's datetime extension type.
pub const DATETIME_TYPE: &'static str = "datetime";
/// Cedar's duration extension type.
pub const DURATION_TYPE: &'static str = "duration";
/// Cedar's IP address extension type.
pub const IPADDR_TYPE: &'static str = "ipaddr";
/// The entity type of actions.
pub const ACTION: &'static str = "Action";
/// Cedar's decimal constructor.
pub const DECIMAL_CTOR: &'static str = "decimal";
/// Cedar's datetime constructor.
pub const DATETIME_CTOR: &'static str = "datetime";
/// Cedar's duration constructor.
pub const DURATION_CTOR: &'static str = "duration";
/// Cedar's IP address constructor.
pub const IPADDR_CTOR: &'static str = "ip";
/// The entity type of JSON floats.
pub const FLOAT_TYPE: &'static str = "Float";
/// The entity type of JSON numbers.
pub const NUMBER_TYPE: &'static str = "Number";
/// The entity type of JSON nulls.
pub const NULL_TYPE: &'static str = "Null";
/// The entity type of values of unknown type.
pub const UNKNOWN_TYPE: &'static str = "Unknown";

} // verus!
