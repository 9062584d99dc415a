//! What schema generation for a configuration starts from: the schema stub
//! and the description of the configured tools, as an MCP `list_tools`
//! response.

use crate::agent::config::{CedarAgentConfig, McpToolDefinition};
use crate::agent::{spec_schema_stub, schema_stub, SchemaError};
use crate::deserializer::{des_err_message, spec_server_from_text};
use crate::description::ServerDescription;
use crate::text::push_char;
use vstd::prelude::*;
use vstd::string::StringExecFns;

verus! {

broadcast use vstd::string::axiom_spec_iter;

/// The hexadecimal digit of `d` (below 16), in lower case.
pub open spec fn hex_digit(d: u32) -> char {
    if d == 0 { '0' }
    else if d == 1 { '1' }
    else if d == 2 { '2' }
    else if d == 3 { '3' }
    else if d == 4 { '4' }
    else if d == 5 { '5' }
    else if d == 6 { '6' }
    else if d == 7 { '7' }
    else if d == 8 { '8' }
    else if d == 9 { '9' }
    else if d == 10 { 'a' }
    else if d == 11 { 'b' }
    else if d == 12 { 'c' }
    else if d == 13 { 'd' }
    else if d == 14 { 'e' }
    else { 'f' }
}

fn hex_digit_of(d: u32) -> (r: char)
    ensures
        r == hex_digit(d),
{
    if d == 0 { '0' }
    else if d == 1 { '1' }
    else if d == 2 { '2' }
    else if d == 3 { '3' }
    else if d == 4 { '4' }
    else if d == 5 { '5' }
    else if d == 6 { '6' }
    else if d == 7 { '7' }
    else if d == 8 { '8' }
    else if d == 9 { '9' }
    else if d == 10 { 'a' }
    else if d == 11 { 'b' }
    else if d == 12 { 'c' }
    else if d == 13 { 'd' }
    else if d == 14 { 'e' }
    else { 'f' }
}

/// How a character is written inside a JSON string literal: quotes and
/// backslashes escaped, control characters written as escapes.
pub open spec fn escaped_char(c: char) -> Seq<char> {
    if c == '"' {
        seq!['\\', '"']
    } else if c == '\\' {
        seq!['\\', '\\']
    } else if c == '\n' {
        seq!['\\', 'n']
    } else if c == '\r' {
        seq!['\\', 'r']
    } else if c == '\t' {
        seq!['\\', 't']
    } else if (c as u32) == 8 {
        seq!['\\', 'b']
    } else if (c as u32) == 12 {
        seq!['\\', 'f']
    } else if (c as u32) < 32 {
        seq!['\\', 'u', '0', '0', hex_digit((c as u32) / 16), hex_digit((c as u32) % 16)]
    } else {
        seq![c]
    }
}

/// The text `s` as a JSON string literal.
pub open spec fn escaped_text(s: Seq<char>) -> Seq<char>
    decreases s.len(),
{
    if s.len() == 0 {
        Seq::empty()
    } else {
        escaped_text(s.drop_last()) + escaped_char(s.last())
    }
}

pub open spec fn json_string(s: Seq<char>) -> Seq<char> {
    seq!['"'] + escaped_text(s) + seq!['"']
}

/// Appends `s` to `out` as a JSON string literal.
fn append_json_string(out: &mut String, s: &str)
    ensures
        final(out)@ == old(out)@ + json_string(s@),
{
    push_char(out, '"');
    let ghost start = out@;
    for c in it: s.chars()
        invariant
            it.seq() == s@,
            out@ == start + escaped_text(s@.take(it.index() as int)),
    {
        let ghost k = it.index();
        let ghost before = out@;
        if c == '"' {
            out.append("\\\"");
        } else if c == '\\' {
            out.append("\\\\");
        } else if c == '\n' {
            out.append("\\n");
        } else if c == '\r' {
            out.append("\\r");
        } else if c == '\t' {
            out.append("\\t");
        } else if (c as u32) == 8 {
            out.append("\\b");
        } else if (c as u32) == 12 {
            out.append("\\f");
        } else if (c as u32) < 32 {
            out.append("\\u00");
            push_char(out, hex_digit_of((c as u32) / 16));
            push_char(out, hex_digit_of((c as u32) % 16));
        } else {
            push_char(out, c);
        }
        proof {
            reveal_strlit("\\\"");
            reveal_strlit("\\\\");
            reveal_strlit("\\n");
            reveal_strlit("\\r");
            reveal_strlit("\\t");
            reveal_strlit("\\b");
            reveal_strlit("\\f");
            reveal_strlit("\\u00");
            assert(out@ =~= before + escaped_char(c));
            assert(s@.take(k + 1) =~= s@.take(k as int).push(c));
            assert(s@.take(k + 1).drop_last() =~= s@.take(k as int));
        }
    }
    proof {
        assert(s@.take(s@.len() as int) =~= s@);
    }
    push_char(out, '"');
    assert(out@ =~= old(out)@ + json_string(s@));
}

/// The JSON object of a tool: its name, its description (empty when there
/// is none) and its schemas as they are.
pub open spec fn tool_json(t: McpToolDefinition) -> Seq<char> {
    let description = match t.description {
        Some(d) => d@,
        None => Seq::empty(),
    };
    let output = match t.output_schema {
        Some(o) => ",\"outputSchema\":"@ + o@,
        None => Seq::empty(),
    };
    "{\"name\":"@ + json_string(t.name@) + ",\"description\":"@ + json_string(description)
        + ",\"inputSchema\":"@ + t.input_schema@ + output + "}"@
}

/// The tools' objects, separated by commas.
pub open spec fn tools_json(tools: Seq<McpToolDefinition>) -> Seq<char>
    decreases tools.len(),
{
    if tools.len() == 0 {
        Seq::empty()
    } else if tools.len() == 1 {
        tool_json(tools[0])
    } else {
        tools_json(tools.drop_last()) + ","@ + tool_json(tools.last())
    }
}

/// The MCP `list_tools` response that describes `tools`.
pub open spec fn spec_server_json(tools: Seq<McpToolDefinition>) -> Seq<char> {
    "{\"result\":{\"tools\":["@ + tools_json(tools) + "]}}"@
}

fn append_tool_json(out: &mut String, t: &McpToolDefinition)
    ensures
        final(out)@ == old(out)@ + tool_json(*t),
{
    out.append("{\"name\":");
    append_json_string(out, t.name.as_str());
    out.append(",\"description\":");
    match &t.description {
        Some(d) => append_json_string(out, d.as_str()),
        None => append_json_string(out, ""),
    }
    out.append(",\"inputSchema\":");
    out.append(t.input_schema.as_str());
    match &t.output_schema {
        Some(o) => {
            out.append(",\"outputSchema\":");
            out.append(o.as_str());
        },
        None => {},
    }
    out.append("}");
    proof {
        reveal_strlit("");
    }
    assert(out@ =~= old(out)@ + tool_json(*t));
}

/// The MCP `list_tools` response that describes `tools`, as JSON text.
pub fn server_json(tools: &Vec<McpToolDefinition>) -> (r: String)
    ensures
        r@ == spec_server_json(tools@),
{
    let mut out = "{\"result\":{\"tools\":[".to_string();
    let ghost start = out@;
    let mut i: usize = 0;
    while i < tools.len()
        invariant
            0 <= i <= tools@.len(),
            out@ == start + tools_json(tools@.take(i as int)),
        decreases tools@.len() - i,
    {
        let ghost before = out@;
        if i > 0 {
            out.append(",");
        }
        append_tool_json(&mut out, &tools[i]);
        proof {
            let t = tools@.take(i + 1);
            assert(t.drop_last() =~= tools@.take(i as int));
            assert(t.last() == tools@[i as int]);
            if i == 0 {
                assert(t =~= seq![tools@[0]]);
                assert(tools@.take(0) =~= Seq::<McpToolDefinition>::empty());
            }
            assert(out@ =~= start + tools_json(t));
        }
        i = i + 1;
    }
    assert(tools@.take(tools@.len() as int) =~= tools@);
    out.append("]}}");
    out
}

/// The tools of a configuration that has any.
pub open spec fn configured_tools(c: CedarAgentConfig) -> Option<Seq<McpToolDefinition>> {
    match c.tools {
        Some(t) => if t@.len() > 0 { Some(t@) } else { None },
        None => None,
    }
}

/// What generating the schema of `config` starts from: the schema stub
/// and the `list_tools` response that describes its tools; nothing when
/// it has no tools.
pub fn schema_inputs(config: &CedarAgentConfig) -> (r: Option<(String, String)>)
    ensures
        match configured_tools(*config) {
            Some(t) => r matches Some(x) && x.0@ == spec_schema_stub(*config) && x.1@
                == spec_server_json(t),
            None => r is None,
        },
{
    match &config.tools {
        Some(t) => {
            if t.len() == 0 {
                None
            } else {
                Some((schema_stub(config), server_json(t)))
            }
        },
        None => None,
    }
}

/// Reads the description of the tools out of `json`; an error is reported
/// as a failure of the stage `parse_server_description`.
pub fn tools_description(json: &str) -> (r: Result<ServerDescription, SchemaError>)
    ensures
        match spec_server_from_text(json@) {
            Ok(s) => r matches Ok(d) && d@ == s,
            Err(e) => r matches Err(x) && x.stage@ == "parse_server_description"@ && x.message@
                == des_err_message(e),
        },
{
    match ServerDescription::from_json_str(json) {
        Ok(d) => Ok(d),
        Err(e) => Err(SchemaError { stage: "parse_server_description".to_string(), message: e.to_string() }),
    }
}

} // verus!
