# cedar_agents

Verified building blocks for securing agents that call MCP tools with Cedar:

- `src/tokenizer.rs`, `src/parser.rs`, `src/json.rs`, `src/loc.rs`: a JSON
  tokenizer and parser that keep the location of every value.
- `src/description.rs`, `src/deserializer.rs`: the model of MCP tool
  descriptions and how it is read from JSON.
- `src/generator/`: the Cedar schema generator. `stub.rs` reads what the
  generator takes from a schema stub; `translate.rs` turns the types of tool
  descriptions into Cedar types and the steps that declare them; `actions.rs`
  builds the action of each tool; `dedup.rs`, `plan.rs` and `leaf_fields.rs`
  deduplicate entity types shared by tools; `schema_state.rs` is the schema
  and how each step changes it; `schema.rs` is the generator itself;
  `stub_text.rs` parses a stub written in the Cedar schema syntax;
  `field_order.rs` shows that leaf-record fields come out in name order;
  `request.rs` turns the typed values of a tool call into the Cedar values,
  entities and action of an authorization request.
- `src/agent/`: the policy builder for agents: configuration, role and
  consent policies (consent only gates a tool for roles that already grant
  it), entities, the schema of an agent's tools, and validation with
  Cedar's validator.
- `src/strmap.rs`, `src/text.rs`: sorted string maps and text helpers.

Every function in `src/` is verified with Verus against its contract; the
calls into `cedar-policy` and `cedar-policy-core` go through a few wrappers
whose contracts are stated in their doc comments.

`app/` is the command line tool around the library: it reads files, converts
between the library's plain values and `cedar-policy-core`'s schema and
request data model, and prints results.
