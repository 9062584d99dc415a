use cedar_agents::generator::cli::{
    get_config, CliArgs, Command, ConfigOptions, ErrorFormat, FileOpenError, OutputFormat,
    PoliciesArgs, PolicyFormat, RequestArgs,
};
use cedar_agents::generator::config::SchemaGeneratorConfig;
use cedar_agents::generator::err::SchemaGeneratorError;
use cedar_agents::generator::identifiers::{
    ACTION, BOOL_TYPE, DATETIME_CTOR, DATETIME_TYPE, DECIMAL_CTOR, DECIMAL_TYPE, DURATION_CTOR,
    DURATION_TYPE, FLOAT_TYPE, INPUT_NAME, IPADDR_CTOR, IPADDR_TYPE, LONG_TYPE, MCP_ACTION,
    MCP_CONTEXT, MCP_PRINCIPAL, MCP_RESOURCE, NULL_TYPE, NUMBER_TYPE, OUTPUT_NAME, STRING_TYPE,
    UNKNOWN_TYPE,
};
use cedar_policy_core::ast::{AnyId, EntityType, Name, UnreservedId};
use cedar_policy_core::validator::RawName;

// Parses each identifier, so that any of them that Cedar would refuse is
// reported.
#[test]
fn identifiers_are_valid() {
    for s in [MCP_PRINCIPAL, MCP_RESOURCE, MCP_CONTEXT, MCP_ACTION] {
        let _: AnyId = s.parse().unwrap();
    }
    for s in [INPUT_NAME, OUTPUT_NAME, DECIMAL_CTOR, DATETIME_CTOR, DURATION_CTOR, IPADDR_CTOR] {
        let _: Name = s.parse().unwrap();
    }
    for s in [
        BOOL_TYPE,
        LONG_TYPE,
        STRING_TYPE,
        DECIMAL_TYPE,
        DATETIME_TYPE,
        DURATION_TYPE,
        IPADDR_TYPE,
    ] {
        let _: RawName = s.parse().unwrap();
    }
    let _: EntityType = ACTION.parse().unwrap();
    for s in [FLOAT_TYPE, NUMBER_TYPE, NULL_TYPE, UNKNOWN_TYPE] {
        let _: UnreservedId = s.parse().unwrap();
    }
}

fn options(keep_annotations: bool) -> ConfigOptions {
    ConfigOptions {
        include_outputs: true,
        objects_as_records: false,
        keep_annotations,
        flatten_namespaces: true,
        encode_numbers_as_decimal: false,
    }
}

#[test]
fn default_config_erases_annotations_only() {
    let c = SchemaGeneratorConfig::default();
    assert!(c.erase_annotations);
    assert!(!c.include_outputs && !c.objects_as_records && !c.flatten_namespaces);
    assert!(!c.numbers_as_decimal && !c.deduplicate_entity_types);
}

#[test]
fn config_setters_change_one_option() {
    let c = SchemaGeneratorConfig::default()
        .include_outputs(true)
        .objects_as_records(true)
        .erase_annotations(false)
        .flatten_namespaces(true)
        .encode_numbers_as_decimal(true)
        .deduplicate_entity_types(true);
    assert!(c.include_outputs && c.objects_as_records && !c.erase_annotations);
    assert!(c.flatten_namespaces && c.numbers_as_decimal && c.deduplicate_entity_types);
    let d = c.include_outputs(false);
    assert!(!d.include_outputs && d.objects_as_records);
}

#[test]
fn get_config_keeps_annotations_when_asked() {
    let c = get_config(&options(false));
    assert!(c.include_outputs && c.erase_annotations && c.flatten_namespaces);
    assert!(!c.objects_as_records && !c.numbers_as_decimal && !c.deduplicate_entity_types);
    let c = get_config(&options(true));
    assert!(!c.erase_annotations);
}

#[test]
fn error_format_of_each_command() {
    let generate = CliArgs {
        command: Command::Generate {
            schema_stub: "stub.cedarschema".to_string(),
            tool_descriptions: "tools.json".to_string(),
            output: None,
            output_format: OutputFormat::Human,
            error_format: ErrorFormat::Plain,
            config: options(false),
        },
    };
    assert_eq!(generate.get_error_format(), ErrorFormat::Plain);
    let authorize = CliArgs {
        command: Command::Authorize {
            schema_stub: "stub.cedarschema".to_string(),
            tool_descriptions: "tools.json".to_string(),
            output_format: OutputFormat::Json,
            error_format: ErrorFormat::Json,
            request: RequestArgs {
                principal: None,
                resource: None,
                context_json_file: None,
                request_json_file: None,
            },
            policies: PoliciesArgs {
                policies_file: "p.cedar".to_string(),
                policy_format: PolicyFormat::default(),
            },
            entities: "e.json".to_string(),
            mcp_tool_input: "in.json".to_string(),
            mcp_tool_output: None,
            config: options(true),
        },
    };
    assert_eq!(authorize.get_error_format(), ErrorFormat::Json);
    assert_eq!(PolicyFormat::default(), PolicyFormat::Cedar);
}

#[test]
fn generator_error_messages() {
    assert_eq!(
        SchemaGeneratorError::empty_enum_choice("Color".to_string()).to_string(),
        "Empty Enum Type: Color."
    );
    let e = SchemaGeneratorError::undefined_ref("T".to_string(), "Ns".to_string());
    assert_eq!(e.to_string(), "Undefined Reference Type.");
    assert_eq!(
        e.help().unwrap(),
        "`T` not found in `Ns` (or any containing namespace). Ensure that every `$ref` type in input MCP Tool Description references a defined type definition."
    );
    let e = SchemaGeneratorError::conflicting_name("Foo".to_string());
    assert!(e.help().unwrap().contains("`Foo`"));
    assert!(SchemaGeneratorError::SchemaResolutionError("x".to_string())
        .help()
        .is_none());
    let f = FileOpenError {
        file: "a.json".to_string(),
        error: "not found".to_string(),
    };
    assert_eq!(f.to_string(), "Could not open file `a.json`: not found");
}
