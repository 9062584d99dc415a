use cedar_agents::description::{Parameters, Property, PropertyType, PropertyTypeDef, ToolDescription};
use cedar_agents::generator::actions::{record_from_parameters, register_typedefs, tool_action};
use cedar_agents::generator::config::SchemaGeneratorConfig;
use cedar_agents::generator::err::SchemaGeneratorError;
use cedar_agents::generator::model::{CType, EntityDecl, Op};
use cedar_agents::generator::translate::{cedar_type, unqualify_type, Cx};
use cedar_agents::strmap::StrMap;

fn path(p: &[&str]) -> Vec<String> {
    p.iter().map(|s| s.to_string()).collect()
}

fn cx(config: SchemaGeneratorConfig) -> Cx {
    Cx { config, root: Some(path(&["Test"])), placed: None }
}

fn translate(c: &Cx, ns: &[&str], name: &str, pt: &PropertyType) -> (Result<CType, SchemaGeneratorError>, Vec<Op>) {
    let mut ops = Vec::new();
    let common: StrMap<Vec<String>> = StrMap::new();
    let r = cedar_type(c, &common, &Some(path(ns)), name, pt, &mut ops);
    (r, ops)
}

fn prop(name: &str, required: bool, pt: PropertyType) -> Property {
    Property::new(name.to_string(), required, pt, None)
}

#[test]
fn primitive_types_are_named_types() {
    let c = cx(SchemaGeneratorConfig::default());
    let (r, ops) = translate(&c, &["Test"], "x", &PropertyType::Bool);
    assert!(matches!(r, Ok(CType::EntityOrCommon(p)) if p == path(&["Bool"])));
    assert!(ops.is_empty());
    let (r, _) = translate(&c, &["Test"], "x", &PropertyType::Integer);
    assert!(matches!(r, Ok(CType::EntityOrCommon(p)) if p == path(&["Long"])));
    let (r, _) = translate(&c, &["Test"], "x", &PropertyType::IpAddr);
    assert!(matches!(r, Ok(CType::EntityOrCommon(p)) if p == path(&["ipaddr"])));
}

#[test]
fn a_float_is_an_opaque_entity_of_the_root_or_a_decimal() {
    let c = cx(SchemaGeneratorConfig::default());
    let (r, ops) = translate(&c, &["Test", "t", "Input"], "x", &PropertyType::Float);
    assert!(matches!(r, Ok(CType::Entity(p)) if p == path(&["Test", "Float"])));
    assert_eq!(ops.len(), 1);
    assert!(matches!(&ops[0], Op::AddEntity { ns: Some(n), name, decl: EntityDecl::Opaque, error_if_exists: false }
        if *n == path(&["Test"]) && name == "Float"));
    let c = cx(SchemaGeneratorConfig::default().encode_numbers_as_decimal(true));
    let (r, ops) = translate(&c, &["Test"], "x", &PropertyType::Float);
    assert!(matches!(r, Ok(CType::EntityOrCommon(p)) if p == path(&["decimal"])));
    assert!(ops.is_empty());
}

#[test]
fn an_enum_is_declared_where_it_is_read() {
    let c = cx(SchemaGeneratorConfig::default());
    let pt = PropertyType::Enum { variants: path(&["on", "off"]) };
    let (r, ops) = translate(&c, &["Test", "t", "Input"], "state", &pt);
    assert!(matches!(r, Ok(CType::Entity(p)) if p == path(&["Test", "t", "Input", "state"])));
    assert_eq!(ops.len(), 1);
    assert!(matches!(&ops[0], Op::AddEntity { name, decl: EntityDecl::Enum(vs), error_if_exists: true, .. }
        if name == "state" && *vs == path(&["on", "off"])));
}

#[test]
fn an_enum_without_variants_is_an_error() {
    let c = cx(SchemaGeneratorConfig::default());
    let (r, _) = translate(&c, &["Test"], "state", &PropertyType::Enum { variants: Vec::new() });
    assert!(matches!(r, Err(SchemaGeneratorError::EmptyEnumChoice(e)) if e.name == "state"));
}

#[test]
fn an_undefined_reference_names_its_namespace() {
    let c = cx(SchemaGeneratorConfig::default());
    let (r, _) = translate(&c, &["Test", "t"], "x", &PropertyType::Ref { name: "missing".to_string() });
    assert!(matches!(r, Err(SchemaGeneratorError::UndefinedReferenceType(u))
        if u.name == "missing" && u.namespace == "Test::t"));
}

#[test]
fn a_defined_reference_is_the_common_type_that_holds_it() {
    let c = cx(SchemaGeneratorConfig::default());
    let mut common: StrMap<Vec<String>> = StrMap::new();
    let defs = vec![PropertyTypeDef::new("Point".to_string(), PropertyType::Integer, None)];
    register_typedefs(&mut common, &Some(path(&["Test"])), &defs).expect("registered");
    let mut ops = Vec::new();
    let r = cedar_type(&c, &common, &Some(path(&["Test", "t"])), "x", &PropertyType::Ref { name: "Point".to_string() }, &mut ops);
    assert!(matches!(r, Ok(CType::EntityOrCommon(p)) if p == path(&["Test", "Point"])));
}

#[test]
fn a_tuple_is_a_record_of_projections_in_its_own_namespace() {
    let c = cx(SchemaGeneratorConfig::default());
    let pt = PropertyType::Tuple { types: vec![PropertyType::String, PropertyType::Integer] };
    let (r, ops) = translate(&c, &["Test"], "pair", &pt);
    match r {
        Ok(CType::Record(attrs)) => {
            let names: Vec<&str> = attrs.iter().map(|(n, _, _)| n.as_str()).collect();
            assert_eq!(names, vec!["proj0", "proj1"]);
            assert!(attrs.iter().all(|(_, _, required)| *required));
        }
        _ => panic!("a record"),
    }
    assert_eq!(ops.len(), 2);
    assert!(matches!(&ops[0], Op::AddNamespace(Some(n)) if *n == path(&["Test", "pair"])));
    assert!(matches!(&ops[1], Op::DropIfEmpty(Some(n)) if *n == path(&["Test", "pair"])));
}

#[test]
fn a_union_is_a_record_of_optional_choices() {
    let c = cx(SchemaGeneratorConfig::default());
    let pt = PropertyType::Union { types: vec![PropertyType::String, PropertyType::Bool] };
    let (r, _) = translate(&c, &["Test"], "u", &pt);
    match r {
        Ok(CType::Record(attrs)) => {
            let names: Vec<&str> = attrs.iter().map(|(n, _, _)| n.as_str()).collect();
            assert_eq!(names, vec!["typeChoice0", "typeChoice1"]);
            assert!(attrs.iter().all(|(_, _, required)| !*required));
        }
        _ => panic!("a record"),
    }
}

#[test]
fn an_object_is_an_entity_type_with_its_attributes() {
    let c = cx(SchemaGeneratorConfig::default());
    let pt = PropertyType::Object {
        properties: vec![prop("b", false, PropertyType::Bool), prop("a", true, PropertyType::String)],
        additional_properties: None,
    };
    let (r, ops) = translate(&c, &["Test"], "obj", &pt);
    assert!(matches!(r, Ok(CType::Entity(p)) if p == path(&["Test", "obj"])));
    assert_eq!(ops.len(), 3);
    match &ops[1] {
        Op::AddEntity { ns: Some(n), name, decl: EntityDecl::Record(attrs, None), error_if_exists: true } => {
            assert_eq!(*n, path(&["Test"]));
            assert_eq!(name, "obj");
            let names: Vec<(&str, bool)> = attrs.iter().map(|(n, _, r)| (n.as_str(), *r)).collect();
            assert_eq!(names, vec![("a", true), ("b", false)]);
        }
        _ => panic!("the entity type"),
    }
}

#[test]
fn flattened_names_join_the_namespaces_below_the_root() {
    let c = cx(SchemaGeneratorConfig::default().flatten_namespaces(true));
    let pt = PropertyType::Enum { variants: path(&["x"]) };
    let (r, ops) = translate(&c, &["Test", "t", "Input"], "state", &pt);
    assert!(matches!(r, Ok(CType::Entity(p)) if p == path(&["Test", "t_Input_state"])));
    assert!(matches!(&ops[0], Op::AddEntity { ns: Some(n), name, .. } if *n == path(&["Test"]) && name == "t_Input_state"));
}

#[test]
fn a_reserved_property_name_is_an_error() {
    let c = cx(SchemaGeneratorConfig::default());
    let params = Parameters::new(vec![prop("if", true, PropertyType::Bool)], Vec::new());
    let common: StrMap<Vec<String>> = StrMap::new();
    let mut ops = Vec::new();
    let r = record_from_parameters(&c, &common, &Some(path(&["Test", "t", "Input"])), &params, &mut ops);
    assert!(matches!(r, Err(SchemaGeneratorError::ReservedName(_))));
}

#[test]
fn a_bad_type_definition_name_is_an_error() {
    let mut common: StrMap<Vec<String>> = StrMap::new();
    let defs = vec![PropertyTypeDef::new("Long".to_string(), PropertyType::Integer, None)];
    let r = register_typedefs(&mut common, &Some(path(&["Test"])), &defs);
    assert!(matches!(r, Err(SchemaGeneratorError::ReservedCommonTypeName(_))));
}

#[test]
fn the_steps_of_a_tool_end_with_its_action() {
    let c = cx(SchemaGeneratorConfig::default());
    let tool = ToolDescription::new(
        "lookup".to_string(),
        Parameters::new(vec![prop("q", true, PropertyType::String)], Vec::new()),
        Parameters::new(Vec::new(), Vec::new()),
        Vec::new(),
        None,
    );
    let common: StrMap<Vec<String>> = StrMap::new();
    let contexts: StrMap<String> = StrMap::new();
    let mut ops = Vec::new();
    tool_action(&c, &common, &contexts, &path(&["User"]), &path(&["Server"]), &None, &tool, &mut ops).expect("steps");
    let n = ops.len();
    assert!(matches!(&ops[0], Op::AddNamespace(Some(p)) if *p == path(&["Test", "lookup"])));
    assert!(matches!(&ops[n - 2], Op::AddAction { ns: Some(p), name, .. } if *p == path(&["Test"]) && name == "lookup"));
    assert!(matches!(&ops[n - 1], Op::DropIfEmpty(Some(p)) if *p == path(&["Test", "lookup"])));
    assert!(ops.iter().any(|o| matches!(o, Op::AddCommon { name, .. } if name == "lookupInput")));
}

#[test]
fn names_of_the_namespace_are_written_without_it() {
    let t = CType::SetOf(Box::new(CType::Entity(path(&["Test", "a"]))));
    let u = unqualify_type(&Some(path(&["Test"])), t);
    assert!(matches!(u, CType::SetOf(e) if matches!(*e, CType::Entity(ref p) if *p == path(&["a"]))));
}
