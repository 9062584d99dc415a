use cedar_agents::description::{Parameters, Property, PropertyType, PropertyTypeDef};
use cedar_agents::generator::dedup::{
    collect_enum_fingerprints, collect_enum_fingerprints_from_property_type, compute_lca,
    is_leaf_record, is_primitive, DeduplicationMap, EntityTypeFingerprint,
};
use std::collections::hash_map::DefaultHasher;
use std::hash::{Hash, Hasher};

fn ns(path: &[&str]) -> Option<Vec<String>> {
    Some(path.iter().map(|s| s.to_string()).collect())
}

fn prop(name: &str, ty: PropertyType, required: bool) -> Property {
    Property::new(name.to_string(), required, ty, None)
}

fn enum_type(variants: &[&str]) -> PropertyType {
    PropertyType::Enum {
        variants: variants.iter().map(|s| s.to_string()).collect(),
    }
}

fn leaf(name: &str, fields: Vec<(&str, PropertyType, bool)>) -> EntityTypeFingerprint {
    EntityTypeFingerprint::LeafRecord {
        base_name: name.to_string(),
        fields: fields
            .into_iter()
            .map(|(n, t, r)| (n.to_string(), t, r))
            .collect(),
    }
}

#[test]
fn test_is_primitive() {
    assert!(is_primitive(&PropertyType::Bool));
    assert!(is_primitive(&PropertyType::Integer));
    assert!(is_primitive(&PropertyType::Float));
    assert!(is_primitive(&PropertyType::Number));
    assert!(is_primitive(&PropertyType::String));
    assert!(is_primitive(&PropertyType::Decimal));
    assert!(is_primitive(&PropertyType::Datetime));
    assert!(is_primitive(&PropertyType::Duration));
    assert!(is_primitive(&PropertyType::IpAddr));
    assert!(is_primitive(&PropertyType::Null));
    assert!(is_primitive(&PropertyType::Unknown));

    assert!(!is_primitive(&PropertyType::Enum {
        variants: vec!["a".into()]
    }));
    assert!(!is_primitive(&PropertyType::Array {
        element_ty: Box::new(PropertyType::String)
    }));
    assert!(!is_primitive(&PropertyType::Object {
        properties: vec![],
        additional_properties: None
    }));
    assert!(!is_primitive(&PropertyType::Ref { name: "Foo".into() }));
    assert!(!is_primitive(&PropertyType::Tuple {
        types: vec![PropertyType::String]
    }));
    assert!(!is_primitive(&PropertyType::Union {
        types: vec![PropertyType::String]
    }));
}

#[test]
fn test_leaf_record_fingerprint_equality() {
    let fp1 = leaf(
        "config",
        vec![
            ("host", PropertyType::String, true),
            ("port", PropertyType::Integer, true),
        ],
    );
    let fp2 = leaf(
        "config",
        vec![
            ("host", PropertyType::String, true),
            ("port", PropertyType::Integer, true),
        ],
    );
    assert!(fp1.same_as(&fp2));
}

#[test]
fn test_leaf_record_fingerprint_different_name() {
    let fp1 = leaf("config", vec![("host", PropertyType::String, true)]);
    let fp2 = leaf("settings", vec![("host", PropertyType::String, true)]);
    assert!(!fp1.same_as(&fp2));
}

#[test]
fn test_leaf_record_fingerprint_different_field_names() {
    let fp1 = leaf("config", vec![("host", PropertyType::String, true)]);
    let fp2 = leaf("config", vec![("url", PropertyType::String, true)]);
    assert!(!fp1.same_as(&fp2));
}

#[test]
fn test_leaf_record_fingerprint_different_field_types() {
    let fp1 = leaf("config", vec![("port", PropertyType::Integer, true)]);
    let fp2 = leaf("config", vec![("port", PropertyType::String, true)]);
    assert!(!fp1.same_as(&fp2));
}

#[test]
fn test_leaf_record_fingerprint_different_required() {
    let fp1 = leaf("config", vec![("host", PropertyType::String, true)]);
    let fp2 = leaf("config", vec![("host", PropertyType::String, false)]);
    assert!(!fp1.same_as(&fp2));
}

#[test]
fn test_leaf_record_fingerprint_not_equal_to_enum() {
    let fp_record = leaf("status", vec![("code", PropertyType::Integer, true)]);
    let fp_enum = EntityTypeFingerprint::Enum {
        base_name: "status".to_string(),
        variants: vec!["active".into()],
    };
    assert!(!fp_record.same_as(&fp_enum));
}

#[test]
fn test_leaf_record_fingerprint_hash_consistency() {
    let fp1 = leaf(
        "config",
        vec![
            ("host", PropertyType::String, true),
            ("port", PropertyType::Integer, false),
        ],
    );
    let fp2 = fp1.deep_copy();

    let mut h1 = DefaultHasher::new();
    let mut h2 = DefaultHasher::new();
    fp1.hash(&mut h1);
    fp2.hash(&mut h2);
    assert_eq!(h1.finish(), h2.finish());
}

#[test]
fn leaf_record_fields_are_sorted_by_name() {
    let props = vec![
        prop("port", PropertyType::Integer, false),
        prop("host", PropertyType::String, true),
        prop("mode", PropertyType::Bool, true),
    ];
    let fp = EntityTypeFingerprint::new_leaf_record("config".to_string(), &props);
    let expected = leaf(
        "config",
        vec![
            ("host", PropertyType::String, true),
            ("mode", PropertyType::Bool, true),
            ("port", PropertyType::Integer, false),
        ],
    );
    assert!(fp.same_as(&expected));
    assert_eq!(fp.base_name(), "config");
}

#[test]
fn leaf_records_are_objects_of_primitives_only() {
    let flat = PropertyType::Object {
        properties: vec![prop("a", PropertyType::String, true)],
        additional_properties: None,
    };
    assert!(is_leaf_record(&flat));
    let empty = PropertyType::Object {
        properties: vec![],
        additional_properties: None,
    };
    assert!(!is_leaf_record(&empty));
    let nested = PropertyType::Object {
        properties: vec![prop("a", enum_type(&["x"]), true)],
        additional_properties: None,
    };
    assert!(!is_leaf_record(&nested));
    let open = PropertyType::Object {
        properties: vec![prop("a", PropertyType::String, true)],
        additional_properties: Some(Box::new(PropertyType::String)),
    };
    assert!(!is_leaf_record(&open));
    assert!(!is_leaf_record(&PropertyType::String));
}

#[test]
fn lca_is_the_longest_common_prefix() {
    assert_eq!(
        compute_lca(&[ns(&["A", "B", "C"]), ns(&["A", "B", "D"])]),
        ns(&["A", "B"])
    );
    assert_eq!(
        compute_lca(&[ns(&["A", "B", "C"]), ns(&["A", "D", "E"])]),
        ns(&["A"])
    );
    assert_eq!(
        compute_lca(&[ns(&["A", "B"]), ns(&["A", "B"])]),
        ns(&["A", "B"])
    );
    assert_eq!(
        compute_lca(&[
            ns(&["S", "t1", "Input"]),
            ns(&["S", "t2", "Input"]),
            ns(&["S", "t3", "Output"])
        ]),
        ns(&["S"])
    );
}

#[test]
fn lca_of_unrelated_or_global_namespaces_is_global() {
    assert_eq!(compute_lca(&[]), None);
    assert_eq!(compute_lca(&[ns(&["A"]), None]), None);
    assert_eq!(compute_lca(&[ns(&["A", "B"]), ns(&["C", "B"])]), None);
}

#[test]
fn duplicates_are_fingerprints_seen_twice() {
    let mut map = DeduplicationMap::new();
    let colour = || EntityTypeFingerprint::Enum {
        base_name: "colour".to_string(),
        variants: vec!["red".to_string(), "green".to_string()],
    };
    let size = EntityTypeFingerprint::Enum {
        base_name: "size".to_string(),
        variants: vec!["small".to_string()],
    };
    map.record(colour(), ns(&["S", "a", "Input"]));
    map.record(size, ns(&["S", "a", "Input"]));
    map.record(colour(), ns(&["S", "b", "Input"]));
    let resolved = map.resolve_duplicates();
    assert_eq!(resolved.len(), 1);
    assert!(resolved[0].0.same_as(&colour()));
    assert_eq!(resolved[0].1.lca_namespace, ns(&["S"]));
    assert_eq!(
        resolved[0].1.source_namespaces,
        vec![ns(&["S", "a", "Input"]), ns(&["S", "b", "Input"])]
    );
}

#[test]
fn enums_with_other_variant_order_are_not_duplicates() {
    let mut map = DeduplicationMap::new();
    map.record(
        EntityTypeFingerprint::Enum {
            base_name: "colour".to_string(),
            variants: vec!["red".to_string(), "green".to_string()],
        },
        ns(&["S", "a"]),
    );
    map.record(
        EntityTypeFingerprint::Enum {
            base_name: "colour".to_string(),
            variants: vec!["green".to_string(), "red".to_string()],
        },
        ns(&["S", "b"]),
    );
    assert!(map.resolve_duplicates().is_empty());
}

#[test]
fn collecting_looks_into_nested_types() {
    // { mode: enum, opts: { level: enum, host: string }, pair: [enum, int],
    //   addr: { host: string } }, with the type definition shade: enum
    let opts = PropertyType::Object {
        properties: vec![
            prop("level", enum_type(&["low", "high"]), true),
            prop("host", PropertyType::String, true),
        ],
        additional_properties: None,
    };
    let pair = PropertyType::Tuple {
        types: vec![enum_type(&["x"]), PropertyType::Integer],
    };
    let addr = PropertyType::Object {
        properties: vec![prop("host", PropertyType::String, true)],
        additional_properties: None,
    };
    let params = Parameters::new(
        vec![
            prop("mode", enum_type(&["on", "off"]), true),
            prop("opts", opts, true),
            prop("pair", pair, false),
            prop("addr", addr, true),
        ],
        vec![PropertyTypeDef::new(
            "shade".to_string(),
            enum_type(&["dark"]),
            None,
        )],
    );
    let mut map = DeduplicationMap::new();
    let input = ns(&["S", "tool", "Input"]);
    collect_enum_fingerprints(&params, &input, &mut map);
    collect_enum_fingerprints(&params, &ns(&["S", "other", "Input"]), &mut map);
    let resolved = map.resolve_duplicates();
    // mode, opts::level, pair::Proj0, the leaf record addr, shade
    assert_eq!(resolved.len(), 5);
    let names: Vec<String> = resolved.iter().map(|(fp, _)| fp.base_name().clone()).collect();
    assert_eq!(names, vec!["mode", "level", "Proj0", "addr", "shade"]);
    // opts::level was seen in S::tool::Input::opts and S::other::Input::opts
    assert_eq!(resolved[1].1.lca_namespace, ns(&["S"]));
    assert_eq!(
        resolved[1].1.source_namespaces,
        vec![
            ns(&["S", "tool", "Input", "opts"]),
            ns(&["S", "other", "Input", "opts"])
        ]
    );
    assert_eq!(
        resolved[2].1.source_namespaces,
        vec![
            ns(&["S", "tool", "Input", "pair"]),
            ns(&["S", "other", "Input", "pair"])
        ]
    );
    assert_eq!(
        resolved[3].1.source_namespaces,
        vec![ns(&["S", "tool", "Input"]), ns(&["S", "other", "Input"])]
    );
}

#[test]
fn collecting_skips_empty_enums_and_reserved_names() {
    let mut map = DeduplicationMap::new();
    for n in [ns(&["A"]), ns(&["B"])] {
        collect_enum_fingerprints_from_property_type("e", &enum_type(&[]), &n, &mut map);
        collect_enum_fingerprints_from_property_type("if", &enum_type(&["a"]), &n, &mut map);
        collect_enum_fingerprints_from_property_type(
            "arr",
            &PropertyType::Array {
                element_ty: Box::new(enum_type(&["a"])),
            },
            &n,
            &mut map,
        );
    }
    let resolved = map.resolve_duplicates();
    assert_eq!(resolved.len(), 1);
    assert_eq!(resolved[0].0.base_name(), "arr");
    assert_eq!(resolved[0].1.lca_namespace, None);
}

#[test]
fn leaf_record_fields_do_not_depend_on_property_order() {
    let fp1 = EntityTypeFingerprint::new_leaf_record(
        "config".to_string(),
        &[
            prop("port", PropertyType::Integer, true),
            prop("host", PropertyType::String, false),
            prop("debug", PropertyType::Bool, true),
        ],
    );
    let fp2 = EntityTypeFingerprint::new_leaf_record(
        "config".to_string(),
        &[
            prop("debug", PropertyType::Bool, true),
            prop("host", PropertyType::String, false),
            prop("port", PropertyType::Integer, true),
        ],
    );
    assert!(fp1.same_as(&fp2));
}
