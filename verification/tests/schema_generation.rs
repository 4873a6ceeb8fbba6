use gts_cli::attrs::{parse_macro_attrs, BaseAttr};
use gts_cli::const_values::parse_const_values_cli;
use gts_cli::filters::{
    has_ignore_directive, is_in_auto_ignored_dir, matches_glob_pattern, should_exclude_path,
};
use gts_cli::json::JsonValue;
use gts_cli::schema::{build_json_schema, derive_parent_schema_id};
use gts_cli::types::rust_type_to_json_schema;
use serde_json::Value;

/// The JSON a `JsonValue` denotes; a `Bare` literal is a number where it
/// reads as a finite `f64`, and a string otherwise.
fn to_value(j: &JsonValue) -> Value {
    match j {
        JsonValue::Null => Value::Null,
        JsonValue::Bool(b) => Value::Bool(*b),
        JsonValue::Int(n) => Value::Number((*n).into()),
        JsonValue::Str(s) => Value::String(s.clone()),
        JsonValue::Bare(s) => match s.parse::<f64>().ok().and_then(serde_json::Number::from_f64) {
            Some(n) => Value::Number(n),
            None => Value::String(s.clone()),
        },
        JsonValue::Array(items) => Value::Array(items.iter().map(to_value).collect()),
        JsonValue::Object(entries) => Value::Object(
            entries
                .iter()
                .map(|(k, v)| (k.clone(), to_value(v)))
                .collect(),
        ),
    }
}

fn entries(v: &[(String, JsonValue)]) -> Vec<(String, Value)> {
    v.iter().map(|(k, j)| (k.clone(), to_value(j))).collect()
}

fn fields(pairs: &[(&str, &str)]) -> Vec<(String, String)> {
    pairs
        .iter()
        .map(|(k, t)| ((*k).to_owned(), (*t).to_owned()))
        .collect()
}

fn schema_of(t: &str) -> (bool, Value) {
    let (req, schema) = rust_type_to_json_schema(t);
    (req, to_value(&schema))
}

#[test]
fn test_matches_glob_pattern() {
    // Test simple patterns
    assert!(matches_glob_pattern(
        "src/tests/compile_fail/test.rs",
        "compile_fail"
    ));
    assert!(matches_glob_pattern(
        "tests/compile_fail/test.rs",
        "compile_fail"
    ));

    // Test wildcard patterns
    assert!(matches_glob_pattern("src/tests/foo.rs", "tests/*"));
    assert!(matches_glob_pattern("src/examples/bar.rs", "examples/*"));

    // Test double-star patterns
    assert!(matches_glob_pattern("a/b/c/d/test.rs", "**/test.rs"));
}

#[test]
fn test_is_in_auto_ignored_dir() {
    assert!(is_in_auto_ignored_dir("tests/compile_fail/test.rs"));
    assert!(is_in_auto_ignored_dir("src/compile_fail/foo.rs"));
    assert!(!is_in_auto_ignored_dir("src/models.rs"));
    assert!(!is_in_auto_ignored_dir("tests/integration.rs"));
}

#[test]
fn test_has_ignore_directive() {
    assert!(has_ignore_directive("// gts:ignore\nuse foo::bar;"));
    assert!(has_ignore_directive("// GTS:IGNORE\nuse foo::bar;"));
    assert!(has_ignore_directive(
        "//! Module doc\n// gts:ignore\nuse foo::bar;"
    ));
    assert!(!has_ignore_directive("use foo::bar;\n// gts:ignore"));
    assert!(!has_ignore_directive("use foo::bar;"));
}

#[test]
fn test_parse_macro_attrs_base_true() {
    let attr_body = r#"
            dir_path = "schemas",
            base = true,
            schema_id = "gts.x.core.events.type.v1~",
            description = "Base event type"
        "#;

    let attrs = parse_macro_attrs(attr_body).unwrap();
    assert_eq!(attrs.dir_path, "schemas");
    assert_eq!(attrs.schema_id, "gts.x.core.events.type.v1~");
    assert_eq!(attrs.description.as_deref(), Some("Base event type"));
    assert!(matches!(attrs.base, BaseAttr::IsBase));
}

#[test]
fn test_parse_macro_attrs_base_parent() {
    let attr_body = r#"
            dir_path = "schemas",
            base = BaseEventV1,
            schema_id = "gts.x.core.events.type.v1~x.core.audit.event.v1~"
        "#;

    let attrs = parse_macro_attrs(attr_body).unwrap();
    assert_eq!(attrs.dir_path, "schemas");
    assert_eq!(
        attrs.schema_id,
        "gts.x.core.events.type.v1~x.core.audit.event.v1~"
    );
    assert!(matches!(attrs.base, BaseAttr::Parent(ref p) if p == "BaseEventV1"));
}

#[test]
fn test_derive_parent_schema_id() {
    assert_eq!(
        derive_parent_schema_id("gts.x.core.events.type.v1~x.core.audit.event.v1~"),
        "gts.x.core.events.type.v1~"
    );
    assert_eq!(
        derive_parent_schema_id(
            "gts.x.core.events.type.v1~x.core.audit.event.v1~x.marketplace.orders.purchase.v1~"
        ),
        "gts.x.core.events.type.v1~x.core.audit.event.v1~"
    );
}

#[test]
fn test_rust_type_to_json_schema() {
    // Basic types
    let (req, schema) = schema_of("String");
    assert!(req);
    assert_eq!(schema["type"], "string");

    let (req, schema) = schema_of("i32");
    assert!(req);
    assert_eq!(schema["type"], "integer");

    let (req, schema) = schema_of("bool");
    assert!(req);
    assert_eq!(schema["type"], "boolean");

    // Optional types
    let (req, schema) = schema_of("Option<String>");
    assert!(!req);
    assert_eq!(schema["type"][0], "string");
    assert_eq!(schema["type"][1], "null");

    // Vec types
    let (req, schema) = schema_of("Vec<String>");
    assert!(req);
    assert_eq!(schema["type"], "array");
    assert_eq!(schema["items"]["type"], "string");

    // GTS types - inlined with the x-gts-ref extension
    let (req, schema) = schema_of("GtsInstanceId");
    assert!(req);
    assert_eq!(schema["type"], "string");
    assert_eq!(schema["format"], "gts-instance-id");
    assert_eq!(schema["x-gts-ref"], "gts.*");

    // Generic type parameter
    let (req, schema) = schema_of("P");
    assert!(req);
    assert_eq!(schema["type"], "object");
}

#[test]
fn test_should_exclude_path_matching_pattern() {
    let patterns = vec!["test_*".to_owned(), "**/target/**".to_owned()];
    assert!(should_exclude_path("src/test_helper.rs", &patterns));
}

#[test]
fn test_should_exclude_path_no_match() {
    let patterns = vec!["test_*".to_owned(), "**/compile_fail/**".to_owned()];
    assert!(!should_exclude_path("src/main.rs", &patterns));
}

#[test]
fn test_build_json_schema_base_type() {
    let field_types = fields(&[("id", "String"), ("count", "i32"), ("active", "bool")]);

    let schema = to_value(&build_json_schema(
        "gts.x.test.base.v1~",
        "BaseStruct",
        Some("A base test struct"),
        None, // Include all properties
        &BaseAttr::IsBase,
        &field_types,
        &[],
        None,
    ));

    assert_eq!(schema["$id"], "gts://gts.x.test.base.v1~");
    assert_eq!(schema["$schema"], "http://json-schema.org/draft-07/schema#");
    assert_eq!(schema["title"], "BaseStruct");
    assert_eq!(schema["type"], "object");
    assert_eq!(schema["description"], "A base test struct");
    assert_eq!(schema["additionalProperties"], false);

    // Check properties
    assert!(schema["properties"]["id"].is_object());
    assert!(schema["properties"]["count"].is_object());
    assert!(schema["properties"]["active"].is_object());

    // Check required fields (all 3 should be required)
    let required = schema["required"].as_array().unwrap();
    assert_eq!(required.len(), 3);
    assert!(required.contains(&Value::String("active".to_owned())));
    assert!(required.contains(&Value::String("count".to_owned())));
    assert!(required.contains(&Value::String("id".to_owned())));
}

#[test]
fn test_build_json_schema_child_type() {
    let field_types = fields(&[("child_field", "String"), ("optional_field", "Option<i32>")]);

    let schema = to_value(&build_json_schema(
        "gts.x.test.base.v1~x.test.child.v1~",
        "ChildStruct",
        Some("A child test struct"),
        None,
        &BaseAttr::Parent("BaseStruct".to_owned()),
        &field_types,
        &[],
        None,
    ));

    assert_eq!(schema["$id"], "gts://gts.x.test.base.v1~x.test.child.v1~");
    assert_eq!(schema["title"], "ChildStruct (extends BaseStruct)");
    assert_eq!(schema["type"], "object");
    assert_eq!(schema["description"], "A child test struct");

    // Check allOf structure
    let all_of = schema["allOf"].as_array().unwrap();
    assert_eq!(all_of.len(), 2);

    // First element should be $ref to parent
    assert_eq!(all_of[0]["$ref"], "gts://gts.x.test.base.v1~");

    // Second element should have child properties
    assert!(all_of[1]["properties"]["child_field"].is_object());
    assert!(all_of[1]["properties"]["optional_field"].is_object());

    // Check required fields (only child_field, not optional_field)
    let required = all_of[1]["required"].as_array().unwrap();
    assert_eq!(required.len(), 1);
    assert_eq!(required[0], "child_field");
}

#[test]
fn test_parse_macro_attrs_with_schema_id() {
    let attr_body = r#"
            dir_path = "schemas",
            base = true,
            schema_id = "gts.x.custom.id.v1~"
        "#;

    let attrs = parse_macro_attrs(attr_body).unwrap();
    assert_eq!(attrs.schema_id, "gts.x.custom.id.v1~");
    assert_eq!(attrs.dir_path, "schemas");
    assert!(matches!(attrs.base, BaseAttr::IsBase));
    assert!(attrs.description.is_none());
}

#[test]
fn test_rust_type_to_json_schema_option_string() {
    let (required, schema) = schema_of("Option<String>");
    assert!(!required);
    assert_eq!(schema["type"][0], "string");
    assert_eq!(schema["type"][1], "null");
}

#[test]
fn test_rust_type_to_json_schema_hashmap() {
    let (required, schema) = schema_of("HashMap<String, i32>");
    assert!(required);
    assert_eq!(schema["type"], "object");
}

#[test]
fn test_rust_type_to_json_schema_vec_bool() {
    let (required, schema) = schema_of("Vec<bool>");
    assert!(required);
    assert_eq!(schema["type"], "array");
    assert_eq!(schema["items"]["type"], "boolean");
}

#[test]
fn test_rust_type_to_json_schema_unknown_type() {
    let (required, schema) = schema_of("CustomStruct");
    assert!(required);
    assert_eq!(schema["type"], "object");
}

#[test]
fn test_should_exclude_path_with_patterns() {
    let patterns = vec!["target/**".to_owned(), "*.tmp".to_owned()];

    assert!(should_exclude_path("target/debug/foo", &patterns));
    assert!(should_exclude_path("file.tmp", &patterns));
    assert!(!should_exclude_path("src/main.rs", &patterns));
}

#[test]
fn test_should_exclude_path_empty_patterns() {
    let patterns: Vec<String> = vec![];
    assert!(!should_exclude_path("anything.rs", &patterns));
}

#[test]
fn test_is_in_auto_ignored_dir_specific_paths() {
    assert!(is_in_auto_ignored_dir("tests/compile_fail/test.rs"));
    assert!(is_in_auto_ignored_dir("src/compile_fail/foo.rs"));
    assert!(!is_in_auto_ignored_dir("target/debug"));
    assert!(!is_in_auto_ignored_dir("node_modules/pkg"));
    assert!(!is_in_auto_ignored_dir("src/main.rs"));
    assert!(!is_in_auto_ignored_dir("tests/test.rs"));
}

#[test]
fn test_has_ignore_directive_variations() {
    assert!(has_ignore_directive("// gts:ignore\nstruct Foo {}"));
    assert!(has_ignore_directive("// GTS:IGNORE\nstruct Foo {}"));
    assert!(!has_ignore_directive("struct Foo {}\nfn bar() {}"));
    assert!(!has_ignore_directive("struct Foo {}\n// gts:ignore"));
}

#[test]
fn test_parse_macro_attrs_edge_cases() {
    // With base true
    let attr1 = r#"dir_path = "schemas", base = true, schema_id = "gts.x.test.v1~""#;
    let result1 = parse_macro_attrs(attr1).unwrap();
    assert_eq!(result1.dir_path, "schemas");
    assert_eq!(result1.schema_id, "gts.x.test.v1~");
    assert!(matches!(result1.base, BaseAttr::IsBase));

    // With base parent
    let attr2 = r#"dir_path = "schemas", base = ParentStruct, schema_id = "gts.x.test.v1~""#;
    let result2 = parse_macro_attrs(attr2).unwrap();
    assert!(matches!(result2.base, BaseAttr::Parent(ref p) if p == "ParentStruct"));

    // Missing field
    assert!(parse_macro_attrs(r#"dir_path = "schemas""#).is_none());

    // Malformed
    assert!(parse_macro_attrs(r"invalid syntax here").is_none());
}

#[test]
fn test_parse_const_values_cli_bool_true() {
    let result = entries(&parse_const_values_cli("active=true"));
    assert_eq!(result.len(), 1);
    assert_eq!(result[0].0, "active");
    assert_eq!(result[0].1, Value::Bool(true));
}

#[test]
fn test_parse_const_values_cli_bool_false() {
    let result = entries(&parse_const_values_cli("enabled=false"));
    assert_eq!(result.len(), 1);
    assert_eq!(result[0].1, Value::Bool(false));
}

#[test]
fn test_parse_const_values_cli_integer() {
    let result = entries(&parse_const_values_cli("http_status=400"));
    assert_eq!(result.len(), 1);
    assert_eq!(result[0].1, Value::Number(400.into()));
}

#[test]
fn test_parse_const_values_cli_negative_integer() {
    let result = entries(&parse_const_values_cli("offset=-1"));
    assert_eq!(result.len(), 1);
    assert_eq!(result[0].1, Value::Number((-1_i64).into()));
}

#[test]
fn test_parse_const_values_cli_float() {
    let result = entries(&parse_const_values_cli("threshold=0.95"));
    assert_eq!(result.len(), 1);
    let n = serde_json::Number::from_f64(0.95_f64).unwrap();
    assert_eq!(result[0].1, Value::Number(n));
}

#[test]
fn test_parse_const_values_cli_unquoted_string() {
    let result = entries(&parse_const_values_cli("code=ERR_NOT_FOUND"));
    assert_eq!(result.len(), 1);
    assert_eq!(result[0].1, Value::String("ERR_NOT_FOUND".to_owned()));
}

#[test]
fn test_parse_const_values_cli_single_quoted_string_with_comma() {
    // Comma inside the quoted value must NOT split the entry.
    let result = entries(&parse_const_values_cli(
        "message='Invalid input: field required, value missing'",
    ));
    assert_eq!(result.len(), 1);
    assert_eq!(
        result[0].1,
        Value::String("Invalid input: field required, value missing".to_owned())
    );
}

#[test]
fn test_parse_const_values_cli_escaped_single_quote() {
    let result = entries(&parse_const_values_cli("message='can\\'t stop'"));
    assert_eq!(result.len(), 1);
    assert_eq!(result[0].1, Value::String("can't stop".to_owned()));
}

#[test]
fn test_parse_const_values_cli_multiple_entries() {
    let result = entries(&parse_const_values_cli(
        "http_status=400,message='bad request',retry=false",
    ));
    assert_eq!(result.len(), 3);
    assert_eq!(
        result[0],
        ("http_status".to_owned(), Value::Number(400.into()))
    );
    assert_eq!(
        result[1],
        ("message".to_owned(), Value::String("bad request".to_owned()))
    );
    assert_eq!(result[2], ("retry".to_owned(), Value::Bool(false)));
}

#[test]
fn test_parse_const_values_cli_empty_string() {
    // Empty input produces no entries and must not panic.
    let result = parse_const_values_cli("");
    assert!(result.is_empty());
}

#[test]
fn test_parse_const_values_cli_whitespace_only() {
    let result = parse_const_values_cli("   ");
    assert!(result.is_empty());
}

/// A malformed entry (missing `=`) is skipped, and the entries after it are
/// still read.
#[test]
fn test_parse_const_values_cli_malformed_entry_skipped() {
    let result = entries(&parse_const_values_cli("foo=1,bar,baz=2"));
    // "foo" and "baz" are valid; "bar" is malformed and skipped.
    assert_eq!(result.len(), 2, "expected foo and baz, got {result:?}");
    assert!(result.iter().any(|(k, _)| k == "foo"));
    assert!(result.iter().any(|(k, _)| k == "baz"));
}

/// A leading malformed entry does not truncate the rest.
#[test]
fn test_parse_const_values_cli_leading_malformed_entry_skipped() {
    let result = entries(&parse_const_values_cli("bad_entry,good=42"));
    assert_eq!(result.len(), 1, "expected only good, got {result:?}");
    assert_eq!(result[0].0, "good");
    assert_eq!(result[0].1, Value::Number(42.into()));
}

/// `NaN` is not a JSON number, so it stays a string.
#[test]
fn test_parse_const_values_cli_nan_falls_back_to_string() {
    let result = entries(&parse_const_values_cli("score=NaN"));
    assert_eq!(result.len(), 1);
    assert_eq!(
        result[0].1,
        Value::String("NaN".to_owned()),
        "NaN must not be coerced to 0"
    );
}

/// `inf` is not a JSON number, so it stays a string.
#[test]
fn test_parse_const_values_cli_inf_falls_back_to_string() {
    let result = entries(&parse_const_values_cli("limit=inf"));
    assert_eq!(result.len(), 1);
    assert_eq!(
        result[0].1,
        Value::String("inf".to_owned()),
        "inf must not be coerced to 0"
    );
}

#[test]
fn test_build_json_schema_three_level_hierarchy() {
    // L1 – base
    let l1_fields = fields(&[
        ("type", "GtsSchemaId"),
        ("severity", "i32"),
        ("source", "String"),
        ("payload", "P"),
    ]);

    let l1 = to_value(&build_json_schema(
        "gts.x.test.three.v1~",
        "ThreeBaseV1",
        Some("L1 base"),
        Some("type,severity,source,payload"),
        &BaseAttr::IsBase,
        &l1_fields,
        &[],
        None,
    ));
    assert_eq!(l1["$id"], "gts://gts.x.test.three.v1~");
    assert!(l1["properties"]["type"].is_object());
    assert!(l1["properties"]["payload"].is_object());
    assert!(l1["allOf"].is_null(), "base must NOT have allOf");

    // L2 – child of L1, with const_values
    let l2_fields = fields(&[("channel", "String"), ("data", "D")]);

    let l2 = to_value(&build_json_schema(
        "gts.x.test.three.v1~x.test.three.alert.v1~",
        "ThreeAlertV1",
        Some("L2 alert"),
        Some("channel,data"),
        &BaseAttr::Parent("ThreeBaseV1".to_owned()),
        &l2_fields,
        &[
            ("severity".to_owned(), JsonValue::Int(3)),
            ("source".to_owned(), JsonValue::Str("alert-svc".to_owned())),
        ],
        Some("type"), // parent's GtsSchemaId field
    ));
    assert_eq!(
        l2["$id"],
        "gts://gts.x.test.three.v1~x.test.three.alert.v1~"
    );
    let l2_allof = l2["allOf"].as_array().expect("L2 must have allOf");
    assert_eq!(l2_allof[0]["$ref"], "gts://gts.x.test.three.v1~");
    let l2_props = l2_allof[1]["properties"]
        .as_object()
        .expect("L2 allOf[1].properties");
    // auto-injected type const from parent's GtsSchemaId field
    assert_eq!(
        l2_props["type"]["const"], "gts.x.test.three.v1~x.test.three.alert.v1~",
        "type const must be auto-injected from parent's GtsSchemaId field"
    );
    // const_values
    assert_eq!(l2_props["severity"]["const"], 3);
    assert_eq!(l2_props["source"]["const"], "alert-svc");
    // own structural properties
    assert!(l2_props["channel"].is_object());
    assert!(l2_props["data"].is_object());

    // L3 – child of L2, with const_values; L2 has no GtsSchemaId field
    let l3_fields = fields(&[("to", "String"), ("subject", "String")]);

    let l3 = to_value(&build_json_schema(
        "gts.x.test.three.v1~x.test.three.alert.v1~x.test.three.email.v1~",
        "ThreeEmailV1",
        Some("L3 email"),
        Some("to,subject"),
        &BaseAttr::Parent("ThreeAlertV1".to_owned()),
        &l3_fields,
        &[("channel".to_owned(), JsonValue::Str("email".to_owned()))],
        None, // L2 has no GtsSchemaId field
    ));
    assert_eq!(
        l3["$id"],
        "gts://gts.x.test.three.v1~x.test.three.alert.v1~x.test.three.email.v1~"
    );
    let l3_allof = l3["allOf"].as_array().expect("L3 must have allOf");
    // L3 must $ref L2, not L1
    assert_eq!(
        l3_allof[0]["$ref"], "gts://gts.x.test.three.v1~x.test.three.alert.v1~",
        "L3 must reference L2 via derive_parent_schema_id"
    );
    let l3_props = l3_allof[1]["properties"]
        .as_object()
        .expect("L3 allOf[1].properties");
    // const_values
    assert_eq!(
        l3_props["channel"]["const"], "email",
        "channel const must be present in L3"
    );
    // L3 must NOT have auto-injected type const (L2 has no GtsSchemaId field)
    assert!(
        !l3_props.contains_key("type"),
        "L3 must not auto-inject type (L2 has no GtsSchemaId field)"
    );
    // own structural properties
    assert!(l3_props["to"].is_object(), "L3 must have 'to' property");
    assert!(
        l3_props["subject"].is_object(),
        "L3 must have 'subject' property"
    );
    // required
    let l3_required = l3_allof[1]["required"]
        .as_array()
        .expect("L3 must have required");
    assert!(
        l3_required.contains(&Value::String("to".to_owned())),
        "L3 required must include 'to'"
    );
    assert!(
        l3_required.contains(&Value::String("subject".to_owned())),
        "L3 required must include 'subject'"
    );
}

#[test]
fn test_derive_parent_schema_id_three_segments() {
    // 3-segment ID: derive_parent_schema_id must return the 2-segment parent
    assert_eq!(
        derive_parent_schema_id(
            "gts.x.test.three.v1~x.test.three.alert.v1~x.test.three.email.v1~"
        ),
        "gts.x.test.three.v1~x.test.three.alert.v1~"
    );
}

/// `parse_const_values_cli` is called from `parse_macro_attrs`; the
/// round-trip when `const_values` appears in a realistic attribute body.
#[test]
fn test_parse_macro_attrs_const_values_round_trip() {
    let attr_body = r#"
            dir_path = "schemas",
            base = true,
            schema_id = "gts.x.test.v1~",
            description = "Test",
            properties = "status",
            const_values = "http_status=400,message='bad request'"
        "#;
    let attrs = parse_macro_attrs(attr_body).unwrap();
    let cv = entries(&attrs.const_values);
    assert_eq!(cv.len(), 2);
    assert_eq!(cv[0].0, "http_status");
    assert_eq!(cv[0].1, Value::Number(400.into()));
    assert_eq!(cv[1].0, "message");
    assert_eq!(cv[1].1, Value::String("bad request".to_owned()));
}
