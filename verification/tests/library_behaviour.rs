use gts_cli::attrs::{attrs_from_groups, parse_macro_attrs, BaseAttr};
use gts_cli::attrs::skipped_const_values;
use gts_cli::const_values::{parse_const_values_cli, skipped_const_entries, unescape_rust_str};
use gts_cli::extract::{const_value_warnings, extract_schemas};
use gts_cli::filters::{
    glob_to_regex, has_ignore_directive, is_in_auto_ignored_dir, matches_glob_pattern,
    should_exclude_path, SkipReason,
};
use gts_cli::json::JsonValue;
use gts_cli::schema::{build_json_schema, derive_parent_schema_id, sort_names};
use gts_cli::types::{gts_prefix, rust_type_to_json_schema};
use serde_json::Value;

fn to_value(j: &JsonValue) -> Value {
    match j {
        JsonValue::Null => Value::Null,
        JsonValue::Bool(b) => Value::Bool(*b),
        JsonValue::Int(n) => Value::Number((*n).into()),
        JsonValue::Str(s) => Value::String(s.clone()),
        JsonValue::Bare(s) => match s.parse::<f64>().ok().and_then(serde_json::Number::from_f64) {
            Some(n) => Value::Number(n),
            None => Value::String(s.clone()),
        },
        JsonValue::Array(items) => Value::Array(items.iter().map(to_value).collect()),
        JsonValue::Object(entries) => Value::Object(
            entries
                .iter()
                .map(|(k, v)| (k.clone(), to_value(v)))
                .collect(),
        ),
    }
}

fn entries(v: &[(String, JsonValue)]) -> Vec<(String, Value)> {
    v.iter().map(|(k, j)| (k.clone(), to_value(j))).collect()
}

fn keys(v: &[(String, JsonValue)]) -> Vec<String> {
    v.iter().map(|(k, _)| k.clone()).collect()
}

fn fields(pairs: &[(&str, &str)]) -> Vec<(String, String)> {
    pairs
        .iter()
        .map(|(k, t)| ((*k).to_owned(), (*t).to_owned()))
        .collect()
}

fn s(x: &str) -> Value {
    Value::String(x.to_owned())
}

// ---------------------------------------------------------------------------
// Glob patterns and path filters
// ---------------------------------------------------------------------------

#[test]
fn glob_to_regex_rewrites_wildcards() {
    assert_eq!(glob_to_regex("**/test.rs"), r"(^|/).*/test\.rs($|/)");
    assert_eq!(glob_to_regex("*.tmp"), r"(^|/)[^/]*\.tmp($|/)");
    assert_eq!(glob_to_regex("compile_fail"), "(^|/)compile_fail($|/)");
    assert_eq!(glob_to_regex(""), "(^|/)($|/)");
}

#[test]
fn glob_star_does_not_cross_directories() {
    assert!(matches_glob_pattern("src/tests/foo.rs", "tests/*"));
    assert!(!matches_glob_pattern("src/tests/sub/foo.rs", "tests/*.rs"));
    assert!(matches_glob_pattern("src/tests/sub/foo.rs", "tests/**"));
}

#[test]
fn glob_matches_whole_components_only() {
    assert!(!matches_glob_pattern("src/my_compile_fail/x.rs", "compile_fail"));
    assert!(matches_glob_pattern("compile_fail", "compile_fail"));
    // A dot in the pattern is literal.
    assert!(!matches_glob_pattern("src/fileXtmp", "*.tmp"));
}

#[test]
fn glob_with_invalid_regex_falls_back_to_containment() {
    // "[" makes an unclosed character class: the path is searched for the
    // pattern text instead.
    assert!(matches_glob_pattern("dir/a[b.rs", "["));
    assert!(!matches_glob_pattern("dir/ab.rs", "["));
}

#[test]
fn exclude_is_any_pattern_matching() {
    let patterns = vec!["nothing_here".to_owned(), "*.tmp".to_owned()];
    assert!(should_exclude_path("a/b/c.tmp", &patterns));
    assert!(!should_exclude_path("a/b/c.rs", &patterns));
    let one = vec!["*.tmp".to_owned()];
    assert_eq!(
        should_exclude_path("x.tmp", &one),
        matches_glob_pattern("x.tmp", "*.tmp")
    );
}

#[test]
fn auto_ignored_dir_needs_an_exact_component() {
    assert!(is_in_auto_ignored_dir("compile_fail"));
    assert!(is_in_auto_ignored_dir("/abs/compile_fail/x.rs"));
    assert!(is_in_auto_ignored_dir("a//compile_fail/"));
    assert!(!is_in_auto_ignored_dir("a/compile_fail_x/b.rs"));
    assert!(!is_in_auto_ignored_dir("a/xcompile_fail/b.rs"));
    assert!(!is_in_auto_ignored_dir(""));
}

// ---------------------------------------------------------------------------
// Ignore directive
// ---------------------------------------------------------------------------

#[test]
fn ignore_directive_after_comments_and_attributes() {
    assert!(has_ignore_directive(
        "#![allow(dead_code)]\n\n// note\n   // Gts:Ignore please\nfn x() {}"
    ));
    assert!(has_ignore_directive("  // gts:ignore  "));
}

#[test]
fn ignore_directive_blocked_by_code_line() {
    assert!(!has_ignore_directive("fn x() {}\n// gts:ignore"));
    assert!(!has_ignore_directive("let a = 1; // gts:ignore"));
}

#[test]
fn ignore_directive_only_in_first_ten_lines() {
    let mut nine = String::new();
    for _ in 0..9 {
        nine.push_str("// comment\n");
    }
    let within = format!("{nine}// gts:ignore\n");
    assert!(has_ignore_directive(&within));
    let beyond = format!("{nine}// comment\n// gts:ignore\n");
    assert!(!has_ignore_directive(&beyond));
}

#[test]
fn ignore_directive_empty_content() {
    assert!(!has_ignore_directive(""));
    assert!(!has_ignore_directive("// gts:ign"));
}

#[test]
fn skip_reasons_describe_themselves() {
    assert_eq!(
        SkipReason::ExcludePattern.describe(),
        "matched --exclude pattern"
    );
    assert_eq!(
        SkipReason::AutoIgnoredDir.describe(),
        "in auto-ignored directory (compile_fail)"
    );
    assert_eq!(
        SkipReason::IgnoreDirective.describe(),
        "has // gts:ignore directive"
    );
}

// ---------------------------------------------------------------------------
// Unescaping and const_values
// ---------------------------------------------------------------------------

#[test]
fn unescape_decodes_known_escapes() {
    assert_eq!(unescape_rust_str(r#"a\"b"#), "a\"b");
    assert_eq!(unescape_rust_str(r"x\\y"), r"x\y");
    assert_eq!(unescape_rust_str(r"\n\t\'"), "\n\t'");
    // `\r` is not among the decoded escapes: both characters stay.
    assert_eq!(unescape_rust_str(r"a\rb"), r"a\rb");
    assert_eq!(unescape_rust_str(r"keep\q"), r"keep\q");
    assert_eq!(unescape_rust_str("end\\"), "end\\");
}

#[test]
fn unescape_leaves_plain_text() {
    assert_eq!(unescape_rust_str("plain text, no escapes"), "plain text, no escapes");
    assert_eq!(unescape_rust_str(""), "");
}

#[test]
fn const_values_skip_malformed_in_the_middle() {
    let r = entries(&parse_const_values_cli("bar,baz=2"));
    assert_eq!(r, vec![("baz".to_owned(), Value::Number(2.into()))]);
    let r = entries(&parse_const_values_cli("a=1, junk ,  b=2"));
    assert_eq!(
        r,
        vec![
            ("a".to_owned(), Value::Number(1.into())),
            ("b".to_owned(), Value::Number(2.into())),
        ]
    );
    assert!(parse_const_values_cli("nothing").is_empty());
}

#[test]
fn const_values_empty_key_stops() {
    assert!(parse_const_values_cli("=5,a=1").is_empty());
    assert_eq!(keys(&parse_const_values_cli("a=1,=2,b=3")), vec!["a".to_owned()]);
}

#[test]
fn const_values_literals() {
    let r = entries(&parse_const_values_cli(
        "a=+7, b= 12 ,c=9223372036854775807,d=-9223372036854775808,e=True,f=",
    ));
    assert_eq!(r[0].1, Value::Number(7.into()));
    assert_eq!(r[1].1, Value::Number(12.into()));
    assert_eq!(r[2].1, Value::Number(i64::MAX.into()));
    assert_eq!(r[3].1, Value::Number(i64::MIN.into()));
    assert_eq!(r[4].1, s("True"));
    assert_eq!(r[5].1, s(""));
    assert_eq!(r.len(), 6);
}

#[test]
fn const_values_beyond_i64_is_a_float() {
    let r = parse_const_values_cli("n=9223372036854775808");
    assert!(matches!(&r[0].1, JsonValue::Bare(t) if t == "9223372036854775808"));
    let n = serde_json::Number::from_f64(9_223_372_036_854_775_808.0_f64).unwrap();
    assert_eq!(to_value(&r[0].1), Value::Number(n));
}

#[test]
fn const_values_quoted_forms() {
    let r = entries(&parse_const_values_cli(r"a='x\\', b='open"));
    assert_eq!(r[0], ("a".to_owned(), s(r"x\")));
    assert_eq!(r[1], ("b".to_owned(), s("open")));
    let r = entries(&parse_const_values_cli(r"c='a\zb'"));
    assert_eq!(r[0].1, s(r"a\zb"));
    let r = entries(&parse_const_values_cli("d='',e=1"));
    assert_eq!(r[0].1, s(""));
    assert_eq!(r[1].1, Value::Number(1.into()));
}

#[test]
fn const_values_keep_duplicates_in_order() {
    assert_eq!(
        keys(&parse_const_values_cli("a=1,a=2")),
        vec!["a".to_owned(), "a".to_owned()]
    );
}

// ---------------------------------------------------------------------------
// Attributes
// ---------------------------------------------------------------------------

#[test]
fn attrs_from_groups_requires_dir_schema_and_base() {
    let none = attrs_from_groups(
        Some("d".to_owned()),
        Some("gts.x.a.v1~".to_owned()),
        None,
        None,
        None,
        false,
        None,
    );
    assert!(none.is_none());
    assert!(attrs_from_groups(None, Some("x".to_owned()), None, None, None, true, None).is_none());
    assert!(attrs_from_groups(Some("d".to_owned()), None, None, None, None, true, None).is_none());
}

#[test]
fn attrs_from_groups_base_true_wins() {
    let a = attrs_from_groups(
        Some("d".to_owned()),
        Some("id~".to_owned()),
        Some("desc".to_owned()),
        Some("a,b".to_owned()),
        Some(r"m='it\\'s'".to_owned()),
        true,
        Some("Parent".to_owned()),
    )
    .unwrap();
    assert!(matches!(a.base, BaseAttr::IsBase));
    assert_eq!(a.description.as_deref(), Some("desc"));
    assert_eq!(a.properties.as_deref(), Some("a,b"));
    assert_eq!(entries(&a.const_values), vec![("m".to_owned(), s("it's"))]);
    let b = attrs_from_groups(
        Some("d".to_owned()),
        Some("id~".to_owned()),
        None,
        None,
        None,
        false,
        Some("Parent".to_owned()),
    )
    .unwrap();
    assert!(matches!(b.base, BaseAttr::Parent(ref p) if p == "Parent"));
    assert!(b.const_values.is_empty());
}

#[test]
fn attrs_base_parent_needs_capital_letter() {
    assert!(parse_macro_attrs(r#"dir_path = "d", schema_id = "x~", base = parent"#).is_none());
    let a = parse_macro_attrs(r#"dir_path = "d", schema_id = "x~", base = Parent_2"#).unwrap();
    assert!(matches!(a.base, BaseAttr::Parent(ref p) if p == "Parent_2"));
}

#[test]
fn attrs_empty_properties_and_const_values() {
    let a = parse_macro_attrs(
        r#"dir_path = "d", base = true, schema_id = "x~", properties = "", const_values = """#,
    )
    .unwrap();
    assert_eq!(a.properties.as_deref(), Some(""));
    assert!(a.const_values.is_empty());
    // An empty description is not taken.
    let b = parse_macro_attrs(r#"dir_path = "d", base = true, schema_id = "x~", description = """#)
        .unwrap();
    assert!(b.description.is_none());
}

// ---------------------------------------------------------------------------
// Parent schema ids
// ---------------------------------------------------------------------------

#[test]
fn parent_of_child_is_its_prefix() {
    assert_eq!(derive_parent_schema_id("gts.a.v1~b.v1~"), "gts.a.v1~");
    assert_eq!(derive_parent_schema_id("p~seg"), "p~");
    assert_eq!(derive_parent_schema_id("gts.a.v1~b.v1~~~"), "gts.a.v1~");
}

#[test]
fn parent_of_single_segment_is_itself() {
    assert_eq!(derive_parent_schema_id("gts.a.v1~"), "gts.a.v1~");
    assert_eq!(derive_parent_schema_id("no_tilde"), "no_tilde");
    assert_eq!(derive_parent_schema_id(""), "");
    assert_eq!(derive_parent_schema_id("~~"), "~~");
}

// ---------------------------------------------------------------------------
// Field types
// ---------------------------------------------------------------------------

#[test]
fn optional_field_admits_null() {
    let (req, schema) = rust_type_to_json_schema("Option<Vec<String>>");
    assert!(!req);
    assert_eq!(
        to_value(&schema),
        serde_json::from_str::<Value>(r#"{"type": ["array", "null"]}"#).unwrap()
    );
    let (req, schema) = rust_type_to_json_schema("  Option< u64 >  ");
    assert!(!req);
    assert_eq!(to_value(&schema)["type"][0], "integer");
    let (_, schema) = rust_type_to_json_schema("Option<Uuid>");
    assert_eq!(
        to_value(&schema),
        serde_json::from_str::<Value>(r#"{"type": ["string", "null"]}"#).unwrap()
    );
}

#[test]
fn optional_without_closing_bracket() {
    // Not a well-formed `Option<...>`: the whole text is the inner type.
    let (req, schema) = rust_type_to_json_schema("Option<String");
    assert!(!req);
    assert_eq!(to_value(&schema)["type"][0], "object");
}

#[test]
fn field_type_schemas() {
    let check = |t: &str, expected: &str| {
        let (req, schema) = rust_type_to_json_schema(t);
        assert!(req, "{t}");
        assert_eq!(
            to_value(&schema),
            serde_json::from_str::<Value>(expected).unwrap(),
            "{t}"
        );
    };
    check("&str", r#"{"type": "string"}"#);
    check("usize", r#"{"type": "integer"}"#);
    check("f32", r#"{"type": "number"}"#);
    check("BTreeMap<String, u8>", r#"{"type": "object"}"#);
    check("uuid::Uuid", r#"{"type": "string", "format": "uuid"}"#);
    check(
        "Vec<Vec<i8>>",
        r#"{"type": "array", "items": {"type": "array", "items": {"type": "integer"}}}"#,
    );
    // Without the closing `>` the item type reads `string`, an unknown type.
    check("Vec<", r#"{"type": "array", "items": {"type": "object"}}"#);
}

#[test]
fn gts_identifier_schemas() {
    let prefix = gts_prefix();
    assert_eq!(prefix, "gts.");
    let (req, schema) = rust_type_to_json_schema("GtsSchemaId");
    assert!(req);
    let v = to_value(&schema);
    assert_eq!(v["type"], "string");
    assert_eq!(v["format"], "gts-type-id");
    assert_eq!(v["title"], "GTS Type ID");
    assert_eq!(v["description"], "GTS type identifier");
    assert_eq!(v["x-gts-ref"], "gts.*");
    let (_, schema) = rust_type_to_json_schema("Option<GtsInstanceId>");
    assert_eq!(
        to_value(&schema),
        serde_json::from_str::<Value>(r#"{"type": ["string", "null"]}"#).unwrap()
    );
}

// ---------------------------------------------------------------------------
// Schemas
// ---------------------------------------------------------------------------

#[test]
fn sort_names_orders_by_code_point() {
    let v = vec![
        "b".to_owned(),
        "a".to_owned(),
        "B".to_owned(),
        "ab".to_owned(),
        "a".to_owned(),
    ];
    assert_eq!(
        sort_names(v),
        vec![
            "B".to_owned(),
            "a".to_owned(),
            "a".to_owned(),
            "ab".to_owned(),
            "b".to_owned()
        ]
    );
}

#[test]
fn required_is_sorted_and_skips_optional() {
    let ft = fields(&[
        ("zeta", "String"),
        ("alpha", "Option<String>"),
        ("mid", "i32"),
        ("beta", "bool"),
    ]);
    let schema = to_value(&build_json_schema(
        "gts.x.t.v1~",
        "T",
        None,
        None,
        &BaseAttr::IsBase,
        &ft,
        &[],
        None,
    ));
    assert_eq!(
        schema["required"],
        serde_json::from_str::<Value>(r#"["beta", "mid", "zeta"]"#).unwrap()
    );
    assert!(schema.get("description").is_none());
}

#[test]
fn properties_list_selects_known_fields() {
    let ft = fields(&[("a", "String"), ("b", "Option<i32>"), ("c", "bool")]);
    let schema = to_value(&build_json_schema(
        "gts.x.t.v1~",
        "T",
        None,
        Some(" b , missing,a"),
        &BaseAttr::IsBase,
        &ft,
        &[],
        None,
    ));
    let props = schema["properties"].as_object().unwrap();
    assert_eq!(props.len(), 2);
    assert!(props.contains_key("a") && props.contains_key("b"));
    assert_eq!(
        schema["required"],
        serde_json::from_str::<Value>(r#"["a"]"#).unwrap()
    );
}

#[test]
fn base_without_required_fields_has_no_required_key() {
    let ft = fields(&[("a", "Option<String>")]);
    let schema = to_value(&build_json_schema(
        "gts.x.t.v1~",
        "T",
        None,
        None,
        &BaseAttr::IsBase,
        &ft,
        &[],
        None,
    ));
    assert!(schema.get("required").is_none());
    assert!(schema.get("allOf").is_none());
    assert_eq!(schema["properties"]["a"]["type"][1], "null");
}

#[test]
fn child_consts_override_and_inject_type() {
    let ft = fields(&[("status", "i32")]);
    let schema = to_value(&build_json_schema(
        "gts.x.base.v1~x.child.v1~",
        "Child",
        None,
        None,
        &BaseAttr::Parent("Base".to_owned()),
        &ft,
        &[
            ("status".to_owned(), JsonValue::Int(400)),
            ("type".to_owned(), JsonValue::Str("manual".to_owned())),
            ("ratio".to_owned(), JsonValue::Bare("0.5".to_owned())),
        ],
        Some("type"),
    ));
    let all_of = schema["allOf"].as_array().unwrap();
    assert_eq!(all_of[0]["$ref"], "gts://gts.x.base.v1~");
    let props = all_of[1]["properties"].as_object().unwrap();
    // A const value replaces the field's own schema.
    assert_eq!(
        props["status"],
        serde_json::from_str::<Value>(r#"{"const": 400}"#).unwrap()
    );
    // A const for the identifier field replaces the injected one.
    assert_eq!(props["type"]["const"], "manual");
    assert_eq!(props["ratio"]["const"], 0.5);
    // The required list still names the field.
    assert_eq!(
        all_of[1]["required"],
        serde_json::from_str::<Value>(r#"["status"]"#).unwrap()
    );
    assert!(schema.get("properties").is_none());
    assert!(schema.get("additionalProperties").is_none());
}

#[test]
fn child_without_description_or_required() {
    let schema = to_value(&build_json_schema(
        "gts.x.base.v1~x.child.v1~",
        "Child",
        None,
        Some(""),
        &BaseAttr::Parent("Base".to_owned()),
        &[],
        &[],
        None,
    ));
    assert!(schema.get("description").is_none());
    let all_of = schema["allOf"].as_array().unwrap();
    assert!(all_of[1].get("required").is_none());
    assert!(all_of[1].get("type").is_none());
    assert!(all_of[1]["properties"].as_object().unwrap().is_empty());
    assert_eq!(schema["$schema"], "http://json-schema.org/draft-07/schema#");
}

// ---------------------------------------------------------------------------
// Extraction from source text
// ---------------------------------------------------------------------------

const SOURCE: &str = r#"
use gts::GtsInstanceId;

#[struct_to_gts_schema(
    dir_path = "schemas",
    base = true,
    schema_id = "gts.x.test.base.v1~",
    description = "Base event (with parens)"
)]
#[derive(Debug)]
/// A documented struct.
pub struct BaseEvent<P> {
    pub r#type: GtsSchemaId,
    pub id: GtsInstanceId,
    pub timestamp: String,
    pub payload: P,
}

#[struct_to_gts_schema(
    dir_path = "out",
    base = BaseEvent,
    schema_id = "gts.x.test.base.v1~x.test.child.v1~",
    description = "Child event",
    const_values = "level=3,name='a, b'"
)]
pub struct ChildEvent {
    pub event_type: String,
    pub maybe: Option<i64>,
}

#[struct_to_gts_schema(dir_path = "x")]
pub struct Broken;
"#;

#[test]
fn extract_finds_annotated_structs_in_order() {
    let found = extract_schemas(SOURCE).ok().unwrap();
    assert_eq!(found.len(), 2);
    assert_eq!(found[0].schema_id, "gts.x.test.base.v1~");
    assert_eq!(found[0].struct_name, "BaseEvent");
    assert_eq!(found[0].dir_path, "schemas");
    assert_eq!(found[0].file_rel, "schemas/gts.x.test.base.v1~.schema.json");
    assert_eq!(found[1].struct_name, "ChildEvent");
    assert_eq!(
        found[1].file_rel,
        "out/gts.x.test.base.v1~x.test.child.v1~.schema.json"
    );
}

#[test]
fn extract_builds_base_schema_from_fields() {
    let found = extract_schemas(SOURCE).ok().unwrap();
    let base = to_value(&found[0].schema);
    assert_eq!(base["title"], "BaseEvent");
    assert_eq!(base["description"], "Base event (with parens)");
    let props = base["properties"].as_object().unwrap();
    assert_eq!(props.len(), 4);
    assert_eq!(props["type"]["format"], "gts-type-id");
    assert_eq!(props["id"]["format"], "gts-instance-id");
    assert_eq!(props["payload"]["type"], "object");
    assert_eq!(
        base["required"],
        serde_json::from_str::<Value>(r#"["id", "payload", "timestamp", "type"]"#).unwrap()
    );
}

#[test]
fn extract_builds_child_schema_with_consts() {
    let found = extract_schemas(SOURCE).ok().unwrap();
    let child = to_value(&found[1].schema);
    assert_eq!(child["title"], "ChildEvent (extends BaseEvent)");
    let all_of = child["allOf"].as_array().unwrap();
    assert_eq!(all_of[0]["$ref"], "gts://gts.x.test.base.v1~");
    let props = all_of[1]["properties"].as_object().unwrap();
    assert_eq!(props["type"]["const"], "gts.x.test.base.v1~x.test.child.v1~");
    assert_eq!(props["level"]["const"], 3);
    assert_eq!(props["name"]["const"], "a, b");
    assert_eq!(props["maybe"]["type"][0], "integer");
    assert_eq!(
        all_of[1]["required"],
        serde_json::from_str::<Value>(r#"["event_type"]"#).unwrap()
    );
}

#[test]
fn extract_from_plain_source_finds_nothing() {
    let found = extract_schemas("pub struct Plain { a: i32 }").ok().unwrap();
    assert!(found.is_empty());
    let found = extract_schemas("").ok().unwrap();
    assert!(found.is_empty());
}

#[test]
fn const_values_quoted_value_verbatim() {
    let r = entries(&parse_const_values_cli("msg='x, y = z'"));
    assert_eq!(r, vec![("msg".to_owned(), s("x, y = z"))]);
}

fn member<'a>(j: &'a JsonValue, key: &str) -> &'a JsonValue {
    match j {
        JsonValue::Object(entries) => &entries.iter().find(|(k, _)| k == key).unwrap().1,
        _ => panic!("not an object"),
    }
}

#[test]
fn child_properties_have_distinct_names() {
    let ft = fields(&[("a", "String"), ("type", "GtsSchemaId")]);
    let schema = build_json_schema(
        "gts.x.b.v1~x.c.v1~",
        "C",
        None,
        Some("a,a,type"),
        &BaseAttr::Parent("B".to_owned()),
        &ft,
        &[
            ("a".to_owned(), JsonValue::Int(1)),
            ("a".to_owned(), JsonValue::Int(2)),
        ],
        Some("type"),
    );
    let own = match member(&schema, "allOf") {
        JsonValue::Array(items) => &items[1],
        _ => panic!("allOf is not an array"),
    };
    let names: Vec<String> = match member(own, "properties") {
        JsonValue::Object(entries) => entries.iter().map(|(k, _)| k.clone()).collect(),
        _ => panic!("properties is not an object"),
    };
    assert_eq!(names, vec!["a".to_owned(), "type".to_owned()]);
    let v = to_value(&schema);
    assert_eq!(v["allOf"][1]["properties"]["a"]["const"], 2);
    assert_eq!(v["allOf"][1]["properties"]["type"]["const"], "gts.x.b.v1~x.c.v1~");
    // A name listed twice is required twice, as listed.
    assert_eq!(
        v["allOf"][1]["required"],
        serde_json::from_str::<Value>(r#"["a", "a", "type"]"#).unwrap()
    );
}

#[test]
fn skipped_entries_are_reported() {
    assert_eq!(skipped_const_entries("foo=1,bar,baz=2"), vec!["bar".to_owned()]);
    assert_eq!(
        skipped_const_entries(" junk , a=1,  more stuff ,b='x,y',tail"),
        vec!["junk".to_owned(), "more stuff".to_owned(), "tail".to_owned()]
    );
    assert!(skipped_const_entries("a=1,b='c, d'").is_empty());
    assert!(skipped_const_entries("").is_empty());
    // An empty key ends the reading: nothing after it is reported.
    assert!(skipped_const_entries("=1,bad").is_empty());
}

#[test]
fn skipped_entries_of_an_attribute() {
    assert_eq!(
        skipped_const_values(r#"dir_path = "d", schema_id = "x~", const_values = "a=1,oops""#),
        vec!["oops".to_owned()]
    );
    // Read even where the base is missing.
    assert_eq!(
        skipped_const_values(r#"dir_path = "d", schema_id = "x~", base = lower, const_values = "z""#),
        vec!["z".to_owned()]
    );
    // Not read where `schema_id` is missing.
    assert!(skipped_const_values(r#"dir_path = "d", const_values = "z""#).is_empty());
}

#[test]
fn const_value_warnings_follow_source_order() {
    let src = r#"
#[struct_to_gts_schema(dir_path = "d", base = true, schema_id = "a~", const_values = "x,y=1")]
pub struct A;
#[struct_to_gts_schema(dir_path = "d", base = A, schema_id = "a~b~", const_values = "p=1,q")]
pub struct B;
"#;
    assert_eq!(
        const_value_warnings(src).ok().unwrap(),
        vec!["x".to_owned(), "q".to_owned()]
    );
    assert!(const_value_warnings("").ok().unwrap().is_empty());
}

#[test]
fn base_ignores_consts_and_parent_field() {
    let ft = fields(&[("a", "String"), ("b", "Option<i32>")]);
    let plain = to_value(&build_json_schema(
        "gts.x.t.v1~",
        "T",
        Some("d"),
        None,
        &BaseAttr::IsBase,
        &ft,
        &[],
        None,
    ));
    let with_consts = to_value(&build_json_schema(
        "gts.x.t.v1~",
        "T",
        Some("d"),
        None,
        &BaseAttr::IsBase,
        &ft,
        &[("a".to_owned(), JsonValue::Int(1))],
        Some("type"),
    ));
    assert_eq!(plain, with_consts);
}

#[test]
fn vec_schema_wraps_item_schema() {
    for t in ["Option<String>", "Uuid", "GtsSchemaId", " u8 ", "Custom"] {
        let (_, item) = rust_type_to_json_schema(t);
        let (req, schema) = rust_type_to_json_schema(&format!("Vec<{t}>"));
        assert!(req, "{t}");
        let v = to_value(&schema);
        assert_eq!(v["type"], "array", "{t}");
        assert_eq!(v["items"], to_value(&item), "{t}");
    }
}

#[test]
fn directive_case_does_not_matter() {
    for c in [
        "// gts:ignore\nfn a() {}",
        "//! doc\n  // GtS:IgNoRe",
        "fn a() {}\n// gts:ignore",
        "#![x]\n\n// other\n",
    ] {
        assert_eq!(has_ignore_directive(&c.to_ascii_uppercase()), has_ignore_directive(c), "{c}");
        assert_eq!(has_ignore_directive(&c.to_ascii_lowercase()), has_ignore_directive(c), "{c}");
    }
}
