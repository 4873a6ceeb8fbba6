use gts_cli::extract::{extract_schemas, GeneratedSchema};
use gts_cli::json::JsonValue;
use gts_cli::schema::derive_parent_schema_id;
use serde_json::Value;

/// Annotated error and event types, as a crate using the attribute writes them.
const SOURCE: &str = r##"
#[struct_to_gts_schema(
    dir_path = "schemas",
    base = true,
    schema_id = "gts.x.core.err.error.v1~",
    description = "Base GTS error with HTTP status, message, trace ID and metadata",
    properties = "type,http_status,message,trace_id,metadata"
)]
#[derive(Debug)]
pub struct BaseErrorV1<M> {
    pub r#type: GtsSchemaId,
    pub http_status: i32,
    pub message: String,
    pub trace_id: String,
    pub metadata: M,
}

/* ============================================================
Error type 1 – Bad Request (400)

const_values uses single-quoted strings.
============================================================ */

#[struct_to_gts_schema(
    dir_path = "schemas",
    base = BaseErrorV1,
    schema_id = "gts.x.core.err.error.v1~x.core.http.bad_request.v1~",
    description = "HTTP 400 Bad Request",
    properties = "",
    const_values = "http_status=400,message='bad request'"
)]
#[derive(Debug)]
pub struct BadRequestMetadataV1;

impl BadRequestMetadataV1 {
    /// Create a `BaseErrorV1<Self>` with const values applied.
    /// Only `trace_id` varies per instance.
    pub fn new(trace_id: impl Into<String>) -> BaseErrorV1<Self> {
        let mut instance = Self::new_instance_with_defaults();
        instance.trace_id = trace_id.into();
        instance
    }
}

/* ============================================================
Error type 2 – Unprocessable Entity (422)

const_values message contains a comma – must be single-quoted.
============================================================ */

#[struct_to_gts_schema(
    dir_path = "schemas",
    base = BaseErrorV1,
    schema_id = "gts.x.core.err.error.v1~x.core.http.unprocessable.v1~",
    description = "HTTP 422 Unprocessable Entity",
    properties = "",
    const_values = "http_status=422,message='Invalid input: field required, value missing'"
)]
#[derive(Debug)]
pub struct UnprocessableMetadataV1;

impl UnprocessableMetadataV1 {
    pub fn new(trace_id: impl Into<String>) -> BaseErrorV1<Self> {
        let mut instance = Self::new_instance_with_defaults();
        instance.trace_id = trace_id.into();
        instance
    }
}

/* ============================================================
Error type 3 – Conflict (409)

const_values message contains an escaped single quote (\').
In the Rust string literal `\\' ` is a backslash + quote;
the parser sees `\'` and outputs a literal `'`.
============================================================ */

#[struct_to_gts_schema(
    dir_path = "schemas",
    base = BaseErrorV1,
    schema_id = "gts.x.core.err.error.v1~x.core.http.conflict.v1~",
    description = "HTTP 409 Conflict",
    properties = "",
    const_values = "http_status=409,message='Resource can\\'t be created: already exists'"
)]
#[derive(Debug)]
pub struct ConflictMetadataV1;

impl ConflictMetadataV1 {
    pub fn new(trace_id: impl Into<String>) -> BaseErrorV1<Self> {
        let mut instance = Self::new_instance_with_defaults();
        instance.trace_id = trace_id.into();
        instance
    }
}

/* ============================================================
All-Types Base for exhaustive const_values type coverage

Fields:
  - type    : GtsSchemaId – schema type field (auto-injected as const for derived)
  - count   : i32         – integer field
  - score   : f64         – floating-point field
  - enabled : bool        – boolean field
  - label   : String      – string field
  - metadata: M           – generic slot
============================================================ */

#[struct_to_gts_schema(
    dir_path = "schemas",
    base = true,
    schema_id = "gts.x.test.const.types.v1~",
    description = "Base for testing all const_values value types",
    properties = "type,count,score,enabled,label,metadata"
)]
#[derive(Debug)]
pub struct AllTypesBaseV1<M> {
    pub r#type: GtsSchemaId,
    pub count: i32,
    pub score: f64,
    pub enabled: bool,
    pub label: String,
    pub metadata: M,
}

// Integer const
#[struct_to_gts_schema(
    dir_path = "schemas",
    base = AllTypesBaseV1,
    schema_id = "gts.x.test.const.types.v1~x.test.types.int.v1~",
    description = "Integer const",
    properties = "",
    const_values = "count=42"
)]
#[derive(Debug)]
pub struct IntConstV1;

// Negative integer const
#[struct_to_gts_schema(
    dir_path = "schemas",
    base = AllTypesBaseV1,
    schema_id = "gts.x.test.const.types.v1~x.test.types.neg_int.v1~",
    description = "Negative integer const",
    properties = "",
    const_values = "count=-5"
)]
#[derive(Debug)]
pub struct NegIntConstV1;

// Float const
#[struct_to_gts_schema(
    dir_path = "schemas",
    base = AllTypesBaseV1,
    schema_id = "gts.x.test.const.types.v1~x.test.types.float.v1~",
    description = "Float const",
    properties = "",
    const_values = "score=2.5"
)]
#[derive(Debug)]
pub struct FloatConstV1;

// Bool true const
#[struct_to_gts_schema(
    dir_path = "schemas",
    base = AllTypesBaseV1,
    schema_id = "gts.x.test.const.types.v1~x.test.types.bool_true.v1~",
    description = "Bool true const",
    properties = "",
    const_values = "enabled=true"
)]
#[derive(Debug)]
pub struct BoolTrueConstV1;

// Bool false const
#[struct_to_gts_schema(
    dir_path = "schemas",
    base = AllTypesBaseV1,
    schema_id = "gts.x.test.const.types.v1~x.test.types.bool_false.v1~",
    description = "Bool false const",
    properties = "",
    const_values = "enabled=false"
)]
#[derive(Debug)]
pub struct BoolFalseConstV1;

// Single-quoted string const
#[struct_to_gts_schema(
    dir_path = "schemas",
    base = AllTypesBaseV1,
    schema_id = "gts.x.test.const.types.v1~x.test.types.str_quoted.v1~",
    description = "Single-quoted string const",
    properties = "",
    const_values = "label='hello world'"
)]
#[derive(Debug)]
pub struct StrQuotedConstV1;

// Unquoted string const (bare word, no digits/bool)
#[struct_to_gts_schema(
    dir_path = "schemas",
    base = AllTypesBaseV1,
    schema_id = "gts.x.test.const.types.v1~x.test.types.str_unquoted.v1~",
    description = "Unquoted string const",
    properties = "",
    const_values = "label=hello"
)]
#[derive(Debug)]
pub struct StrUnquotedConstV1;

// Multiple types together in a single const_values string
#[struct_to_gts_schema(
    dir_path = "schemas",
    base = AllTypesBaseV1,
    schema_id = "gts.x.test.const.types.v1~x.test.types.multi.v1~",
    description = "Multiple const types together",
    properties = "",
    const_values = "count=10,score=2.5,enabled=true,label='active'"
)]
#[derive(Debug)]
pub struct MultiTypeConstV1;

/* ============================================================
Three-level const_values – realistic event/metadata pattern

  L1 (base):    gts.x.test.three.event.v1~
                Generic base with type(GtsSchemaId), severity(i32),
                source(String), payload(P).

  L2 (derived generic):  gts.x.test.three.event.v1~x.test.three.alert.v1~
                Initialises payload to a concrete generic struct that has
                an object-typed `data` field.  Fixes severity=3 and
                source='alert-service' via const_values.

  L3 (concrete leaf):  ...~x.test.three.email.alert.v1~
                Defines the `data` object with `to` / `subject` fields.
                Fixes channel='email' via const_values.

  L3-override variant:  ...~x.test.three.sms.alert.v1~
                Same shape but sets channel='sms'.  Also demonstrates
                that attempting to override L2's severity const (severity=9)
                creates two conflicting allOf constraints.
============================================================ */

#[struct_to_gts_schema(
    dir_path = "schemas",
    base = true,
    schema_id = "gts.x.test.three.event.v1~",
    description = "Base alert event with type, severity, source, payload",
    properties = "type,severity,source,payload"
)]
#[derive(Debug)]
pub struct ThreeEventBaseV1<P> {
    pub r#type: GtsSchemaId,
    pub severity: i32,
    pub source: String,
    pub payload: P,
}

/// L2 – generic derived struct: initialises payload, sets severity=3 and source='alert-service'.
/// The `data` field is of an object type supplied by the concrete L3 struct.
#[struct_to_gts_schema(
    dir_path = "schemas",
    base = ThreeEventBaseV1,
    schema_id = "gts.x.test.three.event.v1~x.test.three.alert.v1~",
    description = "Alert event payload (severity=3, source=alert-service)",
    properties = "channel,recipient,data",
    const_values = "severity=3,source='alert-service'"
)]
#[derive(Debug)]
pub struct ThreeAlertPayloadV1<D> {
    pub channel: String,
    pub recipient: String,
    pub data: D,
}

/// L3 – concrete email-alert data struct: fixes channel='email'.
#[struct_to_gts_schema(
    dir_path = "schemas",
    base = ThreeAlertPayloadV1,
    schema_id = "gts.x.test.three.event.v1~x.test.three.alert.v1~x.test.three.email.v1~",
    description = "Email alert data (channel='email')",
    properties = "to,subject",
    const_values = "channel='email'"
)]
#[derive(Debug)]
pub struct ThreeEmailAlertDataV1 {
    pub to: String,
    pub subject: String,
}

/// Standalone base struct so `ThreeSmsAlertDataV1` can call
/// `new_instance_with_defaults()` and get channel/severity as direct fields.
#[struct_to_gts_schema(
    dir_path = "schemas",
    base = true,
    schema_id = "gts.x.test.alert.base.v1~",
    description = "Alert payload base with channel, severity, kind, data fields",
    properties = "type,channel,recipient,severity,data"
)]
#[derive(Debug)]
pub struct ThreeAlertBaseV1<D> {
    pub r#type: GtsSchemaId,
    pub channel: String,
    pub recipient: String,
    pub severity: i32,
    pub data: D,
}

/// L3-sms: unit struct extending `ThreeAlertBaseV1` – fixes channel, severity, kind as const.
/// Demonstrates: (a) `const_values` on a concrete leaf, (b) instance construction via
/// `new_instance_with_defaults()`, (c) conflicting const when severity is also constrained upstream.
#[struct_to_gts_schema(
    dir_path = "schemas",
    base = ThreeAlertBaseV1,
    schema_id = "gts.x.test.alert.base.v1~x.test.three.sms.v1~",
    description = "SMS alert unit struct (channel='sms', severity=9, kind='traffic')",
    properties = "",
    const_values = "channel='sms',severity=9,kind='traffic'"
)]
pub struct ThreeSmsAlertDataV1 {
    pub kind: String,
}
"##;

fn to_value(j: &JsonValue) -> Value {
    match j {
        JsonValue::Null => Value::Null,
        JsonValue::Bool(b) => Value::Bool(*b),
        JsonValue::Int(n) => Value::Number((*n).into()),
        JsonValue::Str(s) => Value::String(s.clone()),
        JsonValue::Bare(s) => match s.parse::<f64>().ok().and_then(serde_json::Number::from_f64) {
            Some(n) => Value::Number(n),
            None => Value::String(s.clone()),
        },
        JsonValue::Array(items) => Value::Array(items.iter().map(to_value).collect()),
        JsonValue::Object(entries) => Value::Object(
            entries
                .iter()
                .map(|(k, v)| (k.clone(), to_value(v)))
                .collect(),
        ),
    }
}

fn extracted() -> Vec<GeneratedSchema> {
    extract_schemas(SOURCE).ok().unwrap()
}

fn generated(name: &str) -> (String, Value) {
    let found = extracted();
    let g = found.iter().find(|g| g.struct_name == name).unwrap();
    (g.schema_id.clone(), to_value(&g.schema))
}

fn schema_of(name: &str) -> Value {
    generated(name).1
}

fn id_of(name: &str) -> String {
    generated(name).0
}

fn json_num(n: i64) -> Value {
    Value::Number(n.into())
}

fn json_str(s: &str) -> Value {
    Value::String(s.to_owned())
}

#[test]
fn annotated_structs_are_all_found() {
    let names: Vec<String> = extracted().iter().map(|g| g.struct_name.clone()).collect();
    assert_eq!(
        names,
        vec![
            "BaseErrorV1",
            "BadRequestMetadataV1",
            "UnprocessableMetadataV1",
            "ConflictMetadataV1",
            "AllTypesBaseV1",
            "IntConstV1",
            "NegIntConstV1",
            "FloatConstV1",
            "BoolTrueConstV1",
            "BoolFalseConstV1",
            "StrQuotedConstV1",
            "StrUnquotedConstV1",
            "MultiTypeConstV1",
            "ThreeEventBaseV1",
            "ThreeAlertPayloadV1",
            "ThreeEmailAlertDataV1",
            "ThreeAlertBaseV1",
            "ThreeSmsAlertDataV1",
        ]
    );
}

#[test]
fn test_error_schema_ids() {
    assert_eq!(id_of("BaseErrorV1"), "gts.x.core.err.error.v1~");

    assert_eq!(
        id_of("BadRequestMetadataV1"),
        "gts.x.core.err.error.v1~x.core.http.bad_request.v1~"
    );
    assert_eq!(
        derive_parent_schema_id(&id_of("BadRequestMetadataV1")),
        "gts.x.core.err.error.v1~"
    );

    assert_eq!(
        id_of("UnprocessableMetadataV1"),
        "gts.x.core.err.error.v1~x.core.http.unprocessable.v1~"
    );
    assert_eq!(
        id_of("ConflictMetadataV1"),
        "gts.x.core.err.error.v1~x.core.http.conflict.v1~"
    );
}

#[test]
fn test_base_error_schema_structure() {
    let schema = schema_of("BaseErrorV1");

    assert!(schema.get("allOf").is_none(), "Base must not have allOf");
    assert_eq!(schema["$id"], "gts://gts.x.core.err.error.v1~");

    let props = schema["properties"].as_object().unwrap();
    assert!(props.contains_key("type"), "missing type");
    assert!(props.contains_key("http_status"), "missing http_status");
    assert!(props.contains_key("message"), "missing message");
    assert!(props.contains_key("trace_id"), "missing trace_id");
    assert!(props.contains_key("metadata"), "missing metadata");
    assert!(!props.contains_key("gts_id"), "gts_id must not exist");
}

#[test]
fn test_bad_request_schema_const_values() {
    let schema = schema_of("BadRequestMetadataV1");

    let props = schema["allOf"][1]["properties"].as_object().unwrap();
    assert_eq!(props["http_status"]["const"], 400);
    assert_eq!(props["message"]["const"], "bad request");
    assert_eq!(
        props["type"]["const"],
        "gts.x.core.err.error.v1~x.core.http.bad_request.v1~"
    );
}

#[test]
fn test_unprocessable_schema_message_with_comma() {
    let schema = schema_of("UnprocessableMetadataV1");

    let props = schema["allOf"][1]["properties"].as_object().unwrap();
    assert_eq!(props["http_status"]["const"], 422);
    assert_eq!(
        props["message"]["const"], "Invalid input: field required, value missing",
        "comma inside the message must be preserved"
    );
}

#[test]
fn test_conflict_schema_message_with_escaped_quote() {
    let schema = schema_of("ConflictMetadataV1");

    let props = schema["allOf"][1]["properties"].as_object().unwrap();
    assert_eq!(props["http_status"]["const"], 409);
    assert_eq!(
        props["message"]["const"], "Resource can't be created: already exists",
        "escaped \\' must become a literal single quote"
    );
}

#[test]
fn test_int_const_schema() {
    let schema = schema_of("IntConstV1");
    let props = schema["allOf"][1]["properties"].as_object().unwrap();
    assert_eq!(props["count"]["const"], json_num(42));
    assert!(props["count"]["const"].is_number());
    assert!(props["count"]["const"].as_i64().is_some());
}

#[test]
fn test_neg_int_const_schema() {
    let schema = schema_of("NegIntConstV1");
    let props = schema["allOf"][1]["properties"].as_object().unwrap();
    assert_eq!(props["count"]["const"], json_num(-5));
    assert!(props["count"]["const"].as_i64() == Some(-5));
}

#[test]
fn test_float_const_schema() {
    let schema = schema_of("FloatConstV1");
    let props = schema["allOf"][1]["properties"].as_object().unwrap();
    assert!(
        props["score"]["const"].is_number(),
        "score const must be a JSON number"
    );
    let val = props["score"]["const"]
        .as_f64()
        .expect("score const must be representable as f64");
    assert!(
        (val - 2.5_f64).abs() < 1e-10,
        "score const must be ~2.5, got {val}"
    );
}

#[test]
fn test_bool_true_const_schema() {
    let schema = schema_of("BoolTrueConstV1");
    let props = schema["allOf"][1]["properties"].as_object().unwrap();
    assert_eq!(props["enabled"]["const"], Value::Bool(true));
    assert!(props["enabled"]["const"].is_boolean());
}

#[test]
fn test_bool_false_const_schema() {
    let schema = schema_of("BoolFalseConstV1");
    let props = schema["allOf"][1]["properties"].as_object().unwrap();
    assert_eq!(props["enabled"]["const"], Value::Bool(false));
    assert!(props["enabled"]["const"].is_boolean());
}

#[test]
fn test_string_quoted_const_schema() {
    let schema = schema_of("StrQuotedConstV1");
    let props = schema["allOf"][1]["properties"].as_object().unwrap();
    assert_eq!(props["label"]["const"], json_str("hello world"));
    assert!(props["label"]["const"].is_string());
}

#[test]
fn test_string_unquoted_const_schema() {
    let schema = schema_of("StrUnquotedConstV1");
    let props = schema["allOf"][1]["properties"].as_object().unwrap();
    assert_eq!(props["label"]["const"], json_str("hello"));
    assert!(props["label"]["const"].is_string());
}

#[test]
fn test_multi_type_const_schema() {
    let schema = schema_of("MultiTypeConstV1");
    let props = schema["allOf"][1]["properties"].as_object().unwrap();

    assert_eq!(props["count"]["const"], json_num(10));
    assert!(props["count"]["const"].is_number());

    assert!(props["score"]["const"].is_number());
    let score = props["score"]["const"].as_f64().unwrap();
    assert!((score - 2.5_f64).abs() < 1e-10);

    assert_eq!(props["enabled"]["const"], Value::Bool(true));
    assert!(props["enabled"]["const"].is_boolean());

    assert_eq!(props["label"]["const"], json_str("active"));
    assert!(props["label"]["const"].is_string());
}

#[test]
fn test_three_event_l1_is_base_with_no_allof() {
    let (id, schema) = generated("ThreeEventBaseV1");
    assert_eq!(id, "gts.x.test.three.event.v1~");
    assert!(
        schema.get("properties").is_some(),
        "L1 base must have top-level properties"
    );
    assert!(schema.get("allOf").is_none(), "L1 base must NOT have allOf");
    let props = schema["properties"].as_object().unwrap();
    assert!(
        props.contains_key("severity"),
        "L1 must have severity field"
    );
    assert!(props.contains_key("payload"), "L1 must have payload field");
}

#[test]
fn test_three_event_l2_refs_l1_and_sets_severity_source_consts() {
    let (id, schema) = generated("ThreeAlertPayloadV1");
    assert_eq!(id, "gts.x.test.three.event.v1~x.test.three.alert.v1~");
    let all_of = schema["allOf"].as_array().expect("L2 must have allOf");
    assert_eq!(
        all_of[0]["$ref"].as_str().unwrap(),
        "gts://gts.x.test.three.event.v1~",
        "L2 allOf[0] must $ref L1"
    );
    let props = all_of[1]["properties"]
        .as_object()
        .expect("L2 allOf[1].properties must exist");
    // const_values: severity=3, source='alert-service'
    assert_eq!(props["severity"]["const"], json_num(3), "L2 must fix severity=3");
    assert_eq!(
        props["source"]["const"],
        json_str("alert-service"),
        "L2 must fix source"
    );
    // auto-injected type const from L1's GtsSchemaId field
    assert_eq!(
        props["type"]["const"].as_str().unwrap(),
        "gts.x.test.three.event.v1~x.test.three.alert.v1~",
        "L2 must auto-inject type const"
    );
    assert!(
        props.contains_key("channel"),
        "allOf[1].properties must include channel"
    );
    assert!(
        props.contains_key("recipient"),
        "allOf[1].properties must include recipient"
    );
    // data is the generic field – an object placeholder
    assert_eq!(
        props["data"]["type"].as_str().unwrap_or(""),
        "object",
        "data field must be typed as object placeholder in L2"
    );
}

#[test]
fn test_three_event_l3_does_not_own_l2_severity_const() {
    let schema = schema_of("ThreeEmailAlertDataV1");
    let l3_props = schema["allOf"][1]["properties"]
        .as_object()
        .expect("L3 allOf[1].properties must exist");
    assert!(
        !l3_props.contains_key("severity"),
        "L3's own properties must NOT include severity (that const belongs to L2)"
    );
    // L2 independently still carries severity=3
    let l2_props = schema_of("ThreeAlertPayloadV1")["allOf"][1]["properties"]
        .as_object()
        .unwrap()
        .clone();
    assert_eq!(
        l2_props["severity"]["const"],
        json_num(3),
        "L2 schema must still have severity=3"
    );
}

#[test]
fn test_three_event_l3_type_const_is_full_three_segment_id() {
    // The `type` const is injected where the direct parent carries a
    // GtsSchemaId field: L2's schema carries it (from L1's r#type field).
    let l2_type = schema_of("ThreeAlertPayloadV1")["allOf"][1]["properties"]["type"]["const"]
        .as_str()
        .unwrap()
        .to_owned();
    assert!(
        l2_type.starts_with("gts.x.test.three.event.v1~"),
        "L2 type const must start with L1 prefix, got: {l2_type}"
    );
    assert!(
        l2_type.ends_with("x.test.three.alert.v1~"),
        "L2 type const must end with L2 segment, got: {l2_type}"
    );
    // L2 has no GtsSchemaId field, so L3 gets no injected `type`.
    let l3 = schema_of("ThreeEmailAlertDataV1");
    assert!(l3["allOf"][1]["properties"].get("type").is_none());
}

#[test]
fn test_const_json_types_are_correct() {
    let int_schema = schema_of("IntConstV1");
    let int_props = int_schema["allOf"][1]["properties"].as_object().unwrap();
    assert!(
        !int_props["count"]["const"].is_string(),
        "int const must not be a JSON string"
    );
    assert!(
        !int_props["count"]["const"].is_boolean(),
        "int const must not be a JSON bool"
    );

    let bool_schema = schema_of("BoolTrueConstV1");
    let bool_props = bool_schema["allOf"][1]["properties"].as_object().unwrap();
    assert!(
        !bool_props["enabled"]["const"].is_string(),
        "bool const must not be a JSON string"
    );
    assert!(
        !bool_props["enabled"]["const"].is_number(),
        "bool const must not be a JSON number"
    );

    let float_schema = schema_of("FloatConstV1");
    let float_props = float_schema["allOf"][1]["properties"].as_object().unwrap();
    assert!(
        !float_props["score"]["const"].is_string(),
        "float const must not be a JSON string"
    );
    assert!(
        !float_props["score"]["const"].is_boolean(),
        "float const must not be a JSON bool"
    );

    let str_schema = schema_of("StrQuotedConstV1");
    let str_props = str_schema["allOf"][1]["properties"].as_object().unwrap();
    assert!(
        !str_props["label"]["const"].is_number(),
        "string const must not be a JSON number"
    );
    assert!(
        !str_props["label"]["const"].is_boolean(),
        "string const must not be a JSON bool"
    );
}

#[test]
fn sms_child_consts_stay_flat() {
    // A child's const_values land in its own properties as written; a
    // const for a field of the child itself is not moved under the parent's
    // generic field.
    let schema = schema_of("ThreeSmsAlertDataV1");
    let all_of = schema["allOf"].as_array().unwrap();
    assert_eq!(all_of[0]["$ref"], "gts://gts.x.test.alert.base.v1~");
    let props = all_of[1]["properties"].as_object().unwrap();
    assert_eq!(props["channel"]["const"], json_str("sms"));
    assert_eq!(props["severity"]["const"], json_num(9));
    assert_eq!(props["kind"]["const"], json_str("traffic"));
    assert_eq!(
        props["type"]["const"],
        "gts.x.test.alert.base.v1~x.test.three.sms.v1~"
    );
    assert!(all_of[1].get("required").is_none());
}
