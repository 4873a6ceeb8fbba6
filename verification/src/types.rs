//! The JSON schema of a Rust field type, and the GTS identifier types.

use vstd::prelude::*;
use crate::json::{field, get_str_field, model_entries, model_items, Json, JsonValue};
use crate::text::{
    contains_seq,
    occurs_at,
    slice_chars,
    starts_with,
    str_eq_chars,
    string_from_chars,
    to_chars,
    trim,
    trim_range,
};
use crate::filters::contains_chars;

verus! {

// ---------------------------------------------------------------------------
// Building JSON values
// ---------------------------------------------------------------------------

/// Appends the entry `key: val` to object entries whose keys do not include
/// `key`.
pub fn push_field(entries: &mut Vec<(String, JsonValue)>, key: &str, val: JsonValue)
    ensures
        model_entries(final(entries)@) == model_entries(old(entries)@).push((key@, val.model())),
{
    let ghost pre = entries@;
    entries.push((key.to_owned(), val));
    assert(entries@.drop_last() == pre);
}

/// Appends `val` to array items.
pub fn push_item(items: &mut Vec<JsonValue>, val: JsonValue)
    ensures
        model_items(final(items)@) == model_items(old(items)@).push(val.model()),
{
    let ghost pre = items@;
    items.push(val);
    assert(items@.drop_last() == pre);
}

/// The object `{key: val}`.
pub open spec fn single(key: Seq<char>, val: Json) -> Json {
    Json::Object(seq![(key, val)])
}

/// The object `{key: val}`.
pub fn single_field(key: &str, val: JsonValue) -> (r: JsonValue)
    ensures
        r.model() == single(key@, val.model()),
{
    let mut es: Vec<(String, JsonValue)> = Vec::new();
    push_field(&mut es, key, val);
    assert(model_entries(es@) =~= seq![(key@, val.model())]);
    JsonValue::Object(es)
}

/// The object `{"type": t}`.
pub open spec fn typed(t: Seq<char>) -> Json {
    single("type"@, Json::Str(t))
}

fn typed_value(t: &str) -> (r: JsonValue)
    ensures
        r.model() == typed(t@),
{
    single_field("type", JsonValue::Str(t.to_owned()))
}

// ---------------------------------------------------------------------------
// GTS identifier types
// ---------------------------------------------------------------------------

/// A GTS identifier prefix as the `gts` crate accepts it at build time: a
/// lowercase ASCII letter, then lowercase letters, digits or `_`, then `.`.
pub open spec fn gts_prefix_valid(p: Seq<char>) -> bool {
    &&& p.len() >= 2
    &&& p.last() == '.'
    &&& 'a' <= p[0] && p[0] <= 'z'
    &&& forall|i: int|
        1 <= i < p.len() - 1 ==> ('a' <= #[trigger] p[i] && p[i] <= 'z') || ('0' <= p[i] && p[i]
            <= '9') || p[i] == '_'
}

/// `gts::GTS_ID_PREFIX`, the prefix of every GTS identifier. The crate fixes
/// it when it is built (from its build environment, `gts.` by default) and
/// checks its form then; nothing more is stated of it.
#[verifier::external_body]
fn gts_id_prefix() -> (p: String)
    ensures
        gts_prefix_valid(p@),
{
    gts::GTS_ID_PREFIX.to_owned()
}

/// The schema of a GTS identifier, as `gts` 0.15 writes it for
/// `GtsInstanceId::json_schema_value` (`instance` true) and
/// `GtsSchemaId::json_schema_value`, for the identifier prefix `prefix`.
pub open spec fn gts_id_schema(instance: bool, prefix: Seq<char>) -> Json {
    Json::Object(
        seq![
            ("type"@, Json::Str("string"@)),
            ("format"@, Json::Str(if instance { "gts-instance-id"@ } else { "gts-type-id"@ })),
            ("title"@, Json::Str(if instance { "GTS Instance ID"@ } else { "GTS Type ID"@ })),
            ("description"@, Json::Str(
                if instance { "GTS instance identifier"@ } else { "GTS type identifier"@ },
            )),
            ("x-gts-ref"@, Json::Str(prefix + "*"@)),
        ],
    )
}

fn gts_id_schema_value(instance: bool, prefix: &str) -> (r: JsonValue)
    ensures
        r.model() == gts_id_schema(instance, prefix@),
{
    let mut es: Vec<(String, JsonValue)> = Vec::new();
    push_field(&mut es, "type", JsonValue::Str("string".to_owned()));
    push_field(
        &mut es,
        "format",
        JsonValue::Str(
            if instance {
                "gts-instance-id".to_owned()
            } else {
                "gts-type-id".to_owned()
            },
        ),
    );
    push_field(
        &mut es,
        "title",
        JsonValue::Str(
            if instance {
                "GTS Instance ID".to_owned()
            } else {
                "GTS Type ID".to_owned()
            },
        ),
    );
    push_field(
        &mut es,
        "description",
        JsonValue::Str(
            if instance {
                "GTS instance identifier".to_owned()
            } else {
                "GTS type identifier".to_owned()
            },
        ),
    );
    let mut r = to_chars(prefix);
    let star = to_chars("*");
    proof {
        reveal_strlit("*");
    }
    r.push(star[0]);
    assert(r@ =~= prefix@ + "*"@);
    push_field(&mut es, "x-gts-ref", JsonValue::Str(string_from_chars(r.as_slice())));
    assert(model_entries(es@) =~= seq![
        ("type"@, Json::Str("string"@)),
        ("format"@, Json::Str(if instance { "gts-instance-id"@ } else { "gts-type-id"@ })),
        ("title"@, Json::Str(if instance { "GTS Instance ID"@ } else { "GTS Type ID"@ })),
        ("description"@, Json::Str(
            if instance { "GTS instance identifier"@ } else { "GTS type identifier"@ },
        )),
        ("x-gts-ref"@, Json::Str(prefix@ + "*"@)),
    ]);
    JsonValue::Object(es)
}

// ---------------------------------------------------------------------------
// Field types
// ---------------------------------------------------------------------------

/// The item type of a `Vec<...>` type stands for `string` where the
/// closing `>` is missing.
pub open spec fn lowercase_string() -> Seq<char> {
    seq!['s', 't', 'r', 'i', 'n', 'g']
}

pub open spec fn is_integer_name(t: Seq<char>) -> bool {
    ||| t == "i8"@
    ||| t == "i16"@
    ||| t == "i32"@
    ||| t == "i64"@
    ||| t == "i128"@
    ||| t == "isize"@
    ||| t == "u8"@
    ||| t == "u16"@
    ||| t == "u32"@
    ||| t == "u64"@
    ||| t == "u128"@
    ||| t == "usize"@
}

/// The item type of the `Vec<...>` type `t`.
pub open spec fn vec_item(t: Seq<char>) -> Seq<char> {
    let s = t.skip(4);
    if s.len() > 0 && s.last() == '>' {
        s.drop_last()
    } else {
        lowercase_string()
    }
}

/// The measure that recursion on field types decreases.
pub open spec fn type_measure(t: Seq<char>) -> nat {
    if t == lowercase_string() {
        0
    } else {
        t.len() + 1
    }
}

/// The type inside `Option<...>` where `rt` has that form; `rt` itself
/// otherwise.
pub open spec fn option_inner(rt: Seq<char>) -> Seq<char> {
    if starts_with(rt, "Option<"@) && rt.len() >= 8 && rt.last() == '>' {
        trim(rt.subrange(7, rt.len() - 1))
    } else {
        rt
    }
}

/// The schema of an optional field: `T`'s schema with `null` admitted, as
/// `"type": [t, "null"]` where `T`'s schema has a string `type` and as a
/// `oneOf` of it and `null` otherwise.
pub open spec fn nullable(j: Json) -> Json {
    match field(j, "type"@) {
        Some(Json::Str(type_val)) => single(
            "type"@,
            Json::Array(seq![Json::Str(type_val), Json::Str("null"@)]),
        ),
        _ => single("oneOf"@, Json::Array(seq![j, typed("null"@)])),
    }
}

/// The schema of a Rust type, and whether a field of it is required (it is
/// not an `Option`). `prefix` is the GTS identifier prefix.
///
/// Strings, integers, floats and `bool` have their JSON types; `Vec<T>` is
/// an array of `T`; maps, generic parameters and any other type are
/// objects; a type naming `Uuid` is a `uuid` string; the GTS identifier types
/// have the GTS identifier schemas. An `Option<T>` is not required and adds
/// `null` to the type of `T`.
pub open spec fn type_schema(t: Seq<char>, prefix: Seq<char>) -> (bool, Json)
    decreases type_measure(t),
{
    let rt = trim(t);
    let is_optional = starts_with(rt, "Option<"@);
    let inner = if is_optional {
        option_inner(rt)
    } else {
        rt
    };
    let json_schema = if inner == "String"@ || inner == "str"@ || inner == "&str"@ {
        typed("string"@)
    } else if is_integer_name(inner) {
        typed("integer"@)
    } else if inner == "f32"@ || inner == "f64"@ {
        typed("number"@)
    } else if inner == "bool"@ {
        typed("boolean"@)
    } else if starts_with(inner, "Vec<"@) {
        let item = vec_item(inner);
        proof {
            lemma_type_measure_decreases(t, inner);
        }
        Json::Object(
            seq![("type"@, Json::Str("array"@)), ("items"@, type_schema(item, prefix).1)],
        )
    } else if starts_with(inner, "HashMap<"@) || starts_with(inner, "BTreeMap<"@) {
        typed("object"@)
    } else if contains_seq(inner, "Uuid"@) || contains_seq(inner, "uuid"@) {
        Json::Object(seq![("type"@, Json::Str("string"@)), ("format"@, Json::Str("uuid"@))])
    } else if inner == "GtsInstanceId"@ {
        gts_id_schema(true, prefix)
    } else if inner == "GtsSchemaId"@ {
        gts_id_schema(false, prefix)
    } else {
        typed("object"@)
    };
    let final_schema = if is_optional {
        nullable(json_schema)
    } else {
        json_schema
    };
    (!is_optional, final_schema)
}

/// The item type of a `Vec<...>` that appears in `t` is smaller than `t`.
pub proof fn lemma_type_measure_decreases(t: Seq<char>, inner: Seq<char>)
    requires
        starts_with(inner, "Vec<"@),
        inner == option_inner(trim(t)) || inner == trim(t),
    ensures
        type_measure(vec_item(inner)) < type_measure(t),
{
    reveal_strlit("Vec<");
    crate::text::lemma_lead_ws_bound(t);
    crate::text::lemma_trail_ws_bound(crate::text::trim_start(t));
    assert(inner.len() <= trim(t).len()) by {
        if inner != trim(t) {
            let rt = trim(t);
            assert(inner == trim(rt.subrange(7, rt.len() - 1)));
            crate::text::lemma_lead_ws_bound(rt.subrange(7, rt.len() - 1));
            crate::text::lemma_trail_ws_bound(
                crate::text::trim_start(rt.subrange(7, rt.len() - 1)),
            );
        }
    }
    assert(trim(t).len() <= t.len());
    if t == lowercase_string() {
        lemma_inner_in(t, inner);
        assert(inner.take(4) == "Vec<"@);
        assert(inner[0] == inner.take(4)[0]);
        assert(inner[0] == 'V');
        let k = choose|k: int| 0 <= k < t.len() && t[k] == inner[0];
        assert(t[0] != 'V' && t[1] != 'V' && t[2] != 'V' && t[3] != 'V' && t[4] != 'V' && t[5]
            != 'V');
        assert(t.len() == 6);
        assert(false);
    }
}

/// A character of the trimmed or `Option`-unwrapped type is a character of
/// the type.
proof fn lemma_inner_in(t: Seq<char>, inner: Seq<char>)
    requires
        inner.len() > 0,
        inner == option_inner(trim(t)) || inner == trim(t),
    ensures
        exists|k: int| 0 <= k < t.len() && t[k] == inner[0],
{
    crate::text::lemma_lead_ws_bound(t);
    let ts = crate::text::trim_start(t);
    crate::text::lemma_trail_ws_bound(ts);
    let rt = trim(t);
    if inner == rt {
        assert(t[crate::text::lead_ws(t) as int] == inner[0]);
    } else {
        let mid = rt.subrange(7, rt.len() - 1);
        crate::text::lemma_lead_ws_bound(mid);
        crate::text::lemma_trail_ws_bound(crate::text::trim_start(mid));
        let k = crate::text::lead_ws(mid) as int;
        assert(inner[0] == mid[k]);
        assert(t[crate::text::lead_ws(t) + 7 + k] == inner[0]);
    }
}

/// Convert a Rust type to its JSON schema, for the GTS identifier prefix
/// `gts_prefix`; also whether a field of that type is required.
pub fn type_schema_for_prefix(rust_type: &str, gts_prefix: &str) -> (r: (bool, JsonValue))
    ensures
        (r.0, r.1.model()) == type_schema(rust_type@, gts_prefix@),
    decreases type_measure(rust_type@),
{
    let v = to_chars(rust_type);
    let (a, b) = trim_range(&v, 0, v.len());
    assert(v@.subrange(0, v.len() as int) =~= rust_type@);
    let rt = slice_chars(&v, a, b);
    let option_open = to_chars("Option<");
    let is_optional = crate::text::has_prefix_at(&rt, 0, rt.len(), &option_open);
    assert(rt@.subrange(0, rt.len() as int) =~= rt@);
    let inner: Vec<char> = if is_optional && rt.len() >= 8 && rt[rt.len() - 1] == '>' {
        let (ia, ib) = trim_range(&rt, 7, rt.len() - 1);
        slice_chars(&rt, ia, ib)
    } else {
        rt
    };
    let ghost inner_m = if is_optional {
        option_inner(trim(rust_type@))
    } else {
        trim(rust_type@)
    };
    assert(inner@ == inner_m);
    let json_schema = if str_eq_chars(&inner, "String") || str_eq_chars(&inner, "str")
        || str_eq_chars(&inner, "&str") {
        typed_value("string")
    } else if str_eq_chars(&inner, "i8") || str_eq_chars(&inner, "i16") || str_eq_chars(
        &inner,
        "i32",
    ) || str_eq_chars(&inner, "i64") || str_eq_chars(&inner, "i128") || str_eq_chars(
        &inner,
        "isize",
    ) || str_eq_chars(&inner, "u8") || str_eq_chars(&inner, "u16") || str_eq_chars(&inner, "u32")
        || str_eq_chars(&inner, "u64") || str_eq_chars(&inner, "u128") || str_eq_chars(
        &inner,
        "usize",
    ) {
        typed_value("integer")
    } else if str_eq_chars(&inner, "f32") || str_eq_chars(&inner, "f64") {
        typed_value("number")
    } else if str_eq_chars(&inner, "bool") {
        typed_value("boolean")
    } else if crate::text::has_prefix_at(&inner, 0, inner.len(), &to_chars("Vec<")) {
        assert(inner@.subrange(0, inner.len() as int) =~= inner@);
        let n = inner.len();
        let item_str: String = if n >= 5 && inner[n - 1] == '>' {
            assert(inner@.skip(4).drop_last() =~= inner@.subrange(4, n - 1));
            crate::text::sub_string(&inner, 4, n - 1)
        } else {
            proof {
                reveal_strlit("Vec<");
            }
            assert(inner@.skip(4).len() == 0 || inner@.skip(4).last() != '>');
            "string".to_owned()
        };
        proof {
            reveal_strlit("string");
            assert("string"@ =~= lowercase_string());
            assert(item_str@ == vec_item(inner_m));
            lemma_type_measure_decreases(rust_type@, inner_m);
        }
        let (_, item_schema) = type_schema_for_prefix(item_str.as_str(), gts_prefix);
        let mut es: Vec<(String, JsonValue)> = Vec::new();
        push_field(&mut es, "type", JsonValue::Str("array".to_owned()));
        push_field(&mut es, "items", item_schema);
        assert(model_entries(es@) =~= seq![
            ("type"@, Json::Str("array"@)),
            ("items"@, type_schema(vec_item(inner_m), gts_prefix@).1),
        ]);
        JsonValue::Object(es)
    } else if crate::text::has_prefix_at(&inner, 0, inner.len(), &to_chars("HashMap<"))
        || crate::text::has_prefix_at(&inner, 0, inner.len(), &to_chars("BTreeMap<")) {
        assert(inner@.subrange(0, inner.len() as int) =~= inner@);
        typed_value("object")
    } else if contains_chars(&inner, &to_chars("Uuid")) || contains_chars(
        &inner,
        &to_chars("uuid"),
    ) {
        assert(inner@.subrange(0, inner.len() as int) =~= inner@);
        let mut es: Vec<(String, JsonValue)> = Vec::new();
        push_field(&mut es, "type", JsonValue::Str("string".to_owned()));
        push_field(&mut es, "format", JsonValue::Str("uuid".to_owned()));
        assert(model_entries(es@) =~= seq![
            ("type"@, Json::Str("string"@)),
            ("format"@, Json::Str("uuid"@)),
        ]);
        JsonValue::Object(es)
    } else if str_eq_chars(&inner, "GtsInstanceId") {
        assert(inner@.subrange(0, inner.len() as int) =~= inner@);
        gts_id_schema_value(true, gts_prefix)
    } else if str_eq_chars(&inner, "GtsSchemaId") {
        assert(inner@.subrange(0, inner.len() as int) =~= inner@);
        gts_id_schema_value(false, gts_prefix)
    } else {
        assert(inner@.subrange(0, inner.len() as int) =~= inner@);
        typed_value("object")
    };
    let final_schema = if is_optional {
        match get_str_field(&json_schema, "type") {
            Some(type_val) => {
                let mut items: Vec<JsonValue> = Vec::new();
                push_item(&mut items, JsonValue::Str(type_val));
                push_item(&mut items, JsonValue::Str("null".to_owned()));
                assert(model_items(items@) =~= seq![Json::Str(type_val@), Json::Str("null"@)]);
                let arr = JsonValue::Array(items);
                single_field("type", arr)
            },
            None => {
                let mut items: Vec<JsonValue> = Vec::new();
                push_item(&mut items, json_schema);
                push_item(&mut items, typed_value("null"));
                assert(model_items(items@) =~= seq![json_schema.model(), typed("null"@)]);
                single_field("oneOf", JsonValue::Array(items))
            },
        }
    } else {
        json_schema
    };
    assert(json_schema.model() == ({
        let inner = inner_m;
        if inner == "String"@ || inner == "str"@ || inner == "&str"@ {
            typed("string"@)
        } else if is_integer_name(inner) {
            typed("integer"@)
        } else if inner == "f32"@ || inner == "f64"@ {
            typed("number"@)
        } else if inner == "bool"@ {
            typed("boolean"@)
        } else if starts_with(inner, "Vec<"@) {
            Json::Object(
                seq![("type"@, Json::Str("array"@)), ("items"@, type_schema(vec_item(inner), gts_prefix@).1)],
            )
        } else if starts_with(inner, "HashMap<"@) || starts_with(inner, "BTreeMap<"@) {
            typed("object"@)
        } else if contains_seq(inner, "Uuid"@) || contains_seq(inner, "uuid"@) {
            Json::Object(seq![("type"@, Json::Str("string"@)), ("format"@, Json::Str("uuid"@))])
        } else if inner == "GtsInstanceId"@ {
            gts_id_schema(true, gts_prefix@)
        } else if inner == "GtsSchemaId"@ {
            gts_id_schema(false, gts_prefix@)
        } else {
            typed("object"@)
        }
    }));
    (!is_optional, final_schema)
}

/// Convert a Rust type string to its JSON schema; returns whether a field of
/// that type is required, and the schema. The GTS identifier types take the
/// identifier prefix that the `gts` crate was built with.
pub fn rust_type_to_json_schema(rust_type: &str) -> (r: (bool, JsonValue))
    ensures
        exists|p: Seq<char>|
            gts_prefix_valid(p) && #[trigger] type_schema(rust_type@, p) == (r.0, r.1.model()),
{
    let prefix = gts_id_prefix();
    let r = type_schema_for_prefix(rust_type, prefix.as_str());
    assert(type_schema(rust_type@, prefix@) == (r.0, r.1.model()));
    r
}

/// The GTS identifier prefix, as the `gts` crate was built with it.
pub fn gts_prefix() -> (p: String)
    ensures
        gts_prefix_valid(p@),
{
    gts_id_prefix()
}

/// Wrapping a field's type in `Option<...>` makes the field optional and
/// admits `null`, and leaves the rest of its schema as it was; a field whose
/// type is not an `Option` is required.
pub proof fn law_optional_field(t: Seq<char>, prefix: Seq<char>)
    requires
        !starts_with(trim(t), "Option<"@),
    ensures
        type_schema(t, prefix).0,
        type_schema("Option<"@ + t + ">"@, prefix) == (false, nullable(type_schema(t, prefix).1)),
{
    reveal_strlit("Option<");
    reveal_strlit(">");
    let o = "Option<"@ + t + ">"@;
    assert(o[0] == 'O');
    crate::text::lemma_lead_ws_exact(o, 0);
    assert(o.skip(0) =~= o);
    assert(o.last() == '>');
    crate::text::lemma_trail_ws_exact(o, 0);
    assert(o.take(o.len() as int) =~= o);
    assert(trim(o) == o);
    assert(o.take(7) =~= "Option<"@);
    assert(o.subrange(7, o.len() - 1) =~= t);
    assert(option_inner(o) == trim(t));
}

/// The schema of `Vec<T>` is an array whose items have the schema of `T`,
/// and a field of it is required.
pub proof fn law_vec_items(t: Seq<char>, prefix: Seq<char>)
    ensures
        type_schema("Vec<"@ + t + ">"@, prefix) == (
            true,
            Json::Object(
                seq![("type"@, Json::Str("array"@)), ("items"@, type_schema(t, prefix).1)],
            ),
        ),
{
    reveal_strlit("Vec<");
    reveal_strlit(">");
    reveal_strlit("Option<");
    let w = "Vec<"@ + t + ">"@;
    assert(w[0] == 'V');
    crate::text::lemma_lead_ws_exact(w, 0);
    assert(w.skip(0) =~= w);
    assert(w.last() == '>');
    crate::text::lemma_trail_ws_exact(w, 0);
    assert(w.take(w.len() as int) =~= w);
    assert(trim(w) == w);
    assert(w.take(4) =~= "Vec<"@);
    assert(!starts_with(w, "Option<"@)) by {
        if starts_with(w, "Option<"@) {
            assert(w.take(7)[0] == w[0]);
        }
    }
    assert(!is_integer_name(w)) by {
        reveal_strlit("i8");
        reveal_strlit("i16");
        reveal_strlit("i32");
        reveal_strlit("i64");
        reveal_strlit("i128");
        reveal_strlit("isize");
        reveal_strlit("u8");
        reveal_strlit("u16");
        reveal_strlit("u32");
        reveal_strlit("u64");
        reveal_strlit("u128");
        reveal_strlit("usize");
    }
    assert(w != "String"@ && w != "str"@ && w != "&str"@) by {
        reveal_strlit("String");
        reveal_strlit("str");
        reveal_strlit("&str");
    }
    assert(w != "f32"@ && w != "f64"@ && w != "bool"@) by {
        reveal_strlit("f32");
        reveal_strlit("f64");
        reveal_strlit("bool");
    }
    assert(w.skip(4).drop_last() =~= t);
    assert(vec_item(w) == t);
}

/// A type name without whitespace around it and not starting `Option<`
/// is its own inner type.
proof fn lemma_plain_name(t: Seq<char>)
    requires
        t.len() > 0,
        !crate::text::is_ws(t[0]),
        !crate::text::is_ws(t.last()),
        t[0] != 'O',
    ensures
        trim(t) == t,
        !starts_with(t, "Option<"@),
{
    reveal_strlit("Option<");
    crate::text::lemma_lead_ws_exact(t, 0);
    assert(t.skip(0) =~= t);
    crate::text::lemma_trail_ws_exact(t, 0);
    assert(t.take(t.len() as int) =~= t);
    if starts_with(t, "Option<"@) {
        assert(t.take(7)[0] == t[0]);
    }
}

/// Every Rust integer type (`i8` to `i128`, `isize`, `u8` to `u128`,
/// `usize`) has the schema `{"type": "integer"}`, and a field of it is
/// required.
pub proof fn law_integer_types(t: Seq<char>, prefix: Seq<char>)
    requires
        t == "i8"@ || t == "i16"@ || t == "i32"@ || t == "i64"@ || t == "i128"@ || t == "isize"@ || t == "u8"@ || t == "u16"@ || t == "u32"@ || t == "u64"@ || t == "u128"@ || t == "usize"@,
    ensures
        type_schema(t, prefix) == (true, Json::Object(seq![("type"@, Json::Str("integer"@))])),
{
        reveal_strlit("i8");
        reveal_strlit("i16");
        reveal_strlit("i32");
        reveal_strlit("i64");
        reveal_strlit("i128");
        reveal_strlit("isize");
        reveal_strlit("u8");
        reveal_strlit("u16");
        reveal_strlit("u32");
        reveal_strlit("u64");
        reveal_strlit("u128");
        reveal_strlit("usize");
    reveal_strlit("String");
    reveal_strlit("str");
    reveal_strlit("&str");
    lemma_plain_name(t);
}

/// `f32` and `f64` have the schema `{"type": "number"}`, `bool` has
/// `{"type": "boolean"}`, and `String`, `str` and `&str` have
/// `{"type": "string"}`; a field of any of them is required.
pub proof fn law_scalar_types(prefix: Seq<char>)
    ensures
        type_schema("f32"@, prefix) == (true, Json::Object(seq![("type"@, Json::Str("number"@))])),
        type_schema("f64"@, prefix) == (true, Json::Object(seq![("type"@, Json::Str("number"@))])),
        type_schema("bool"@, prefix) == (true, Json::Object(seq![("type"@, Json::Str("boolean"@))])),
        type_schema("String"@, prefix) == (true, Json::Object(seq![("type"@, Json::Str("string"@))])),
        type_schema("str"@, prefix) == (true, Json::Object(seq![("type"@, Json::Str("string"@))])),
        type_schema("&str"@, prefix) == (true, Json::Object(seq![("type"@, Json::Str("string"@))])),
{
        reveal_strlit("i8");
        reveal_strlit("i16");
        reveal_strlit("i32");
        reveal_strlit("i64");
        reveal_strlit("i128");
        reveal_strlit("isize");
        reveal_strlit("u8");
        reveal_strlit("u16");
        reveal_strlit("u32");
        reveal_strlit("u64");
        reveal_strlit("u128");
        reveal_strlit("usize");
    reveal_strlit("String");
    reveal_strlit("str");
    reveal_strlit("&str");
    reveal_strlit("f32");
    reveal_strlit("f64");
    reveal_strlit("bool");
    lemma_plain_name("f32"@);
    lemma_plain_name("f64"@);
    lemma_plain_name("bool"@);
    lemma_plain_name("String"@);
    lemma_plain_name("str"@);
    lemma_plain_name("&str"@);
}

/// A map type (`HashMap<...>` or `BTreeMap<...>`) has the schema
/// `{"type": "object"}`, and a field of it is required.
pub proof fn law_map_types(r: Seq<char>, btree: bool, prefix: Seq<char>)
    requires
        r.len() > 0,
        !crate::text::is_ws(r.last()),
    ensures
        type_schema((if btree { "BTreeMap<"@ } else { "HashMap<"@ }) + r, prefix) == (
            true,
            Json::Object(seq![("type"@, Json::Str("object"@))]),
        ),
{
    reveal_strlit("i8");
    reveal_strlit("i16");
    reveal_strlit("i32");
    reveal_strlit("i64");
    reveal_strlit("i128");
    reveal_strlit("isize");
    reveal_strlit("u8");
    reveal_strlit("u16");
    reveal_strlit("u32");
    reveal_strlit("u64");
    reveal_strlit("u128");
    reveal_strlit("usize");
    reveal_strlit("String");
    reveal_strlit("str");
    reveal_strlit("&str");
    reveal_strlit("f32");
    reveal_strlit("f64");
    reveal_strlit("bool");
    reveal_strlit("Vec<");
    reveal_strlit("HashMap<");
    reveal_strlit("BTreeMap<");
    reveal_strlit("GtsInstanceId");
    reveal_strlit("GtsSchemaId");
    let head = if btree { "BTreeMap<"@ } else { "HashMap<"@ };
    let t = head + r;
    assert(t[0] == head[0]);
    assert(t.last() == r.last());
    lemma_plain_name(t);
    assert(t.take(head.len() as int) =~= head);
    assert(!starts_with(t, "Vec<"@)) by {
        if starts_with(t, "Vec<"@) {
            assert(t.take(4)[0] == t[0]);
        }
    }
    if btree {
        assert(!starts_with(t, "HashMap<"@) ==> starts_with(t, "BTreeMap<"@));
    }
}

/// `GtsInstanceId` and `GtsSchemaId` have the GTS identifier schemas: a
/// string of format `gts-instance-id` or `gts-type-id` whose `x-gts-ref`
/// is the identifier prefix followed by `*`; a field of either is required.
pub proof fn law_gts_id_types(prefix: Seq<char>)
    ensures
        type_schema("GtsInstanceId"@, prefix) == (
            true,
            Json::Object(
                seq![
                    ("type"@, Json::Str("string"@)),
                    ("format"@, Json::Str("gts-instance-id"@)),
                    ("title"@, Json::Str("GTS Instance ID"@)),
                    ("description"@, Json::Str("GTS instance identifier"@)),
                    ("x-gts-ref"@, Json::Str(prefix + "*"@)),
                ],
            ),
        ),
        type_schema("GtsSchemaId"@, prefix) == (
            true,
            Json::Object(
                seq![
                    ("type"@, Json::Str("string"@)),
                    ("format"@, Json::Str("gts-type-id"@)),
                    ("title"@, Json::Str("GTS Type ID"@)),
                    ("description"@, Json::Str("GTS type identifier"@)),
                    ("x-gts-ref"@, Json::Str(prefix + "*"@)),
                ],
            ),
        ),
{
    reveal_strlit("i8");
    reveal_strlit("i16");
    reveal_strlit("i32");
    reveal_strlit("i64");
    reveal_strlit("i128");
    reveal_strlit("isize");
    reveal_strlit("u8");
    reveal_strlit("u16");
    reveal_strlit("u32");
    reveal_strlit("u64");
    reveal_strlit("u128");
    reveal_strlit("usize");
    reveal_strlit("String");
    reveal_strlit("str");
    reveal_strlit("&str");
    reveal_strlit("f32");
    reveal_strlit("f64");
    reveal_strlit("bool");
    reveal_strlit("Vec<");
    reveal_strlit("HashMap<");
    reveal_strlit("BTreeMap<");
    reveal_strlit("GtsInstanceId");
    reveal_strlit("GtsSchemaId");
    reveal_strlit("Uuid");
    reveal_strlit("uuid");
    lemma_plain_name("GtsInstanceId"@);
    lemma_plain_name("GtsSchemaId"@);
    let a = "GtsInstanceId"@;
    let b = "GtsSchemaId"@;
    assert(!starts_with(a, "Vec<"@) && !starts_with(b, "Vec<"@)) by {
        if starts_with(a, "Vec<"@) {
            assert(a.take(4)[0] == a[0]);
        }
        if starts_with(b, "Vec<"@) {
            assert(b.take(4)[0] == b[0]);
        }
    }
    assert(!starts_with(a, "HashMap<"@) && !starts_with(b, "HashMap<"@)) by {
        if starts_with(a, "HashMap<"@) {
            assert(a.take(8)[0] == a[0]);
        }
        if starts_with(b, "HashMap<"@) {
            assert(b.take(8)[0] == b[0]);
        }
    }
    assert(!starts_with(a, "BTreeMap<"@) && !starts_with(b, "BTreeMap<"@)) by {
        if starts_with(a, "BTreeMap<"@) {
            assert(a.take(9)[0] == a[0]);
        }
        if starts_with(b, "BTreeMap<"@) {
            assert(b.take(9)[0] == b[0]);
        }
    }
    assert(!contains_seq(a, "Uuid"@) && !contains_seq(a, "uuid"@)) by {
        if contains_seq(a, "Uuid"@) || contains_seq(a, "uuid"@) {
            let i = choose|i: int| occurs_at(a, "Uuid"@, i) || occurs_at(a, "uuid"@, i);
            assert(a.subrange(i, i + 4)[0] == a[i]);
            assert(a.subrange(i, i + 4)[1] == a[i + 1]);
        }
    }
    assert(!contains_seq(b, "Uuid"@) && !contains_seq(b, "uuid"@)) by {
        if contains_seq(b, "Uuid"@) || contains_seq(b, "uuid"@) {
            let i = choose|i: int| occurs_at(b, "Uuid"@, i) || occurs_at(b, "uuid"@, i);
            assert(b.subrange(i, i + 4)[0] == b[i]);
            assert(b.subrange(i, i + 4)[1] == b[i + 1]);
        }
    }
}

} // verus!
