//! The body of a `#[struct_to_gts_schema(...)]` attribute.

use vstd::prelude::*;
use crate::const_values::{
    const_entries,
    parse_const_values_cli,
    skipped_const_entries,
    skipped_entries,
    unescape,
    unescape_rust_str,
};
use crate::json::{model_entries, Json, JsonValue};
use crate::matcher::{
    captures,
    compile,
    is_match,
    regex_captures,
    regex_compiles,
    regex_is_match,
    Pattern,
};
use crate::text::trim;

verus! {

/// Base attribute type.
pub enum BaseAttr {
    /// `base = true`: this is a base type.
    IsBase,
    /// `base = ParentStruct`: this type inherits from `ParentStruct`.
    Parent(String),
}

/// The model of a `BaseAttr`.
pub enum BaseModel {
    IsBase,
    Parent(Seq<char>),
}

impl BaseAttr {
    pub open spec fn model(&self) -> BaseModel {
        match self {
            BaseAttr::IsBase => BaseModel::IsBase,
            BaseAttr::Parent(p) => BaseModel::Parent(p@),
        }
    }
}

/// Parsed macro attributes from `#[struct_to_gts_schema(...)]`.
pub struct MacroAttrs {
    pub dir_path: String,
    pub schema_id: String,
    pub description: Option<String>,
    pub properties: Option<String>,
    pub base: BaseAttr,
    /// Parsed const field overrides (`field_name`, `json_value`).
    pub const_values: Vec<(String, JsonValue)>,
}

/// The model of `MacroAttrs`.
pub struct AttrsModel {
    pub dir_path: Seq<char>,
    pub schema_id: Seq<char>,
    pub description: Option<Seq<char>>,
    pub properties: Option<Seq<char>>,
    pub base: BaseModel,
    pub const_values: Seq<(Seq<char>, Json)>,
}

pub open spec fn opt_view(o: Option<String>) -> Option<Seq<char>> {
    match o {
        Some(s) => Some(s@),
        None => None,
    }
}

impl MacroAttrs {
    pub open spec fn model(&self) -> AttrsModel {
        AttrsModel {
            dir_path: self.dir_path@,
            schema_id: self.schema_id@,
            description: opt_view(self.description),
            properties: opt_view(self.properties),
            base: self.base.model(),
            const_values: model_entries(self.const_values@),
        }
    }
}

pub open spec fn dir_path_pattern() -> Seq<char> {
    r#"dir_path\s*=\s*"([^"]+)""#@
}

pub open spec fn schema_id_pattern() -> Seq<char> {
    r#"schema_id\s*=\s*"([^"]+)""#@
}

pub open spec fn description_pattern() -> Seq<char> {
    r#"description\s*=\s*"([^"]+)""#@
}

pub open spec fn properties_pattern() -> Seq<char> {
    r#"properties\s*=\s*"([^"]*)""#@
}

pub open spec fn const_values_pattern() -> Seq<char> {
    r#"const_values\s*=\s*"([^"]*)""#@
}

pub open spec fn base_true_pattern() -> Seq<char> {
    r"\bbase\s*=\s*true\b"@
}

pub open spec fn base_parent_pattern() -> Seq<char> {
    r"\bbase\s*=\s*([A-Z]\w*)"@
}

/// The patterns the attribute parser uses all compile.
pub open spec fn attr_patterns_compile() -> bool {
    &&& regex_compiles(dir_path_pattern())
    &&& regex_compiles(schema_id_pattern())
    &&& regex_compiles(description_pattern())
    &&& regex_compiles(properties_pattern())
    &&& regex_compiles(const_values_pattern())
    &&& regex_compiles(base_true_pattern())
    &&& regex_compiles(base_parent_pattern())
}

/// Group `i` of the first match, where there is a match and the group took
/// part in it.
pub open spec fn group_of(caps: Option<Seq<Option<Seq<char>>>>, i: int) -> Option<Seq<char>> {
    match caps {
        Some(gs) => if 0 <= i < gs.len() {
            gs[i]
        } else {
            None
        },
        None => None,
    }
}

/// Group 1 of the first match of `pattern` in `body`.
pub open spec fn first_group(pattern: Seq<char>, body: Seq<char>) -> Option<Seq<char>> {
    group_of(regex_captures(pattern, body), 1)
}

/// The attributes made of what the attribute patterns found: the first
/// group of each of the `dir_path`, `schema_id`, `description`,
/// `properties`, `const_values` and `base = Name` patterns, and whether
/// `base = true` occurs. `dir_path`, `schema_id` and a base are required;
/// `base = true` takes precedence over a parent name; `const_values` is
/// unescaped and parsed (empty where absent).
pub open spec fn attrs_from(
    dir_path: Option<Seq<char>>,
    schema_id: Option<Seq<char>>,
    description: Option<Seq<char>>,
    properties: Option<Seq<char>>,
    const_values: Option<Seq<char>>,
    base_true: bool,
    base_parent: Option<Seq<char>>,
) -> Option<AttrsModel> {
    let base = if base_true {
        Some(BaseModel::IsBase)
    } else {
        match base_parent {
            Some(p) => Some(BaseModel::Parent(p)),
            None => None,
        }
    };
    match (dir_path, schema_id, base) {
        (Some(dir_path), Some(schema_id), Some(base)) => Some(
            AttrsModel {
                dir_path,
                schema_id,
                description,
                properties,
                base,
                const_values: match const_values {
                    Some(m) => const_entries(trim(unescape(m))),
                    None => Seq::empty(),
                },
            },
        ),
        _ => None,
    }
}

/// The attributes of the body `body`, read by the attribute patterns; none
/// where a pattern does not compile.
pub open spec fn attrs_of(body: Seq<char>) -> Option<AttrsModel> {
    if !attr_patterns_compile() {
        None
    } else {
        attrs_from(
            first_group(dir_path_pattern(), body),
            first_group(schema_id_pattern(), body),
            first_group(description_pattern(), body),
            first_group(properties_pattern(), body),
            first_group(const_values_pattern(), body),
            regex_is_match(base_true_pattern(), body),
            first_group(base_parent_pattern(), body),
        )
    }
}

/// Builds the attributes from what the attribute patterns found in a body
/// (see `attrs_from`).
pub fn attrs_from_groups(
    dir_path: Option<String>,
    schema_id: Option<String>,
    description: Option<String>,
    properties: Option<String>,
    const_values: Option<String>,
    base_true: bool,
    base_parent: Option<String>,
) -> (r: Option<MacroAttrs>)
    ensures
        match r {
            Some(a) => attrs_from(
                opt_view(dir_path),
                opt_view(schema_id),
                opt_view(description),
                opt_view(properties),
                opt_view(const_values),
                base_true,
                opt_view(base_parent),
            ) == Some(a.model()),
            None => attrs_from(
                opt_view(dir_path),
                opt_view(schema_id),
                opt_view(description),
                opt_view(properties),
                opt_view(const_values),
                base_true,
                opt_view(base_parent),
            ) is None,
        },
{
    let dir_path = match dir_path {
        Some(s) => s,
        None => return None,
    };
    let schema_id = match schema_id {
        Some(s) => s,
        None => return None,
    };
    let base = if base_true {
        BaseAttr::IsBase
    } else {
        match base_parent {
            Some(p) => BaseAttr::Parent(p),
            None => return None,
        }
    };
    let const_values = match const_values {
        Some(m) => {
            let unescaped = unescape_rust_str(m.as_str());
            parse_const_values_cli(unescaped.as_str())
        },
        None => Vec::new(),
    };
    Some(MacroAttrs { dir_path, schema_id, description, properties, base, const_values })
}

/// Group `i` of the first match of `p` in `hay`.
fn group(p: &Pattern, hay: &str, i: usize) -> (r: Option<String>)
    ensures
        opt_view(r) == group_of(regex_captures(p.source(), hay@), i as int),
{
    match captures(p, hay) {
        Some(gs) => {
            if i < gs.len() {
                match &gs[i] {
                    Some(s) => Some(s.clone()),
                    None => None,
                }
            } else {
                None
            }
        },
        None => None,
    }
}

/// Parse the attribute body of `#[struct_to_gts_schema(...)]` to extract
/// individual attributes.
pub fn parse_macro_attrs(attr_body: &str) -> (r: Option<MacroAttrs>)
    ensures
        match r {
            Some(a) => attrs_of(attr_body@) == Some(a.model()),
            None => attrs_of(attr_body@) is None,
        },
{
    let dir_path_re = match compile(r#"dir_path\s*=\s*"([^"]+)""#) {
        Ok(p) => p,
        Err(_) => return None,
    };
    let schema_id_re = match compile(r#"schema_id\s*=\s*"([^"]+)""#) {
        Ok(p) => p,
        Err(_) => return None,
    };
    let description_re = match compile(r#"description\s*=\s*"([^"]+)""#) {
        Ok(p) => p,
        Err(_) => return None,
    };
    let properties_re = match compile(r#"properties\s*=\s*"([^"]*)""#) {
        Ok(p) => p,
        Err(_) => return None,
    };
    let const_values_re = match compile(r#"const_values\s*=\s*"([^"]*)""#) {
        Ok(p) => p,
        Err(_) => return None,
    };
    let base_true_re = match compile(r"\bbase\s*=\s*true\b") {
        Ok(p) => p,
        Err(_) => return None,
    };
    let base_parent_re = match compile(r"\bbase\s*=\s*([A-Z]\w*)") {
        Ok(p) => p,
        Err(_) => return None,
    };
    attrs_from_groups(
        group(&dir_path_re, attr_body, 1),
        group(&schema_id_re, attr_body, 1),
        group(&description_re, attr_body, 1),
        group(&properties_re, attr_body, 1),
        group(&const_values_re, attr_body, 1),
        is_match(&base_true_re, attr_body),
        group(&base_parent_re, attr_body, 1),
    )
}

/// The malformed `const_values` entries met while the body `body` is
/// parsed: the `const_values` string is read once `dir_path` and
/// `schema_id` are found (whether or not a base is), and its skipped
/// entries are reported; nothing where a pattern does not compile.
pub open spec fn attr_skipped(body: Seq<char>) -> Seq<Seq<char>> {
    if !attr_patterns_compile() {
        Seq::empty()
    } else {
        match (
            first_group(dir_path_pattern(), body),
            first_group(schema_id_pattern(), body),
            first_group(const_values_pattern(), body),
        ) {
            (Some(_), Some(_), Some(m)) => skipped_entries(trim(unescape(m))),
            _ => Seq::empty(),
        }
    }
}

/// The malformed `const_values` entries that parsing the attribute body
/// `attr_body` skips (see `attr_skipped`).
pub fn skipped_const_values(attr_body: &str) -> (r: Vec<String>)
    ensures
        crate::schema::views(r@) == attr_skipped(attr_body@),
{
    let dir_path_re = compile(r#"dir_path\s*=\s*"([^"]+)""#);
    let schema_id_re = compile(r#"schema_id\s*=\s*"([^"]+)""#);
    let description_re = compile(r#"description\s*=\s*"([^"]+)""#);
    let properties_re = compile(r#"properties\s*=\s*"([^"]*)""#);
    let const_values_re = compile(r#"const_values\s*=\s*"([^"]*)""#);
    let base_true_re = compile(r"\bbase\s*=\s*true\b");
    let base_parent_re = compile(r"\bbase\s*=\s*([A-Z]\w*)");
    match (
        dir_path_re,
        schema_id_re,
        description_re,
        properties_re,
        const_values_re,
        base_true_re,
        base_parent_re,
    ) {
        (Ok(d), Ok(sid), Ok(_), Ok(_), Ok(cv), Ok(_), Ok(_)) => {
            match (group(&d, attr_body, 1), group(&sid, attr_body, 1), group(&cv, attr_body, 1)) {
                (Some(_), Some(_), Some(m)) => {
                    let unescaped = unescape_rust_str(m.as_str());
                    skipped_const_entries(unescaped.as_str())
                },
                _ => Vec::new(),
            }
        },
        _ => Vec::new(),
    }
}

} // verus!
