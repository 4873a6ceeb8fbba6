//! Finding the annotated structs of a Rust source file and the schemas they
//! define; writing them out is left to the caller.

use vstd::prelude::*;
use crate::attrs::{
    attr_skipped,
    attrs_of,
    parse_macro_attrs,
    skipped_const_values,
    AttrsModel,
    BaseAttr,
    BaseModel,
};
use crate::json::{model_entries, Json, JsonValue};
use crate::matcher::{captures_all, compile, matches_views, regex_captures_all, regex_compiles};
use crate::schema::{
    build_json_schema_for_prefix,
    field_type_of,
    fields_model,
    lemma_trail_count_exact,
    names_distinct,
    opt_str_view,
    schema_json,
    trail_count,
};
use crate::attrs::opt_view;
use crate::text::{to_chars, trim, trim_range};
use crate::types::{gts_prefix, gts_prefix_valid};

verus! {

/// The pattern of an annotated struct: the attribute body (group 1, where a
/// `)` inside a quoted value does not end it), then any attributes, doc
/// comments and blank space, then the struct's name (group 2), its generics
/// (group 3) and its body (group 4; absent for a unit struct).
pub open spec fn struct_pattern() -> Seq<char> {
    r#"(?s)#\[struct_to_gts_schema\(((?:"[^"]*"|[^)"]+)+)\)\]\s*(?:(?:#\[[^\]]+\]|///[^\n]*|//![^\n]*)\s*)*(?:pub\s+)?struct\s+(\w+)(?:<([^>]+)>)?\s*(?:\{([^}]*)\}|;)"#@
}

/// The pattern of a field line of a struct body: its name (group 2) and its
/// type (group 3).
pub open spec fn field_pattern() -> Seq<char> {
    r"(?m)^\s*(?:pub\s+)?(r#)?(\w+)\s*:\s*([^,\n]+)"@
}

/// Group `i` of one match.
pub open spec fn group_at(gs: Seq<Option<Seq<char>>>, i: int) -> Option<Seq<char>> {
    if 0 <= i < gs.len() {
        gs[i]
    } else {
        None
    }
}

/// The body of a matched struct; empty for a unit struct.
pub open spec fn body_of(gs: Seq<Option<Seq<char>>>) -> Seq<char> {
    match group_at(gs, 4) {
        Some(b) => b,
        None => Seq::empty(),
    }
}

/// A field type as written, trimmed and without trailing commas.
pub open spec fn clean_type(ty: Seq<char>) -> Seq<char> {
    let t = trim(ty);
    t.take(t.len() - trail_count(t, ','))
}

/// The map `m` (a list of distinct keys) with `k` set to `v`.
pub open spec fn pair_insert(m: Seq<(Seq<char>, Seq<char>)>, k: Seq<char>, v: Seq<char>) -> Seq<
    (Seq<char>, Seq<char>),
>
    decreases m.len(),
{
    if m.len() == 0 {
        seq![(k, v)]
    } else if m[0].0 == k {
        seq![(k, v)] + m.drop_first()
    } else {
        seq![m[0]] + pair_insert(m.drop_first(), k, v)
    }
}

/// The fields of the field-line matches `fcaps`, added to `acc`: each name
/// with its cleaned type, a later line for a name replacing an earlier one.
pub open spec fn fields_in(
    acc: Seq<(Seq<char>, Seq<char>)>,
    fcaps: Seq<Seq<Option<Seq<char>>>>,
) -> Seq<(Seq<char>, Seq<char>)>
    decreases fcaps.len(),
{
    if fcaps.len() == 0 {
        acc
    } else {
        let a = fields_in(acc, fcaps.drop_last());
        let fc = fcaps.last();
        match (group_at(fc, 2), group_at(fc, 3)) {
            (Some(name), Some(ty)) => pair_insert(a, name, clean_type(ty)),
            _ => a,
        }
    }
}

proof fn lemma_pair_insert_distinct(m: Seq<(Seq<char>, Seq<char>)>, k: Seq<char>, v: Seq<char>)
    requires
        names_distinct(m),
    ensures
        names_distinct(pair_insert(m, k, v)),
        forall|j: int|
            0 <= j < pair_insert(m, k, v).len() ==> #[trigger] pair_insert(m, k, v)[j].0 == k
                || exists|i: int| 0 <= i < m.len() && m[i].0 == pair_insert(m, k, v)[j].0,
    decreases m.len(),
{
    let r = pair_insert(m, k, v);
    if m.len() == 0 {
    } else if m[0].0 == k {
        assert forall|j: int| 0 <= j < r.len() implies #[trigger] r[j].0 == m[j].0 by {
            if j > 0 {
                assert(r[j] == m.drop_first()[j - 1]);
            }
        }
    } else {
        let rest = m.drop_first();
        assert(names_distinct(rest)) by {
            assert forall|i: int, j: int| 0 <= i < j < rest.len() implies rest[i].0 != rest[j].0 by {
                assert(rest[i] == m[i + 1] && rest[j] == m[j + 1]);
            }
        }
        lemma_pair_insert_distinct(rest, k, v);
        let pi = pair_insert(rest, k, v);
        assert(r == seq![m[0]] + pi);
        assert forall|j: int| 0 <= j < pi.len() implies #[trigger] pi[j].0 != m[0].0 by {
            if pi[j].0 != k {
                let i = choose|i: int| 0 <= i < rest.len() && rest[i].0 == pi[j].0;
                assert(rest[i] == m[i + 1]);
            }
        }
        assert forall|a: int, b: int| 0 <= a < b < r.len() implies r[a].0 != r[b].0 by {
            if a == 0 {
                assert(r[b] == pi[b - 1]);
            } else {
                assert(r[a] == pi[a - 1] && r[b] == pi[b - 1]);
            }
        }
        assert forall|j: int| 0 <= j < r.len() implies #[trigger] r[j].0 == k || exists|i: int|
            0 <= i < m.len() && m[i].0 == r[j].0 by {
            if j == 0 {
                assert(m[0].0 == r[0].0);
            } else {
                assert(r[j] == pi[j - 1]);
                if pi[j - 1].0 != k {
                    let i = choose|i: int| 0 <= i < rest.len() && rest[i].0 == pi[j - 1].0;
                    assert(m[i + 1] == rest[i]);
                }
            }
        }
    }
}

proof fn lemma_fields_in_distinct(
    acc: Seq<(Seq<char>, Seq<char>)>,
    fcaps: Seq<Seq<Option<Seq<char>>>>,
)
    requires
        names_distinct(acc),
    ensures
        names_distinct(fields_in(acc, fcaps)),
    decreases fcaps.len(),
{
    if fcaps.len() > 0 {
        lemma_fields_in_distinct(acc, fcaps.drop_last());
        let a = fields_in(acc, fcaps.drop_last());
        let fc = fcaps.last();
        if let (Some(name), Some(ty)) = (group_at(fc, 2), group_at(fc, 3)) {
            lemma_pair_insert_distinct(a, name, clean_type(ty));
        }
    }
}

/// The fields of a struct body.
pub open spec fn struct_fields(body: Seq<char>) -> Seq<(Seq<char>, Seq<char>)> {
    fields_in(Seq::empty(), regex_captures_all(field_pattern(), body))
}

/// `acc` with the struct `name` mapped to each of its fields whose type is
/// `GtsSchemaId`, the last such field winning.
pub open spec fn sid_fields_in(
    acc: Seq<(Seq<char>, Seq<char>)>,
    name: Seq<char>,
    fcaps: Seq<Seq<Option<Seq<char>>>>,
) -> Seq<(Seq<char>, Seq<char>)>
    decreases fcaps.len(),
{
    if fcaps.len() == 0 {
        acc
    } else {
        let a = sid_fields_in(acc, name, fcaps.drop_last());
        let fc = fcaps.last();
        match (group_at(fc, 2), group_at(fc, 3)) {
            (Some(field), Some(ty)) => if clean_type(ty) == "GtsSchemaId"@ {
                pair_insert(a, name, field)
            } else {
                a
            },
            _ => a,
        }
    }
}

/// For each annotated struct of the matches `caps`, the name of its
/// `GtsSchemaId` field.
pub open spec fn sid_fields(caps: Seq<Seq<Option<Seq<char>>>>) -> Seq<(Seq<char>, Seq<char>)>
    decreases caps.len(),
{
    if caps.len() == 0 {
        Seq::empty()
    } else {
        let acc = sid_fields(caps.drop_last());
        let gs = caps.last();
        match group_at(gs, 2) {
            Some(name) => sid_fields_in(
                acc,
                name,
                regex_captures_all(field_pattern(), body_of(gs)),
            ),
            None => acc,
        }
    }
}

/// A schema found in a source file.
pub struct GeneratedSchema {
    pub schema_id: String,
    pub struct_name: String,
    pub dir_path: String,
    /// `dir_path/schema_id.schema.json`, where the schema is to be written.
    pub file_rel: String,
    pub schema: JsonValue,
}

pub struct GeneratedModel {
    pub schema_id: Seq<char>,
    pub struct_name: Seq<char>,
    pub dir_path: Seq<char>,
    pub file_rel: Seq<char>,
    pub schema: Json,
}

impl GeneratedSchema {
    pub open spec fn model(&self) -> GeneratedModel {
        GeneratedModel {
            schema_id: self.schema_id@,
            struct_name: self.struct_name@,
            dir_path: self.dir_path@,
            file_rel: self.file_rel@,
            schema: self.schema.model(),
        }
    }
}

pub open spec fn generated_models(v: Seq<GeneratedSchema>) -> Seq<GeneratedModel> {
    v.map_values(|g: GeneratedSchema| g.model())
}

/// The name of the parent's `GtsSchemaId` field, where the parent has one.
pub open spec fn parent_sid_field(base: BaseModel, sids: Seq<(Seq<char>, Seq<char>)>) -> Option<
    Seq<char>,
> {
    match base {
        BaseModel::Parent(p) => field_type_of(sids, p),
        BaseModel::IsBase => None,
    }
}

/// What one annotated struct generates.
pub open spec fn generated_one(
    a: AttrsModel,
    name: Seq<char>,
    body: Seq<char>,
    sids: Seq<(Seq<char>, Seq<char>)>,
    prefix: Seq<char>,
) -> GeneratedModel {
    GeneratedModel {
        schema_id: a.schema_id,
        struct_name: name,
        dir_path: a.dir_path,
        file_rel: a.dir_path + "/"@ + a.schema_id + ".schema.json"@,
        schema: schema_json(
            a.schema_id,
            name,
            a.description,
            a.properties,
            a.base,
            struct_fields(body),
            a.const_values,
            parent_sid_field(a.base, sids),
            prefix,
        ),
    }
}

/// The schemas of the matches `caps`, in order; a struct whose attribute
/// does not parse is passed over.
pub open spec fn generated(
    caps: Seq<Seq<Option<Seq<char>>>>,
    sids: Seq<(Seq<char>, Seq<char>)>,
    prefix: Seq<char>,
) -> Seq<GeneratedModel>
    decreases caps.len(),
{
    if caps.len() == 0 {
        Seq::empty()
    } else {
        let acc = generated(caps.drop_last(), sids, prefix);
        let gs = caps.last();
        match (group_at(gs, 1), group_at(gs, 2)) {
            (Some(attr_body), Some(name)) => match attrs_of(attr_body) {
                Some(a) => acc.push(generated_one(a, name, body_of(gs), sids, prefix)),
                None => acc,
            },
            _ => acc,
        }
    }
}

/// The schemas that the source `content` defines, for the GTS identifier
/// prefix `prefix`.
pub open spec fn extracted(content: Seq<char>, prefix: Seq<char>) -> Seq<GeneratedModel> {
    let caps = regex_captures_all(struct_pattern(), content);
    generated(caps, sid_fields(caps), prefix)
}

/// The patterns the extraction uses failed to compile.
pub enum ExtractError {
    InvalidPattern,
}

/// Group `i` of a match.
fn group_at_exec(gs: &Vec<Option<String>>, i: usize) -> (r: Option<String>)
    ensures
        opt_view(r) == group_at(crate::matcher::group_views(gs@), i as int),
{
    if i < gs.len() {
        match &gs[i] {
            Some(s) => Some(s.clone()),
            None => None,
        }
    } else {
        None
    }
}

/// The text of a field type, trimmed and without trailing commas.
fn clean_type_exec(ty: &String) -> (r: String)
    ensures
        r@ == clean_type(ty@),
{
    let v = to_chars(ty.as_str());
    let (a, b) = trim_range(&v, 0, v.len());
    assert(v@.subrange(0, v.len() as int) =~= ty@);
    let ghost t = v@.subrange(a as int, b as int);
    let mut e = b;
    while e > a && v[e - 1] == ','
        invariant
            a <= e <= b <= v.len(),
            t == v@.subrange(a as int, b as int),
            forall|j: int| e <= j < b ==> #[trigger] v@[j] == ',',
        decreases e,
    {
        e = e - 1;
    }
    proof {
        assert forall|j: int| t.len() - (b - e) <= j < t.len() implies #[trigger] t[j] == ',' by {
            assert(t[j] == v@[a + j]);
        }
        if b - e < t.len() {
            assert(t[t.len() - (b - e) - 1] == v@[e - 1]);
        }
        lemma_trail_count_exact(t, ',', b - e);
    }
    assert(t.take(t.len() - trail_count(t, ',')) =~= v@.subrange(a as int, e as int));
    crate::text::sub_string(&v, a, e)
}

/// Sets key `k` of the map `m` to `v`.
fn pair_insert_exec(m: &mut Vec<(String, String)>, k: String, v: String)
    ensures
        fields_model(final(m)@) == pair_insert(fields_model(old(m)@), k@, v@),
{
    let ghost m0 = fields_model(m@);
    let mut i: usize = 0;
    assert(m0.skip(0) =~= m0);
    assert(m0.take(0) + pair_insert(m0.skip(0), k@, v@) =~= pair_insert(m0, k@, v@));
    while i < m.len()
        invariant
            0 <= i <= m@.len(),
            m@ == old(m)@,
            m0 == fields_model(m@),
            pair_insert(m0, k@, v@) == m0.take(i as int) + pair_insert(m0.skip(i as int), k@, v@),
        decreases m.len() - i,
    {
        let ghost rest = m0.skip(i as int);
        assert(rest[0] == (m@[i as int].0@, m@[i as int].1@));
        if m[i].0 == k {
            let ghost pre = m@;
            m.set(i, (k, v));
            assert(fields_model(m@) =~= m0.take(i as int) + (seq![(k@, v@)] + rest.drop_first()))
                by {
                assert forall|j: int| 0 <= j < m@.len() implies #[trigger] fields_model(m@)[j] == (
                m0.take(i as int) + (seq![(k@, v@)] + rest.drop_first()))[j] by {
                    if j != i {
                        assert(m@[j] == pre[j]);
                    }
                }
            }
            return;
        }
        assert(rest.drop_first() =~= m0.skip(i + 1));
        assert(m0.take(i as int) + (seq![rest[0]] + pair_insert(rest.drop_first(), k@, v@))
            =~= m0.take(i + 1) + pair_insert(m0.skip(i + 1), k@, v@));
        i = i + 1;
    }
    let ghost pre = m@;
    m.push((k, v));
    assert(fields_model(m@) =~= m0 + seq![(k@, v@)]);
    assert(m0.skip(m0.len() as int) =~= Seq::<(Seq<char>, Seq<char>)>::empty());
    assert(m0.take(m0.len() as int) =~= m0);
}

/// The fields of a struct body.
fn struct_fields_exec(field_re: &crate::matcher::Pattern, body: &String) -> (r: Vec<
    (String, String),
>)
    requires
        field_re.source() == field_pattern(),
    ensures
        fields_model(r@) == struct_fields(body@),
{
    let fcaps = captures_all(field_re, body.as_str());
    let ghost fm = matches_views(fcaps@);
    let mut fields: Vec<(String, String)> = Vec::new();
    let mut i: usize = 0;
    assert(fields_model(fields@) =~= Seq::<(Seq<char>, Seq<char>)>::empty());
    while i < fcaps.len()
        invariant
            0 <= i <= fcaps@.len(),
            fm == matches_views(fcaps@),
            fm.len() == fcaps@.len(),
            fields_model(fields@) == fields_in(Seq::empty(), fm.take(i as int)),
        decreases fcaps.len() - i,
    {
        assert(fm.take(i + 1).drop_last() =~= fm.take(i as int));
        assert(fm.take(i + 1).last() == crate::matcher::group_views(fcaps@[i as int]@));
        let name = group_at_exec(&fcaps[i], 2);
        let ty = group_at_exec(&fcaps[i], 3);
        match (name, ty) {
            (Some(n), Some(t)) => {
                let c = clean_type_exec(&t);
                pair_insert_exec(&mut fields, n, c);
            },
            _ => {},
        }
        i = i + 1;
    }
    assert(fm.take(fcaps.len() as int) =~= fm);
    fields
}

/// For each annotated struct, the name of its `GtsSchemaId` field.
fn sid_fields_exec(
    field_re: &crate::matcher::Pattern,
    caps: &Vec<Vec<Option<String>>>,
) -> (r: Vec<(String, String)>)
    requires
        field_re.source() == field_pattern(),
    ensures
        fields_model(r@) == sid_fields(matches_views(caps@)),
{
    let ghost cm = matches_views(caps@);
    let mut sids: Vec<(String, String)> = Vec::new();
    let mut i: usize = 0;
    assert(fields_model(sids@) =~= Seq::<(Seq<char>, Seq<char>)>::empty());
    while i < caps.len()
        invariant
            0 <= i <= caps@.len(),
            cm == matches_views(caps@),
            cm.len() == caps@.len(),
            field_re.source() == field_pattern(),
            fields_model(sids@) == sid_fields(cm.take(i as int)),
        decreases caps.len() - i,
    {
        assert(cm.take(i + 1).drop_last() =~= cm.take(i as int));
        let ghost gs = crate::matcher::group_views(caps@[i as int]@);
        assert(cm.take(i + 1).last() == gs);
        match group_at_exec(&caps[i], 2) {
            Some(struct_name) => {
                let body = match group_at_exec(&caps[i], 4) {
                    Some(b) => b,
                    None => String::new(),
                };
                assert(body@ == body_of(gs));
                let fcaps = captures_all(field_re, body.as_str());
                let ghost fm = matches_views(fcaps@);
                let ghost acc0 = fields_model(sids@);
                let mut k: usize = 0;
                assert(fm.take(0) =~= Seq::<Seq<Option<Seq<char>>>>::empty());
                while k < fcaps.len()
                    invariant
                        0 <= k <= fcaps@.len(),
                        fm == matches_views(fcaps@),
                        fm.len() == fcaps@.len(),
                        fields_model(sids@) == sid_fields_in(acc0, struct_name@, fm.take(k as int)),
                    decreases fcaps.len() - k,
                {
                    assert(fm.take(k + 1).drop_last() =~= fm.take(k as int));
                    assert(fm.take(k + 1).last() == crate::matcher::group_views(fcaps@[k as int]@));
                    let field = group_at_exec(&fcaps[k], 2);
                    let ty = group_at_exec(&fcaps[k], 3);
                    match (field, ty) {
                        (Some(f), Some(t)) => {
                            let c = clean_type_exec(&t);
                            if crate::text::str_eq_chars(&to_chars(c.as_str()), "GtsSchemaId") {
                                pair_insert_exec(&mut sids, struct_name.clone(), f);
                            }
                        },
                        _ => {},
                    }
                    k = k + 1;
                }
                assert(fm.take(fcaps.len() as int) =~= fm);
            },
            None => {},
        }
        i = i + 1;
    }
    assert(cm.take(caps.len() as int) =~= cm);
    sids
}

/// The name of the parent's `GtsSchemaId` field, where the parent has one.
#[verifier::loop_isolation(false)]
fn parent_sid_field_exec(base: &BaseAttr, sids: &Vec<(String, String)>) -> (r: Option<String>)
    ensures
        opt_view(r) == parent_sid_field(base.model(), fields_model(sids@)),
{
    match base {
        BaseAttr::Parent(p) => {
            let ghost m = fields_model(sids@);
            let mut i: usize = 0;
            assert(m.skip(0) =~= m);
            while i < sids.len()
                invariant
                    0 <= i <= sids@.len(),
                    m == fields_model(sids@),
                    field_type_of(m, p@) == field_type_of(m.skip(i as int), p@),
                decreases sids.len() - i,
            {
                let ghost rest = m.skip(i as int);
                assert(rest[0] == (sids@[i as int].0@, sids@[i as int].1@));
                if sids[i].0 == *p {
                    return Some(sids[i].1.clone());
                }
                assert(rest.drop_first() =~= m.skip(i + 1));
                i = i + 1;
            }
            None
        },
        BaseAttr::IsBase => None,
    }
}

/// Extract the schemas that the Rust source `content` defines, for the GTS
/// identifier prefix `gts_prefix`: each `#[struct_to_gts_schema(...)]`
/// struct whose attribute parses gives its schema, in source order.
pub fn extract_schemas_for_prefix(content: &str, gts_prefix: &str) -> (r: Result<
    Vec<GeneratedSchema>,
    ExtractError,
>)
    ensures
        match r {
            Ok(v) => regex_compiles(struct_pattern()) && regex_compiles(field_pattern())
                && generated_models(v@) == extracted(content@, gts_prefix@),
            Err(_) => !regex_compiles(struct_pattern()) || !regex_compiles(field_pattern()),
        },
{
    let re = match compile(
        r#"(?s)#\[struct_to_gts_schema\(((?:"[^"]*"|[^)"]+)+)\)\]\s*(?:(?:#\[[^\]]+\]|///[^\n]*|//![^\n]*)\s*)*(?:pub\s+)?struct\s+(\w+)(?:<([^>]+)>)?\s*(?:\{([^}]*)\}|;)"#,
    ) {
        Ok(p) => p,
        Err(_) => return Err(ExtractError::InvalidPattern),
    };
    let field_re = match compile(r"(?m)^\s*(?:pub\s+)?(r#)?(\w+)\s*:\s*([^,\n]+)") {
        Ok(p) => p,
        Err(_) => return Err(ExtractError::InvalidPattern),
    };
    let caps = captures_all(&re, content);
    let ghost cm = matches_views(caps@);
    let sids = sid_fields_exec(&field_re, &caps);
    let ghost sm = fields_model(sids@);
    let mut results: Vec<GeneratedSchema> = Vec::new();
    let mut i: usize = 0;
    assert(generated_models(results@) =~= Seq::<GeneratedModel>::empty());
    while i < caps.len()
        invariant
            0 <= i <= caps@.len(),
            cm == matches_views(caps@),
            cm.len() == caps@.len(),
            sm == fields_model(sids@),
            sm == sid_fields(cm),
            field_re.source() == field_pattern(),
            generated_models(results@) == generated(cm.take(i as int), sm, gts_prefix@),
        decreases caps.len() - i,
    {
        assert(cm.take(i + 1).drop_last() =~= cm.take(i as int));
        let ghost gs = crate::matcher::group_views(caps@[i as int]@);
        assert(cm.take(i + 1).last() == gs);
        let attr_body = group_at_exec(&caps[i], 1);
        let struct_name = group_at_exec(&caps[i], 2);
        match (attr_body, struct_name) {
            (Some(attr_body), Some(struct_name)) => {
                match parse_macro_attrs(attr_body.as_str()) {
                    Some(attrs) => {
                        let body = match group_at_exec(&caps[i], 4) {
                            Some(b) => b,
                            None => String::new(),
                        };
                        let parent_field = parent_sid_field_exec(&attrs.base, &sids);
                        let field_types = struct_fields_exec(&field_re, &body);
                        proof {
                            lemma_fields_in_distinct(
                                Seq::empty(),
                                regex_captures_all(field_pattern(), body@),
                            );
                        }
                        let schema = build_json_schema_for_prefix(
                            attrs.schema_id.as_str(),
                            struct_name.as_str(),
                            match &attrs.description {
                                Some(d) => Some(d.as_str()),
                                None => None,
                            },
                            match &attrs.properties {
                                Some(p) => Some(p.as_str()),
                                None => None,
                            },
                            &attrs.base,
                            field_types.as_slice(),
                            attrs.const_values.as_slice(),
                            match &parent_field {
                                Some(f) => Some(f.as_str()),
                                None => None,
                            },
                            gts_prefix,
                        );
                        let file_rel = crate::schema::concat_all(
                            attrs.dir_path.as_str(),
                            "/",
                            attrs.schema_id.as_str(),
                            ".schema.json",
                        );
                        let g = GeneratedSchema {
                            schema_id: attrs.schema_id,
                            struct_name,
                            dir_path: attrs.dir_path,
                            file_rel,
                            schema,
                        };
                        let ghost pre = results@;
                        results.push(g);
                        assert(generated_models(results@) =~= generated_models(pre).push(
                            g.model(),
                        ));
                    },
                    None => {},
                }
            },
            _ => {},
        }
        i = i + 1;
    }
    assert(cm.take(caps.len() as int) =~= cm);
    Ok(results)
}

/// Extract the schemas that the Rust source `content` defines; the GTS
/// identifier types take the identifier prefix that the `gts` crate was built
/// with.
pub fn extract_schemas(content: &str) -> (r: Result<Vec<GeneratedSchema>, ExtractError>)
    ensures
        match r {
            Ok(v) => regex_compiles(struct_pattern()) && regex_compiles(field_pattern()) && exists|
                p: Seq<char>,
            | gts_prefix_valid(p) && #[trigger] extracted(content@, p) == generated_models(v@),
            Err(_) => !regex_compiles(struct_pattern()) || !regex_compiles(field_pattern()),
        },
{
    let prefix = gts_prefix();
    let r = extract_schemas_for_prefix(content, prefix.as_str());
    match &r {
        Ok(v) => {
            assert(extracted(content@, prefix@) == generated_models(v@));
        },
        Err(_) => {},
    }
    r
}

/// The malformed `const_values` entries met while the annotated structs of
/// the matches `caps` are parsed, in order.
pub open spec fn warnings_of(caps: Seq<Seq<Option<Seq<char>>>>) -> Seq<Seq<char>>
    decreases caps.len(),
{
    if caps.len() == 0 {
        Seq::empty()
    } else {
        warnings_of(caps.drop_last()) + match group_at(caps.last(), 1) {
            Some(attr_body) => attr_skipped(attr_body),
            None => Seq::empty(),
        }
    }
}

/// The malformed `const_values` entries that extracting the schemas of the
/// Rust source `content` skips, in source order; an error exactly where
/// `extract_schemas` fails.
pub fn const_value_warnings(content: &str) -> (r: Result<Vec<String>, ExtractError>)
    ensures
        match r {
            Ok(v) => regex_compiles(struct_pattern()) && regex_compiles(field_pattern())
                && crate::schema::views(v@) == warnings_of(
                regex_captures_all(struct_pattern(), content@),
            ),
            Err(_) => !regex_compiles(struct_pattern()) || !regex_compiles(field_pattern()),
        },
{
    let re = match compile(
        r#"(?s)#\[struct_to_gts_schema\(((?:"[^"]*"|[^)"]+)+)\)\]\s*(?:(?:#\[[^\]]+\]|///[^\n]*|//![^\n]*)\s*)*(?:pub\s+)?struct\s+(\w+)(?:<([^>]+)>)?\s*(?:\{([^}]*)\}|;)"#,
    ) {
        Ok(p) => p,
        Err(_) => return Err(ExtractError::InvalidPattern),
    };
    match compile(r"(?m)^\s*(?:pub\s+)?(r#)?(\w+)\s*:\s*([^,\n]+)") {
        Ok(_) => {},
        Err(_) => return Err(ExtractError::InvalidPattern),
    }
    let caps = captures_all(&re, content);
    let ghost cm = matches_views(caps@);
    let mut warnings: Vec<String> = Vec::new();
    let mut i: usize = 0;
    assert(crate::schema::views(warnings@) =~= Seq::<Seq<char>>::empty());
    while i < caps.len()
        invariant
            0 <= i <= caps@.len(),
            cm == matches_views(caps@),
            cm.len() == caps@.len(),
            crate::schema::views(warnings@) == warnings_of(cm.take(i as int)),
        decreases caps.len() - i,
    {
        assert(cm.take(i + 1).drop_last() =~= cm.take(i as int));
        let ghost gs = crate::matcher::group_views(caps@[i as int]@);
        assert(cm.take(i + 1).last() == gs);
        let ghost before = crate::schema::views(warnings@);
        match group_at_exec(&caps[i], 1) {
            Some(attr_body) => {
                let found = skipped_const_values(attr_body.as_str());
                let ghost add = crate::schema::views(found@);
                let mut k: usize = 0;
                while k < found.len()
                    invariant
                        0 <= k <= found@.len(),
                        add == crate::schema::views(found@),
                        crate::schema::views(warnings@) == before + add.take(k as int),
                    decreases found.len() - k,
                {
                    let ghost pre = warnings@;
                    let w = found[k].clone();
                    warnings.push(w);
                    assert(warnings@ == pre.push(w));
                    assert(crate::schema::views(warnings@) =~= crate::schema::views(pre).push(w@));
                    assert(add.take(k + 1) =~= add.take(k as int).push(found@[k as int]@));
                    assert(crate::schema::views(warnings@) =~= before + add.take(k + 1));
                    k = k + 1;
                }
                assert(add.take(found.len() as int) =~= add);
            },
            None => {
                assert(before + Seq::<Seq<char>>::empty() =~= before);
            },
        }
        i = i + 1;
    }
    assert(cm.take(caps.len() as int) =~= cm);
    Ok(warnings)
}

// ---------------------------------------------------------------------------
// The order of the structs in a file
// ---------------------------------------------------------------------------

/// The field-name table after one more match `gs` is read.
pub open spec fn sid_step(acc: Seq<(Seq<char>, Seq<char>)>, gs: Seq<Option<Seq<char>>>) -> Seq<
    (Seq<char>, Seq<char>),
> {
    match group_at(gs, 2) {
        Some(name) => sid_fields_in(acc, name, regex_captures_all(field_pattern(), body_of(gs))),
        None => acc,
    }
}

proof fn lemma_pair_insert_lookup(
    m: Seq<(Seq<char>, Seq<char>)>,
    k: Seq<char>,
    v: Seq<char>,
    n: Seq<char>,
)
    ensures
        field_type_of(pair_insert(m, k, v), n) == (if n == k {
            Some(v)
        } else {
            field_type_of(m, n)
        }),
    decreases m.len(),
{
    let r = pair_insert(m, k, v);
    if m.len() == 0 {
        assert(r[0] == (k, v));
        assert(r.drop_first() =~= Seq::<(Seq<char>, Seq<char>)>::empty());
        assert(field_type_of(r.drop_first(), n) is None);
        assert(field_type_of(m, n) is None);
    } else if m[0].0 == k {
        assert(r[0] == (k, v));
        assert(r.drop_first() =~= m.drop_first());
        if n != k {
            assert(field_type_of(r, n) == field_type_of(r.drop_first(), n));
            assert(field_type_of(m, n) == field_type_of(m.drop_first(), n));
        }
    } else {
        lemma_pair_insert_lookup(m.drop_first(), k, v, n);
        assert(r[0] == m[0]);
        assert(r.drop_first() =~= pair_insert(m.drop_first(), k, v));
    }
}

proof fn lemma_sid_in_pointwise(
    acc1: Seq<(Seq<char>, Seq<char>)>,
    acc2: Seq<(Seq<char>, Seq<char>)>,
    name: Seq<char>,
    fc: Seq<Seq<Option<Seq<char>>>>,
    n: Seq<char>,
)
    requires
        field_type_of(acc1, n) == field_type_of(acc2, n),
    ensures
        field_type_of(sid_fields_in(acc1, name, fc), n) == field_type_of(
            sid_fields_in(acc2, name, fc),
            n,
        ),
        n != name ==> field_type_of(sid_fields_in(acc1, name, fc), n) == field_type_of(acc1, n),
    decreases fc.len(),
{
    if fc.len() > 0 {
        lemma_sid_in_pointwise(acc1, acc2, name, fc.drop_last(), n);
        let a1 = sid_fields_in(acc1, name, fc.drop_last());
        let a2 = sid_fields_in(acc2, name, fc.drop_last());
        let f = fc.last();
        if let (Some(field), Some(ty)) = (group_at(f, 2), group_at(f, 3)) {
            if clean_type(ty) == "GtsSchemaId"@ {
                lemma_pair_insert_lookup(a1, name, field, n);
                lemma_pair_insert_lookup(a2, name, field, n);
            }
        }
    }
}

proof fn lemma_sid_step_pointwise(
    acc1: Seq<(Seq<char>, Seq<char>)>,
    acc2: Seq<(Seq<char>, Seq<char>)>,
    gs: Seq<Option<Seq<char>>>,
    n: Seq<char>,
)
    requires
        field_type_of(acc1, n) == field_type_of(acc2, n),
    ensures
        field_type_of(sid_step(acc1, gs), n) == field_type_of(sid_step(acc2, gs), n),
        group_at(gs, 2) != Some(n) ==> field_type_of(sid_step(acc1, gs), n) == field_type_of(
            acc1,
            n,
        ),
{
    if let Some(name) = group_at(gs, 2) {
        lemma_sid_in_pointwise(
            acc1,
            acc2,
            name,
            regex_captures_all(field_pattern(), body_of(gs)),
            n,
        );
    }
}

proof fn lemma_sid_step_commute(
    acc: Seq<(Seq<char>, Seq<char>)>,
    a: Seq<Option<Seq<char>>>,
    b: Seq<Option<Seq<char>>>,
    n: Seq<char>,
)
    requires
        group_at(a, 2) != group_at(b, 2),
    ensures
        field_type_of(sid_step(sid_step(acc, a), b), n) == field_type_of(
            sid_step(sid_step(acc, b), a),
            n,
        ),
{
    let xa = sid_step(acc, a);
    let xb = sid_step(acc, b);
    if group_at(b, 2) != Some(n) {
        lemma_sid_step_pointwise(xa, xa, b, n);
        lemma_sid_step_pointwise(acc, acc, b, n);
        lemma_sid_step_pointwise(acc, xb, a, n);
    } else {
        lemma_sid_step_pointwise(acc, acc, a, n);
        lemma_sid_step_pointwise(xb, xb, a, n);
        lemma_sid_step_pointwise(xa, acc, b, n);
    }
}

proof fn lemma_sid_fields_swap(
    pre: Seq<Seq<Option<Seq<char>>>>,
    a: Seq<Option<Seq<char>>>,
    b: Seq<Option<Seq<char>>>,
    post: Seq<Seq<Option<Seq<char>>>>,
    n: Seq<char>,
)
    requires
        group_at(a, 2) != group_at(b, 2),
    ensures
        field_type_of(sid_fields(pre + seq![a, b] + post), n) == field_type_of(
            sid_fields(pre + seq![b, a] + post),
            n,
        ),
    decreases post.len(),
{
    let x = pre + seq![a, b] + post;
    let y = pre + seq![b, a] + post;
    if post.len() == 0 {
        assert(x.drop_last() =~= pre.push(a));
        assert(y.drop_last() =~= pre.push(b));
        assert(pre.push(a).drop_last() =~= pre);
        assert(pre.push(b).drop_last() =~= pre);
        assert(x.last() == b && y.last() == a);
        assert(pre.push(a).last() == a && pre.push(b).last() == b);
        assert(sid_fields(pre.push(a)) == sid_step(sid_fields(pre), a));
        assert(sid_fields(pre.push(b)) == sid_step(sid_fields(pre), b));
        assert(sid_fields(x) == sid_step(sid_fields(pre.push(a)), b));
        assert(sid_fields(y) == sid_step(sid_fields(pre.push(b)), a));
        lemma_sid_step_commute(sid_fields(pre), a, b, n);
    } else {
        lemma_sid_fields_swap(pre, a, b, post.drop_last(), n);
        assert(x.drop_last() =~= pre + seq![a, b] + post.drop_last());
        assert(y.drop_last() =~= pre + seq![b, a] + post.drop_last());
        assert(x.last() == post.last() && y.last() == post.last());
        assert(sid_fields(x) == sid_step(sid_fields(x.drop_last()), post.last()));
        assert(sid_fields(y) == sid_step(sid_fields(y.drop_last()), post.last()));
        lemma_sid_step_pointwise(sid_fields(x.drop_last()), sid_fields(y.drop_last()), post.last(), n);
    }
}

proof fn lemma_generated_same_table(
    caps: Seq<Seq<Option<Seq<char>>>>,
    s1: Seq<(Seq<char>, Seq<char>)>,
    s2: Seq<(Seq<char>, Seq<char>)>,
    prefix: Seq<char>,
)
    requires
        forall|n: Seq<char>| #[trigger] field_type_of(s1, n) == field_type_of(s2, n),
    ensures
        generated(caps, s1, prefix) == generated(caps, s2, prefix),
    decreases caps.len(),
{
    if caps.len() > 0 {
        lemma_generated_same_table(caps.drop_last(), s1, s2, prefix);
        let gs = caps.last();
        if let (Some(attr_body), Some(name)) = (group_at(gs, 1), group_at(gs, 2)) {
            if let Some(a) = attrs_of(attr_body) {
                assert(parent_sid_field(a.base, s1) == parent_sid_field(a.base, s2)) by {
                    if let BaseModel::Parent(p) = a.base {
                        assert(field_type_of(s1, p) == field_type_of(s2, p));
                    }
                }
            }
        }
    }
}

proof fn lemma_generated_concat(
    x: Seq<Seq<Option<Seq<char>>>>,
    z: Seq<Seq<Option<Seq<char>>>>,
    sids: Seq<(Seq<char>, Seq<char>)>,
    prefix: Seq<char>,
)
    ensures
        generated(x + z, sids, prefix) == generated(x, sids, prefix) + generated(z, sids, prefix),
    decreases z.len(),
{
    if z.len() == 0 {
        assert(x + z =~= x);
        assert(generated(x, sids, prefix) + generated(z, sids, prefix) =~= generated(
            x,
            sids,
            prefix,
        ));
    } else {
        lemma_generated_concat(x, z.drop_last(), sids, prefix);
        assert((x + z).drop_last() =~= x + z.drop_last());
        assert((x + z).last() == z.last());
        let gx = generated(x, sids, prefix);
        let gz0 = generated(z.drop_last(), sids, prefix);
        let gs = z.last();
        match (group_at(gs, 1), group_at(gs, 2)) {
            (Some(attr_body), Some(name)) => match attrs_of(attr_body) {
                Some(a) => {
                    let g = generated_one(a, name, body_of(gs), sids, prefix);
                    assert((gx + gz0).push(g) =~= gx + gz0.push(g));
                },
                None => {},
            },
            _ => {},
        }
    }
}

/// The schemas of a file do not depend on the order of its annotated
/// structs: swapping two neighbouring structs of different names gives the
/// same schemas, in the swapped order. In particular a child's parent is
/// found in the whole file, whether it comes before or after the child.
pub proof fn law_struct_order(
    pre: Seq<Seq<Option<Seq<char>>>>,
    a: Seq<Option<Seq<char>>>,
    b: Seq<Option<Seq<char>>>,
    post: Seq<Seq<Option<Seq<char>>>>,
    prefix: Seq<char>,
)
    requires
        group_at(a, 2) != group_at(b, 2),
    ensures
        ({
            let x = pre + seq![a, b] + post;
            let y = pre + seq![b, a] + post;
            let sx = sid_fields(x);
            &&& generated(x, sx, prefix) == generated(pre, sx, prefix) + generated(
                seq![a],
                sx,
                prefix,
            ) + generated(seq![b], sx, prefix) + generated(post, sx, prefix)
            &&& generated(y, sid_fields(y), prefix) == generated(pre, sx, prefix) + generated(
                seq![b],
                sx,
                prefix,
            ) + generated(seq![a], sx, prefix) + generated(post, sx, prefix)
        }),
{
    let x = pre + seq![a, b] + post;
    let y = pre + seq![b, a] + post;
    let sx = sid_fields(x);
    let sy = sid_fields(y);
    assert forall|n: Seq<char>| #[trigger] field_type_of(sy, n) == field_type_of(sx, n) by {
        lemma_sid_fields_swap(pre, a, b, post, n);
    }
    lemma_generated_same_table(y, sy, sx, prefix);
    assert(x =~= pre + seq![a] + seq![b] + post);
    assert(y =~= pre + seq![b] + seq![a] + post);
    lemma_generated_concat(pre, seq![a], sx, prefix);
    lemma_generated_concat(pre + seq![a], seq![b], sx, prefix);
    lemma_generated_concat(pre + seq![a] + seq![b], post, sx, prefix);
    lemma_generated_concat(pre, seq![b], sx, prefix);
    lemma_generated_concat(pre + seq![b], seq![a], sx, prefix);
    lemma_generated_concat(pre + seq![b] + seq![a], post, sx, prefix);
}

} // verus!
