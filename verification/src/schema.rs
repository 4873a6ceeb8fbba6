//! Building the JSON schema of an annotated struct.

use vstd::prelude::*;
use crate::attrs::{BaseAttr, BaseModel};
use crate::json::{
    insert_entry,
    insert_field,
    keys_distinct,
    lemma_insert_keeps_distinct,
    model_entries,
    model_items,
    new_entries,
    Json,
    JsonValue,
};
use crate::text::{
    find_char,
    starts_with,
    find_in,
    lemma_find_char_props,
    lemma_rfind_char_exact,
    rfind_char,
    slice_chars,
    string_from_chars,
    to_chars,
    trim,
    trim_range,
};
use crate::types::{
    gts_prefix,
    gts_prefix_valid,
    push_field,
    push_item,
    single,
    single_field,
    type_schema,
    type_schema_for_prefix,
};

verus! {

// ---------------------------------------------------------------------------
// Parent schema identifiers
// ---------------------------------------------------------------------------

/// Number of trailing `c` in `s`.
pub open spec fn trail_count(s: Seq<char>, c: char) -> nat
    decreases s.len(),
{
    if s.len() > 0 && s.last() == c {
        1 + trail_count(s.drop_last(), c)
    } else {
        0
    }
}

pub proof fn lemma_trail_count_exact(s: Seq<char>, c: char, k: int)
    requires
        0 <= k <= s.len(),
        forall|j: int| s.len() - k <= j < s.len() ==> #[trigger] s[j] == c,
        k < s.len() ==> s[s.len() - k - 1] != c,
    ensures
        trail_count(s, c) == k,
    decreases k,
{
    if k > 0 {
        assert forall|j: int| s.len() - 1 - (k - 1) <= j < s.len() - 1 implies #[trigger] s.drop_last()[j]
            == c by {
            assert(s.drop_last()[j] == s[j]);
        }
        lemma_trail_count_exact(s.drop_last(), c, k - 1);
    }
}

/// The identifier of the parent of the schema `id`: `id` without its
/// trailing `~`s, cut after its last remaining `~`; `id` itself where no
/// `~` remains.
pub open spec fn parent_schema_id(id: Seq<char>) -> Seq<char> {
    let s = id.take(id.len() - trail_count(id, '~'));
    match rfind_char(s, '~') {
        Some(pos) => s.take(pos as int).push('~'),
        None => id,
    }
}

/// Derive parent schema ID from child schema ID, e.g.
/// `gts.x.core.events.type.v1~x.core.audit.event.v1~` gives
/// `gts.x.core.events.type.v1~`.
pub fn derive_parent_schema_id(schema_id: &str) -> (r: String)
    ensures
        r@ == parent_schema_id(schema_id@),
{
    let v = to_chars(schema_id);
    let n = v.len();
    let mut b = n;
    while b > 0 && v[b - 1] == '~'
        invariant
            n == v@.len(),
            0 <= b <= n,
            forall|j: int| b <= j < n ==> #[trigger] v@[j] == '~',
        decreases b,
    {
        b = b - 1;
    }
    proof {
        lemma_trail_count_exact(v@, '~', n - b);
    }
    let ghost s = v@.take(b as int);
    assert(s == schema_id@.take(schema_id@.len() - trail_count(schema_id@, '~')));
    let mut k = b;
    while k > 0 && v[k - 1] != '~'
        invariant
            0 <= k <= b <= n,
            n == v@.len(),
            s == v@.take(b as int),
            forall|j: int| k <= j < b ==> #[trigger] v@[j] != '~',
        decreases k,
    {
        k = k - 1;
    }
    proof {
        assert forall|j: int| k <= j < s.len() implies #[trigger] s[j] != '~' by {
            assert(s[j] == v@[j]);
        }
        lemma_rfind_char_exact(s, '~', k as int);
    }
    if k > 0 {
        let mut out = slice_chars(&v, 0, k - 1);
        out.push('~');
        assert(out@ =~= s.take(k - 1).push('~'));
        string_from_chars(out.as_slice())
    } else {
        schema_id.to_owned()
    }
}

/// The parent of a child schema identifier is the identifier without its
/// last segment: for a parent `p` ending in `~` and a segment `seg` without
/// `~`, the parent of `p` + `seg` + `~` is `p`.
pub proof fn law_parent_of_child(p: Seq<char>, seg: Seq<char>)
    requires
        p.len() > 0,
        p.last() == '~',
        seg.len() > 0,
        forall|i: int| 0 <= i < seg.len() ==> #[trigger] seg[i] != '~',
    ensures
        parent_schema_id(p + seg.push('~')) == p,
{
    let id = p + seg.push('~');
    let s = p + seg;
    assert(id.drop_last() =~= s);
    assert(s.last() == seg.last());
    assert(trail_count(s, '~') == 0);
    assert(trail_count(id, '~') == 1);
    assert(id.take(id.len() - 1) =~= s);
    assert forall|j: int| p.len() <= j < s.len() implies #[trigger] s[j] != '~' by {
        assert(s[j] == seg[j - p.len()]);
    }
    assert(s[p.len() - 1] == '~');
    lemma_rfind_char_exact(s, '~', p.len() as int);
    assert(s.take(p.len() - 1).push('~') =~= p);
}

// ---------------------------------------------------------------------------
// Sorting names
// ---------------------------------------------------------------------------

/// `a` comes before `b` in the order of `String`: character by character,
/// a proper prefix first.
pub open spec fn str_lt(a: Seq<char>, b: Seq<char>) -> bool
    decreases a.len(),
{
    if a.len() == 0 {
        b.len() > 0
    } else if b.len() == 0 {
        false
    } else if a[0] != b[0] {
        a[0] < b[0]
    } else {
        str_lt(a.drop_first(), b.drop_first())
    }
}

pub open spec fn str_le(a: Seq<char>, b: Seq<char>) -> bool {
    !str_lt(b, a)
}

/// `x` placed into the sorted `s` before the first element not below it.
pub open spec fn insert_sorted(s: Seq<Seq<char>>, x: Seq<char>) -> Seq<Seq<char>>
    decreases s.len(),
{
    if s.len() == 0 {
        seq![x]
    } else if str_le(x, s[0]) {
        seq![x] + s
    } else {
        seq![s[0]] + insert_sorted(s.drop_first(), x)
    }
}

/// `s` sorted in the order of `String`.
pub open spec fn sort_strs(s: Seq<Seq<char>>) -> Seq<Seq<char>>
    decreases s.len(),
{
    if s.len() == 0 {
        Seq::empty()
    } else {
        insert_sorted(sort_strs(s.drop_last()), s.last())
    }
}

pub open spec fn is_sorted(s: Seq<Seq<char>>) -> bool {
    forall|i: int, j: int| 0 <= i < j < s.len() ==> str_le(s[i], s[j])
}

proof fn lemma_str_lt_irrefl(a: Seq<char>)
    ensures
        !str_lt(a, a),
    decreases a.len(),
{
    if a.len() > 0 {
        lemma_str_lt_irrefl(a.drop_first());
    }
}

proof fn lemma_str_lt_total(a: Seq<char>, b: Seq<char>)
    ensures
        a == b || str_lt(a, b) || str_lt(b, a),
    decreases a.len(),
{
    if a.len() > 0 && b.len() > 0 && a[0] == b[0] {
        lemma_str_lt_total(a.drop_first(), b.drop_first());
        if a.drop_first() == b.drop_first() {
            assert(a =~= seq![a[0]] + a.drop_first());
            assert(b =~= seq![b[0]] + b.drop_first());
        }
    } else if a.len() == 0 && b.len() == 0 {
        assert(a =~= b);
    }
}

proof fn lemma_str_lt_trans(a: Seq<char>, b: Seq<char>, c: Seq<char>)
    requires
        str_lt(a, b),
        str_lt(b, c),
    ensures
        str_lt(a, c),
    decreases a.len(),
{
    if a.len() > 0 && b.len() > 0 && c.len() > 0 && a[0] == b[0] && b[0] == c[0] {
        lemma_str_lt_trans(a.drop_first(), b.drop_first(), c.drop_first());
    }
}

proof fn lemma_str_lt_asym(a: Seq<char>, b: Seq<char>)
    requires
        str_lt(a, b),
    ensures
        !str_lt(b, a),
{
    if str_lt(b, a) {
        lemma_str_lt_trans(a, b, a);
        lemma_str_lt_irrefl(a);
    }
}

proof fn lemma_str_le_trans(a: Seq<char>, b: Seq<char>, c: Seq<char>)
    requires
        str_le(a, b),
        str_le(b, c),
    ensures
        str_le(a, c),
{
    lemma_str_lt_total(a, b);
    lemma_str_lt_total(b, c);
    if str_lt(c, a) {
        if a == b {
        } else if b == c {
        } else {
            lemma_str_lt_trans(a, b, c);
            lemma_str_lt_trans(c, a, b);
            lemma_str_lt_irrefl(c);
            lemma_str_lt_trans(c, b, c);
        }
    }
}

proof fn lemma_insert_sorted(s: Seq<Seq<char>>, x: Seq<char>)
    requires
        is_sorted(s),
    ensures
        is_sorted(insert_sorted(s, x)),
        insert_sorted(s, x).to_multiset() == s.to_multiset().insert(x),
    decreases s.len(),
{
    broadcast use vstd::multiset::group_multiset_axioms, vstd::seq_lib::group_seq_properties;

    if s.len() == 0 {
        assert(seq![x] =~= Seq::<Seq<char>>::empty().push(x));
    } else if str_le(x, s[0]) {
        let r = seq![x] + s;
        assert forall|i: int, j: int| 0 <= i < j < r.len() implies str_le(r[i], r[j]) by {
            if i == 0 {
                if j > 1 {
                    lemma_str_le_trans(x, s[0], s[j - 1]);
                }
            }
        }
        vstd::seq_lib::lemma_multiset_commutative(seq![x], s);
        assert(seq![x] =~= Seq::<Seq<char>>::empty().push(x));
    } else {
        let t = s.drop_first();
        assert(is_sorted(t));
        lemma_insert_sorted(t, x);
        let it = insert_sorted(t, x);
        let r = seq![s[0]] + it;
        lemma_str_lt_total(x, s[0]);
        assert forall|i: int, j: int| 0 <= i < j < r.len() implies str_le(r[i], r[j]) by {
            if i == 0 {
                lemma_str_lt_asym(s[0], x);
                let y = it[j - 1];
                assert(it.to_multiset().count(y) > 0);
                assert(t.to_multiset().insert(x).count(y) > 0);
                if y != x {
                    assert(t.to_multiset().count(y) > 0);
                    assert(t.contains(y));
                    let m = choose|m: int| 0 <= m < t.len() && t[m] == y;
                    assert(t[m] == s[m + 1]);
                }
            }
        }
        vstd::seq_lib::lemma_multiset_commutative(seq![s[0]], it);
        vstd::seq_lib::lemma_multiset_commutative(seq![s[0]], t);
        assert(s =~= seq![s[0]] + t);
    }
}

/// Sorting orders the names and keeps each of them as often as it occurs:
/// `sort_strs(s)` is sorted and a permutation of `s`.
pub proof fn law_sort_strs(s: Seq<Seq<char>>)
    ensures
        is_sorted(sort_strs(s)),
        sort_strs(s).to_multiset() == s.to_multiset(),
    decreases s.len(),
{
    broadcast use vstd::multiset::group_multiset_axioms, vstd::seq_lib::group_seq_properties;

    if s.len() > 0 {
        law_sort_strs(s.drop_last());
        lemma_insert_sorted(sort_strs(s.drop_last()), s.last());
        assert(s =~= s.drop_last().push(s.last()));
    }
}

/// Whether `a` comes before `b` in the order of `String`.
fn string_lt(a: &String, b: &String) -> (r: bool)
    ensures
        r == str_lt(a@, b@),
{
    let x = to_chars(a.as_str());
    let y = to_chars(b.as_str());
    let mut i: usize = 0;
    assert(x@.skip(0) =~= x@);
    assert(y@.skip(0) =~= y@);
    loop
        invariant
            0 <= i <= x.len(),
            i <= y.len(),
            str_lt(a@, b@) == str_lt(x@.skip(i as int), y@.skip(i as int)),
            x@ == a@,
            y@ == b@,
        decreases x.len() - i,
    {
        let ghost xs = x@.skip(i as int);
        let ghost ys = y@.skip(i as int);
        if i == x.len() {
            return i < y.len();
        }
        if i == y.len() {
            return false;
        }
        if x[i] != y[i] {
            return x[i] < y[i];
        }
        assert(xs.drop_first() =~= x@.skip(i + 1));
        assert(ys.drop_first() =~= y@.skip(i + 1));
        i = i + 1;
    }
}

pub open spec fn views(v: Seq<String>) -> Seq<Seq<char>> {
    v.map_values(|s: String| s@)
}

/// Sorts names in the order of `String`.
pub fn sort_names(names: Vec<String>) -> (r: Vec<String>)
    ensures
        views(r@) == sort_strs(views(names@)),
{
    let mut sorted: Vec<String> = Vec::new();
    let mut i: usize = 0;
    while i < names.len()
        invariant
            0 <= i <= names.len(),
            views(sorted@) == sort_strs(views(names@.take(i as int))),
        decreases names.len() - i,
    {
        let x = names[i].clone();
        let ghost old_sorted = views(sorted@);
        let mut k: usize = 0;
        assert(old_sorted.skip(0) =~= old_sorted);
        assert(old_sorted.take(0) + insert_sorted(old_sorted, x@) =~= insert_sorted(old_sorted, x@));
        while k < sorted.len() && string_lt(&sorted[k], &x)
            invariant
                0 <= k <= sorted.len(),
                views(sorted@) == old_sorted,
                insert_sorted(old_sorted, x@) == old_sorted.take(k as int) + insert_sorted(
                    old_sorted.skip(k as int),
                    x@,
                ),
            decreases sorted.len() - k,
        {
            let ghost rest = old_sorted.skip(k as int);
            assert(rest[0] == sorted@[k as int]@);
            assert(rest.drop_first() =~= old_sorted.skip(k + 1));
            assert(old_sorted.take(k as int) + (seq![rest[0]] + insert_sorted(rest.drop_first(), x@))
                =~= old_sorted.take(k + 1) + insert_sorted(old_sorted.skip(k + 1), x@));
            k = k + 1;
        }
        let ghost rest = old_sorted.skip(k as int);
        if k < sorted.len() {
            assert(rest[0] == sorted@[k as int]@);
        }
        let ghost pre = sorted@;
        sorted.insert(k, x);
        assert(views(sorted@) =~= old_sorted.take(k as int) + (seq![x@] + rest));
        assert(names@.take(i + 1).drop_last() =~= names@.take(i as int));
        assert(views(names@.take(i + 1)).drop_last() =~= views(names@.take(i as int)));
        i = i + 1;
    }
    assert(names@.take(names.len() as int) =~= names@);
    sorted
}

// ---------------------------------------------------------------------------
// The schema of a struct
// ---------------------------------------------------------------------------

/// The names and types of a struct's fields.
pub open spec fn fields_model(fts: Seq<(String, String)>) -> Seq<(Seq<char>, Seq<char>)> {
    fts.map_values(|e: (String, String)| (e.0@, e.1@))
}

/// The type of the field `name`.
pub open spec fn field_type_of(fts: Seq<(Seq<char>, Seq<char>)>, name: Seq<char>) -> Option<
    Seq<char>,
>
    decreases fts.len(),
{
    if fts.len() == 0 {
        None
    } else if fts[0].0 == name {
        Some(fts[0].1)
    } else {
        field_type_of(fts.drop_first(), name)
    }
}

/// No two fields share a name, as in a map from names to types.
pub open spec fn names_distinct(fts: Seq<(Seq<char>, Seq<char>)>) -> bool {
    forall|i: int, j: int| 0 <= i < j < fts.len() ==> fts[i].0 != fts[j].0
}

/// The pieces of `s` between its commas (`str::split(',')`).
pub open spec fn split_commas(s: Seq<char>) -> Seq<Seq<char>>
    decreases s.len(),
{
    match find_char(s, ',') {
        Some(p) => {
            proof {
                lemma_find_char_props(s, ',');
            }
            seq![s.take(p as int)] + split_commas(s.skip(p + 1 as int))
        },
        None => seq![s],
    }
}

/// The properties a schema lists: those of `properties_list`, split at
/// commas and trimmed, where it is given; every field otherwise.
pub open spec fn property_names(
    properties_list: Option<Seq<char>>,
    fts: Seq<(Seq<char>, Seq<char>)>,
) -> Seq<Seq<char>> {
    match properties_list {
        Some(props) => split_commas(props).map_values(|p: Seq<char>| trim(p)),
        None => fts.map_values(|e: (Seq<char>, Seq<char>)| e.0),
    }
}

/// The property schemas of the listed names that are fields, and the names
/// of those that are required, in the order listed.
pub open spec fn collect_props(
    names: Seq<Seq<char>>,
    fts: Seq<(Seq<char>, Seq<char>)>,
    prefix: Seq<char>,
) -> (Seq<(Seq<char>, Json)>, Seq<Seq<char>>)
    decreases names.len(),
{
    if names.len() == 0 {
        (Seq::empty(), Seq::empty())
    } else {
        let (ps, req) = collect_props(names.drop_last(), fts, prefix);
        let n = names.last();
        match field_type_of(fts, n) {
            Some(ft) => {
                let (is_required, ts) = type_schema(ft, prefix);
                (insert_entry(ps, n, ts), if is_required {
                    req.push(n)
                } else {
                    req
                })
            },
            None => (ps, req),
        }
    }
}

/// The `const` constraint `{"const": v}`.
pub open spec fn const_of(v: Json) -> Json {
    single("const"@, v)
}

/// The property schemas `ps` with the `const` constraints of a child schema:
/// the parent's schema-id field fixed to `schema_id`, then each
/// `const_values` entry, each replacing what was there.
pub open spec fn with_consts(
    ps: Seq<(Seq<char>, Json)>,
    sid_field: Option<Seq<char>>,
    schema_id: Seq<char>,
    cvs: Seq<(Seq<char>, Json)>,
) -> Seq<(Seq<char>, Json)>
    decreases cvs.len(),
{
    if cvs.len() == 0 {
        match sid_field {
            Some(f) => insert_entry(ps, f, const_of(Json::Str(schema_id))),
            None => ps,
        }
    } else {
        let acc = with_consts(ps, sid_field, schema_id, cvs.drop_last());
        insert_entry(acc, cvs.last().0, const_of(cvs.last().1))
    }
}

/// The sorted `required` array.
pub open spec fn required_array(req: Seq<Seq<char>>) -> Json {
    Json::Array(sort_strs(req).map_values(|n: Seq<char>| Json::Str(n)))
}

pub open spec fn draft07() -> Seq<char> {
    "http://json-schema.org/draft-07/schema#"@
}

/// `es` with the entry `key: v` added where `v` is given.
pub open spec fn push_opt(es: Seq<(Seq<char>, Json)>, key: Seq<char>, v: Option<Json>) -> Seq<
    (Seq<char>, Json),
> {
    match v {
        Some(j) => es.push((key, j)),
        None => es,
    }
}

pub open spec fn opt_str(o: Option<Seq<char>>) -> Option<Json> {
    match o {
        Some(s) => Some(Json::Str(s)),
        None => None,
    }
}

/// The `required` entry, where some property is required.
pub open spec fn opt_required(req: Seq<Seq<char>>) -> Option<Json> {
    if req.len() > 0 {
        Some(required_array(req))
    } else {
        None
    }
}

/// The JSON schema of a struct.
///
/// A base type has a flat schema that admits no other properties. A child
/// type refers to its parent's schema through `allOf`, and adds its own
/// properties with the `const` constraints of `const_values` and of the
/// parent's schema-id field. `required` lists the required properties in
/// order, where there are any.
pub open spec fn schema_json(
    schema_id: Seq<char>,
    struct_name: Seq<char>,
    description: Option<Seq<char>>,
    properties_list: Option<Seq<char>>,
    base: BaseModel,
    fts: Seq<(Seq<char>, Seq<char>)>,
    cvs: Seq<(Seq<char>, Json)>,
    sid_field: Option<Seq<char>>,
    prefix: Seq<char>,
) -> Json {
    let (ps, req) = collect_props(property_names(properties_list, fts), fts, prefix);
    let id = Json::Str("gts://"@ + schema_id);
    match base {
        BaseModel::IsBase => Json::Object(
            push_opt(
                push_opt(
                    seq![
                        ("$id"@, id),
                        ("$schema"@, Json::Str(draft07())),
                        ("title"@, Json::Str(struct_name)),
                        ("type"@, Json::Str("object"@)),
                        ("additionalProperties"@, Json::Bool(false)),
                        ("properties"@, Json::Object(ps)),
                    ],
                    "description"@,
                    opt_str(description),
                ),
                "required"@,
                opt_required(req),
            ),
        ),
        BaseModel::Parent(parent_name) => {
            let own = push_opt(
                seq![("properties"@, Json::Object(with_consts(ps, sid_field, schema_id, cvs)))],
                "required"@,
                opt_required(req),
            );
            Json::Object(
                push_opt(
                    seq![
                        ("$id"@, id),
                        ("$schema"@, Json::Str(draft07())),
                        ("title"@, Json::Str(struct_name + " (extends "@ + parent_name + ")"@)),
                        ("type"@, Json::Str("object"@)),
                        ("allOf"@, Json::Array(
                            seq![
                                single("$ref"@, Json::Str("gts://"@ + parent_schema_id(schema_id))),
                                Json::Object(own),
                            ],
                        )),
                    ],
                    "description"@,
                    opt_str(description),
                ),
            )
        },
    }
}

/// The string `a` followed by `b`.
fn concat(a: &str, b: &str) -> (r: String)
    ensures
        r@ == a@ + b@,
{
    let mut v = to_chars(a);
    let w = to_chars(b);
    let ghost v0 = v@;
    let mut i: usize = 0;
    while i < w.len()
        invariant
            0 <= i <= w.len(),
            v@ == v0 + w@.take(i as int),
        decreases w.len() - i,
    {
        v.push(w[i]);
        i = i + 1;
    }
    assert(w@.take(w.len() as int) =~= w@);
    string_from_chars(v.as_slice())
}

/// The string `a` + `b` + `c` + `d`.
pub fn concat_all(a: &str, b: &str, c: &str, d: &str) -> (r: String)
    ensures
        r@ == a@ + b@ + c@ + d@,
{
    let ab = concat(a, b);
    let abc = concat(ab.as_str(), c);
    concat(abc.as_str(), d)
}

/// The pieces of `s` between its commas, each trimmed.
fn split_trimmed(s: &str) -> (r: Vec<String>)
    ensures
        views(r@) == split_commas(s@).map_values(|p: Seq<char>| trim(p)),
{
    let v = to_chars(s);
    let n = v.len();
    let mut out: Vec<String> = Vec::new();
    let mut lo: usize = 0;
    assert(v@.subrange(0, n as int) =~= s@);
    loop
        invariant
            n == v@.len(),
            0 <= lo <= n,
            split_commas(s@).map_values(|p: Seq<char>| trim(p)) == views(out@) + split_commas(
                v@.subrange(lo as int, n as int),
            ).map_values(|p: Seq<char>| trim(p)),
        decreases n - lo,
    {
        let ghost rest = v@.subrange(lo as int, n as int);
        proof {
            lemma_find_char_props(rest, ',');
        }
        let ghost pre = out@;
        match find_in(&v, lo, n, ',') {
            Some(p) => {
                let (a, b) = trim_range(&v, lo, lo + p);
                assert(rest.take(p as int) =~= v@.subrange(lo as int, lo + p));
                assert(rest.skip(p + 1) =~= v@.subrange(lo + p + 1, n as int));
                out.push(crate::text::sub_string(&v, a, b));
                assert(views(out@) =~= views(pre).push(trim(rest.take(p as int))));
                assert(split_commas(rest) == seq![rest.take(p as int)] + split_commas(
                    rest.skip(p + 1),
                ));
                assert(split_commas(rest).map_values(|q: Seq<char>| trim(q)) =~= seq![
                    trim(rest.take(p as int)),
                ] + split_commas(rest.skip(p + 1)).map_values(|q: Seq<char>| trim(q)));
                assert(views(pre) + (seq![trim(rest.take(p as int))] + split_commas(
                    rest.skip(p + 1),
                ).map_values(|q: Seq<char>| trim(q))) =~= views(out@) + split_commas(
                    rest.skip(p + 1),
                ).map_values(|q: Seq<char>| trim(q)));
                lo = lo + p + 1;
            },
            None => {
                let (a, b) = trim_range(&v, lo, n);
                out.push(crate::text::sub_string(&v, a, b));
                assert(views(out@) =~= views(pre).push(trim(rest)));
                assert(split_commas(rest) == seq![rest]);
                assert(split_commas(rest).map_values(|q: Seq<char>| trim(q)) =~= seq![trim(rest)]);
                assert(views(pre) + seq![trim(rest)] =~= views(out@));
                return out;
            },
        }
    }
}

/// The type of the field `name`, as listed in `fts`.
fn lookup_field_type(fts: &[(String, String)], name: &String) -> (r: Option<String>)
    ensures
        match field_type_of(fields_model(fts@), name@) {
            Some(t) => r matches Some(s) && s@ == t,
            None => r is None,
        },
{
    let ghost m = fields_model(fts@);
    let mut i: usize = 0;
    assert(m.skip(0) =~= m);
    while i < fts.len()
        invariant
            0 <= i <= fts@.len(),
            m == fields_model(fts@),
            field_type_of(m, name@) == field_type_of(m.skip(i as int), name@),
        decreases fts.len() - i,
    {
        let ghost rest = m.skip(i as int);
        assert(rest[0] == (fts@[i as int].0@, fts@[i as int].1@));
        if fts[i].0 == *name {
            return Some(fts[i].1.clone());
        }
        assert(rest.drop_first() =~= m.skip(i + 1));
        i = i + 1;
    }
    None
}

/// The names of the fields `fts`.
fn field_names(fts: &[(String, String)]) -> (r: Vec<String>)
    ensures
        views(r@) == fields_model(fts@).map_values(|e: (Seq<char>, Seq<char>)| e.0),
{
    let mut out: Vec<String> = Vec::new();
    let mut i: usize = 0;
    while i < fts.len()
        invariant
            0 <= i <= fts@.len(),
            views(out@) == fields_model(fts@).map_values(|e: (Seq<char>, Seq<char>)| e.0).take(
                i as int,
            ),
        decreases fts.len() - i,
    {
        let ghost pre = out@;
        out.push(fts[i].0.clone());
        assert(views(out@) =~= views(pre).push(fts@[i as int].0@));
        assert(views(out@) =~= fields_model(fts@).map_values(|e: (Seq<char>, Seq<char>)| e.0).take(
            i + 1,
        ));
        i = i + 1;
    }
    assert(fields_model(fts@).map_values(|e: (Seq<char>, Seq<char>)| e.0).take(fts.len() as int)
        =~= fields_model(fts@).map_values(|e: (Seq<char>, Seq<char>)| e.0));
    out
}

/// The property schemas and the required names of the listed properties.
fn collect_properties(names: &Vec<String>, fts: &[(String, String)], gts_prefix: &str) -> (r: (
    Vec<(String, JsonValue)>,
    Vec<String>,
))
    ensures
        (model_entries(r.0@), views(r.1@)) == collect_props(
            views(names@),
            fields_model(fts@),
            gts_prefix@,
        ),
{
    let mut schema_properties = new_entries();
    let mut required: Vec<String> = Vec::new();
    let mut i: usize = 0;
    while i < names.len()
        invariant
            0 <= i <= names@.len(),
            (model_entries(schema_properties@), views(required@)) == collect_props(
                views(names@).take(i as int),
                fields_model(fts@),
                gts_prefix@,
            ),
        decreases names.len() - i,
    {
        let prop = &names[i];
        assert(views(names@).take(i + 1).drop_last() =~= views(names@).take(i as int));
        assert(views(names@).take(i + 1).last() == prop@);
        match lookup_field_type(fts, prop) {
            Some(field_type) => {
                let (is_required, json_type_info) = type_schema_for_prefix(
                    field_type.as_str(),
                    gts_prefix,
                );
                insert_field(&mut schema_properties, prop.clone(), json_type_info);
                if is_required {
                    let ghost pre = required@;
                    required.push(prop.clone());
                    assert(views(required@) =~= views(pre).push(prop@));
                }
            },
            None => {},
        }
        i = i + 1;
    }
    assert(views(names@).take(names.len() as int) =~= views(names@));
    (schema_properties, required)
}

/// The sorted `required` array.
fn required_value(required: Vec<String>) -> (r: JsonValue)
    ensures
        r.model() == required_array(views(required@)),
{
    let sorted = sort_names(required);
    let mut items: Vec<JsonValue> = Vec::new();
    let mut i: usize = 0;
    while i < sorted.len()
        invariant
            0 <= i <= sorted@.len(),
            model_items(items@) == views(sorted@).map_values(|n: Seq<char>| Json::Str(n)).take(
                i as int,
            ),
        decreases sorted.len() - i,
    {
        push_item(&mut items, JsonValue::Str(sorted[i].clone()));
        assert(model_items(items@) =~= views(sorted@).map_values(|n: Seq<char>| Json::Str(n)).take(
            i + 1,
        ));
        i = i + 1;
    }
    assert(views(sorted@).map_values(|n: Seq<char>| Json::Str(n)).take(sorted.len() as int)
        =~= views(sorted@).map_values(|n: Seq<char>| Json::Str(n)));
    JsonValue::Array(items)
}

pub open spec fn opt_str_view(o: Option<&str>) -> Option<Seq<char>> {
    match o {
        Some(s) => Some(s@),
        None => None,
    }
}

/// Adds the `const` constraints of a child schema to its properties.
fn add_consts(
    schema_properties: &mut Vec<(String, JsonValue)>,
    parent_schema_id_field: Option<&str>,
    schema_id: &str,
    const_values: &[(String, JsonValue)],
)
    ensures
        model_entries(final(schema_properties)@) == with_consts(
            model_entries(old(schema_properties)@),
            opt_str_view(parent_schema_id_field),
            schema_id@,
            model_entries(const_values@),
        ),
{
    let ghost ps0 = model_entries(schema_properties@);
    if let Some(sid_field) = parent_schema_id_field {
        insert_field(
            schema_properties,
            sid_field.to_owned(),
            single_field("const", JsonValue::Str(schema_id.to_owned())),
        );
    }
    proof {
        crate::json::lemma_model_entries(const_values@);
    }
    let mut i: usize = 0;
    assert(const_values@.take(0) =~= Seq::<(String, JsonValue)>::empty());
    while i < const_values.len()
        invariant
            0 <= i <= const_values@.len(),
            model_entries(const_values@).len() == const_values@.len(),
            forall|m: int|
                0 <= m < const_values@.len() ==> #[trigger] model_entries(const_values@)[m] == (
                const_values@[m].0@,
                const_values@[m].1.model(),
            ),
            model_entries(schema_properties@) == with_consts(
                ps0,
                opt_str_view(parent_schema_id_field),
                schema_id@,
                model_entries(const_values@).take(i as int),
            ),
        decreases const_values.len() - i,
    {
        let field = const_values[i].0.clone();
        let val = crate::json::clone_json(&const_values[i].1);
        insert_field(schema_properties, field, single_field("const", val));
        assert(model_entries(const_values@).take(i + 1).drop_last() =~= model_entries(
            const_values@,
        ).take(i as int));
        i = i + 1;
    }
    assert(model_entries(const_values@).take(const_values.len() as int) =~= model_entries(
        const_values@,
    ));
}

/// Build a JSON Schema object from parsed metadata, for the GTS identifier
/// prefix `gts_prefix`.
/// `field_types` maps field names to their types, each name once.
pub fn build_json_schema_for_prefix(
    schema_id: &str,
    struct_name: &str,
    description: Option<&str>,
    properties_list: Option<&str>,
    base: &BaseAttr,
    field_types: &[(String, String)],
    const_values: &[(String, JsonValue)],
    parent_schema_id_field: Option<&str>,
    gts_prefix: &str,
) -> (r: JsonValue)
    requires
        names_distinct(fields_model(field_types@)),
    ensures
        r.model() == schema_json(
            schema_id@,
            struct_name@,
            opt_str_view(description),
            opt_str_view(properties_list),
            base.model(),
            fields_model(field_types@),
            model_entries(const_values@),
            opt_str_view(parent_schema_id_field),
            gts_prefix@,
        ),
{
    let names: Vec<String> = match properties_list {
        Some(props) => split_trimmed(props),
        None => field_names(field_types),
    };
    assert(views(names@) == property_names(
        opt_str_view(properties_list),
        fields_model(field_types@),
    ));
    let (mut schema_properties, required) = collect_properties(
        &names,
        field_types,
        gts_prefix,
    );
    let has_required = required.len() > 0;
    let ghost req = views(required@);
    let required_json = required_value(required);
    let id = JsonValue::Str(concat("gts://", schema_id));
    match base {
        BaseAttr::IsBase => {
            let mut s: Vec<(String, JsonValue)> = Vec::new();
            push_field(&mut s, "$id", id);
            push_field(
                &mut s,
                "$schema",
                JsonValue::Str("http://json-schema.org/draft-07/schema#".to_owned()),
            );
            push_field(&mut s, "title", JsonValue::Str(struct_name.to_owned()));
            push_field(&mut s, "type", JsonValue::Str("object".to_owned()));
            push_field(&mut s, "additionalProperties", JsonValue::Bool(false));
            let ghost ps = model_entries(schema_properties@);
            push_field(&mut s, "properties", JsonValue::Object(schema_properties));
            let ghost s0 = model_entries(s@);
            assert(s0 =~= seq![
                ("$id"@, Json::Str("gts://"@ + schema_id@)),
                ("$schema"@, Json::Str(draft07())),
                ("title"@, Json::Str(struct_name@)),
                ("type"@, Json::Str("object"@)),
                ("additionalProperties"@, Json::Bool(false)),
                ("properties"@, Json::Object(ps)),
            ]);
            if let Some(desc) = description {
                push_field(&mut s, "description", JsonValue::Str(desc.to_owned()));
            }
            assert(model_entries(s@) == push_opt(s0, "description"@, opt_str(opt_str_view(description))));
            let ghost s1 = model_entries(s@);
            if has_required {
                push_field(&mut s, "required", required_json);
            }
            assert(model_entries(s@) == push_opt(s1, "required"@, opt_required(req)));
            JsonValue::Object(s)
        },
        BaseAttr::Parent(parent_name) => {
            let parent_id = derive_parent_schema_id(schema_id);
            add_consts(&mut schema_properties, parent_schema_id_field, schema_id, const_values);
            let mut own: Vec<(String, JsonValue)> = Vec::new();
            let ghost ps2 = model_entries(schema_properties@);
            push_field(&mut own, "properties", JsonValue::Object(schema_properties));
            let ghost own0 = model_entries(own@);
            assert(own0 =~= seq![("properties"@, Json::Object(ps2))]);
            if has_required {
                push_field(&mut own, "required", required_json);
            }
            assert(model_entries(own@) == push_opt(own0, "required"@, opt_required(req)));
            let mut all_of: Vec<JsonValue> = Vec::new();
            push_item(
                &mut all_of,
                single_field("$ref", JsonValue::Str(concat("gts://", parent_id.as_str()))),
            );
            let ghost own_m = model_entries(own@);
            push_item(&mut all_of, JsonValue::Object(own));
            assert(model_items(all_of@) =~= seq![
                single("$ref"@, Json::Str("gts://"@ + parent_schema_id(schema_id@))),
                Json::Object(own_m),
            ]);
            let title = concat(
                concat(struct_name, " (extends ").as_str(),
                concat(parent_name.as_str(), ")").as_str(),
            );
            let mut s: Vec<(String, JsonValue)> = Vec::new();
            push_field(&mut s, "$id", id);
            push_field(
                &mut s,
                "$schema",
                JsonValue::Str("http://json-schema.org/draft-07/schema#".to_owned()),
            );
            push_field(&mut s, "title", JsonValue::Str(title));
            push_field(&mut s, "type", JsonValue::Str("object".to_owned()));
            let ghost all_m = model_items(all_of@);
            push_field(&mut s, "allOf", JsonValue::Array(all_of));
            let ghost s0 = model_entries(s@);
            assert(s0 =~= seq![
                ("$id"@, Json::Str("gts://"@ + schema_id@)),
                ("$schema"@, Json::Str(draft07())),
                ("title"@, Json::Str(title@)),
                ("type"@, Json::Str("object"@)),
                ("allOf"@, Json::Array(all_m)),
            ]);
            if let Some(desc) = description {
                push_field(&mut s, "description", JsonValue::Str(desc.to_owned()));
            }
            assert(model_entries(s@) == push_opt(s0, "description"@, opt_str(opt_str_view(description))));
            assert(struct_name@ + " (extends "@ + (parent_name@ + ")"@) =~= struct_name@
                + " (extends "@ + parent_name@ + ")"@);
            JsonValue::Object(s)
        },
    }
}

/// Build a JSON Schema object from parsed metadata. The GTS identifier types
/// take the identifier prefix that the `gts` crate was built with.
/// `field_types` maps field names to their types, each name once.
pub fn build_json_schema(
    schema_id: &str,
    struct_name: &str,
    description: Option<&str>,
    properties_list: Option<&str>,
    base: &BaseAttr,
    field_types: &[(String, String)],
    const_values: &[(String, JsonValue)],
    parent_schema_id_field: Option<&str>,
) -> (r: JsonValue)
    requires
        names_distinct(fields_model(field_types@)),
    ensures
        exists|p: Seq<char>|
            gts_prefix_valid(p) && #[trigger] schema_json(
                schema_id@,
                struct_name@,
                opt_str_view(description),
                opt_str_view(properties_list),
                base.model(),
                fields_model(field_types@),
                model_entries(const_values@),
                opt_str_view(parent_schema_id_field),
                p,
            ) == r.model(),
{
    let prefix = gts_prefix();
    build_json_schema_for_prefix(
        schema_id,
        struct_name,
        description,
        properties_list,
        base,
        field_types,
        const_values,
        parent_schema_id_field,
        prefix.as_str(),
    )
}

proof fn lemma_collect_props_distinct(
    names: Seq<Seq<char>>,
    fts: Seq<(Seq<char>, Seq<char>)>,
    prefix: Seq<char>,
)
    ensures
        keys_distinct(collect_props(names, fts, prefix).0),
    decreases names.len(),
{
    if names.len() > 0 {
        lemma_collect_props_distinct(names.drop_last(), fts, prefix);
        let ps = collect_props(names.drop_last(), fts, prefix).0;
        let n = names.last();
        if let Some(ft) = field_type_of(fts, n) {
            lemma_insert_keeps_distinct(ps, n, type_schema(ft, prefix).1);
        }
    }
}

proof fn lemma_with_consts_distinct(
    ps: Seq<(Seq<char>, Json)>,
    sid_field: Option<Seq<char>>,
    schema_id: Seq<char>,
    cvs: Seq<(Seq<char>, Json)>,
)
    requires
        keys_distinct(ps),
    ensures
        keys_distinct(with_consts(ps, sid_field, schema_id, cvs)),
    decreases cvs.len(),
{
    if cvs.len() == 0 {
        if let Some(f) = sid_field {
            lemma_insert_keeps_distinct(ps, f, const_of(Json::Str(schema_id)));
        }
    } else {
        lemma_with_consts_distinct(ps, sid_field, schema_id, cvs.drop_last());
        let acc = with_consts(ps, sid_field, schema_id, cvs.drop_last());
        lemma_insert_keeps_distinct(acc, cvs.last().0, const_of(cvs.last().1));
    }
}

/// A schema names each of its properties once: the properties collected
/// from the listed names, and those of a child after its `const`
/// constraints are added, have pairwise distinct names.
pub proof fn law_properties_distinct(
    names: Seq<Seq<char>>,
    fts: Seq<(Seq<char>, Seq<char>)>,
    prefix: Seq<char>,
    sid_field: Option<Seq<char>>,
    schema_id: Seq<char>,
    cvs: Seq<(Seq<char>, Json)>,
)
    ensures
        keys_distinct(collect_props(names, fts, prefix).0),
        keys_distinct(with_consts(collect_props(names, fts, prefix).0, sid_field, schema_id, cvs)),
{
    lemma_collect_props_distinct(names, fts, prefix);
    lemma_with_consts_distinct(collect_props(names, fts, prefix).0, sid_field, schema_id, cvs);
}

/// Each listed name that is a field becomes a property with the schema of
/// the field's type, and is required exactly when that type is not an
/// `Option`; a listed name that is not a field is left out.
pub proof fn law_listed_fields(
    names: Seq<Seq<char>>,
    fts: Seq<(Seq<char>, Seq<char>)>,
    prefix: Seq<char>,
)
    ensures
        forall|n: Seq<char>|
            #[trigger] crate::json::lookup(collect_props(names, fts, prefix).0, n) == (if names.contains(n)
                && field_type_of(fts, n) is Some {
                Some(type_schema(field_type_of(fts, n).unwrap(), prefix).1)
            } else {
                None
            }),
        forall|n: Seq<char>|
            #[trigger] collect_props(names, fts, prefix).1.contains(n) == (names.contains(n)
                && field_type_of(fts, n) is Some && !starts_with(
                trim(field_type_of(fts, n).unwrap()),
                "Option<"@,
            )),
    decreases names.len(),
{
    if names.len() == 0 {
        assert forall|n: Seq<char>|
            #[trigger] crate::json::lookup(collect_props(names, fts, prefix).0, n) is None by {
            crate::json::lemma_key_index_exact(Seq::<(Seq<char>, Json)>::empty(), n, 0);
        }
    } else {
        let prev = names.drop_last();
        let x = names.last();
        law_listed_fields(prev, fts, prefix);
        let (ps, req) = collect_props(prev, fts, prefix);
        assert(names =~= prev.push(x));
        assert forall|n: Seq<char>| #[trigger] names.contains(n) == (prev.contains(n) || n == x) by {
            if names.contains(n) {
                let m = choose|m: int| 0 <= m < names.len() && names[m] == n;
                if m < prev.len() {
                    assert(prev[m] == n);
                }
            }
            if prev.contains(n) {
                let m = choose|m: int| 0 <= m < prev.len() && prev[m] == n;
                assert(names[m] == n);
            }
            if n == x {
                assert(names[names.len() - 1] == n);
            }
        }
        match field_type_of(fts, x) {
            Some(ft) => {
                let ts = type_schema(ft, prefix);
                assert forall|n: Seq<char>|
                    #[trigger] crate::json::lookup(collect_props(names, fts, prefix).0, n) == (
                    if names.contains(n) && field_type_of(fts, n) is Some {
                        Some(type_schema(field_type_of(fts, n).unwrap(), prefix).1)
                    } else {
                        None
                    }) by {
                    crate::json::lemma_insert_lookup(ps, x, ts.1, n);
                    assert(crate::json::lookup(ps, n) == (if prev.contains(n) && field_type_of(
                        fts,
                        n,
                    ) is Some {
                        Some(type_schema(field_type_of(fts, n).unwrap(), prefix).1)
                    } else {
                        None
                    }));
                }
                assert forall|n: Seq<char>|
                    #[trigger] collect_props(names, fts, prefix).1.contains(n) == (names.contains(n)
                        && field_type_of(fts, n) is Some && !starts_with(
                        trim(field_type_of(fts, n).unwrap()),
                        "Option<"@,
                    )) by {
                    assert(req.contains(n) == (prev.contains(n) && field_type_of(fts, n) is Some
                        && !starts_with(trim(field_type_of(fts, n).unwrap()), "Option<"@)));
                    if ts.0 {
                        assert(req.push(x).contains(n) == (req.contains(n) || n == x)) by {
                            if req.push(x).contains(n) {
                                let m = choose|m: int|
                                    0 <= m < req.push(x).len() && req.push(x)[m] == n;
                                if m < req.len() {
                                    assert(req[m] == n);
                                }
                            }
                            if req.contains(n) {
                                let m = choose|m: int| 0 <= m < req.len() && req[m] == n;
                                assert(req.push(x)[m] == n);
                            }
                            if n == x {
                                assert(req.push(x)[req.len() as int] == n);
                            }
                        }
                    }
                }
            },
            None => {
                assert forall|n: Seq<char>|
                    #[trigger] crate::json::lookup(collect_props(names, fts, prefix).0, n) == (
                    if names.contains(n) && field_type_of(fts, n) is Some {
                        Some(type_schema(field_type_of(fts, n).unwrap(), prefix).1)
                    } else {
                        None
                    }) by {
                    assert(crate::json::lookup(ps, n) == (if prev.contains(n) && field_type_of(
                        fts,
                        n,
                    ) is Some {
                        Some(type_schema(field_type_of(fts, n).unwrap(), prefix).1)
                    } else {
                        None
                    }));
                }
                assert forall|n: Seq<char>|
                    #[trigger] collect_props(names, fts, prefix).1.contains(n) == (names.contains(n)
                        && field_type_of(fts, n) is Some && !starts_with(
                        trim(field_type_of(fts, n).unwrap()),
                        "Option<"@,
                    )) by {
                    assert(req.contains(n) == (prev.contains(n) && field_type_of(fts, n) is Some
                        && !starts_with(trim(field_type_of(fts, n).unwrap()), "Option<"@)));
                }
            },
        }
    }
}

/// A base type's schema does not depend on `const_values` or on the
/// parent's schema-id field: both shape only a child's schema.
pub proof fn law_base_ignores_consts(
    schema_id: Seq<char>,
    struct_name: Seq<char>,
    description: Option<Seq<char>>,
    properties_list: Option<Seq<char>>,
    fts: Seq<(Seq<char>, Seq<char>)>,
    cvs1: Seq<(Seq<char>, Json)>,
    sid1: Option<Seq<char>>,
    cvs2: Seq<(Seq<char>, Json)>,
    sid2: Option<Seq<char>>,
    prefix: Seq<char>,
)
    ensures
        schema_json(
            schema_id,
            struct_name,
            description,
            properties_list,
            BaseModel::IsBase,
            fts,
            cvs1,
            sid1,
            prefix,
        ) == schema_json(
            schema_id,
            struct_name,
            description,
            properties_list,
            BaseModel::IsBase,
            fts,
            cvs2,
            sid2,
            prefix,
        ),
{
}

/// In a child schema's own properties, each `const_values` entry is the
/// `const` of its field (a later entry for the same field wins), and the
/// parent's schema-id field, where no entry names it, is fixed to the child's
/// schema identifier.
pub proof fn law_child_consts(
    ps: Seq<(Seq<char>, Json)>,
    sid_field: Option<Seq<char>>,
    schema_id: Seq<char>,
    cvs: Seq<(Seq<char>, Json)>,
)
    ensures
        forall|i: int|
            0 <= i < cvs.len() && (forall|j: int| i < j < cvs.len() ==> cvs[j].0 != cvs[i].0)
                ==> crate::json::lookup(with_consts(ps, sid_field, schema_id, cvs), #[trigger] cvs[i].0)
                == Some(const_of(cvs[i].1)),
        sid_field matches Some(f) ==> ((forall|j: int| 0 <= j < cvs.len() ==> cvs[j].0 != f)
            ==> crate::json::lookup(with_consts(ps, sid_field, schema_id, cvs), f) == Some(
            const_of(Json::Str(schema_id)),
        )),
    decreases cvs.len(),
{
    if cvs.len() == 0 {
        if let Some(f) = sid_field {
            crate::json::lemma_insert_lookup(ps, f, const_of(Json::Str(schema_id)), f);
        }
    } else {
        let prev = cvs.drop_last();
        law_child_consts(ps, sid_field, schema_id, prev);
        let acc = with_consts(ps, sid_field, schema_id, prev);
        let last = cvs.last();
        assert forall|i: int|
            0 <= i < cvs.len() && (forall|j: int| i < j < cvs.len() ==> cvs[j].0 != cvs[i].0)
                implies crate::json::lookup(
                with_consts(ps, sid_field, schema_id, cvs),
                #[trigger] cvs[i].0,
            ) == Some(const_of(cvs[i].1)) by {
            crate::json::lemma_insert_lookup(acc, last.0, const_of(last.1), cvs[i].0);
            if i < cvs.len() - 1 {
                assert(cvs[cvs.len() - 1].0 != cvs[i].0);
                assert(prev[i] == cvs[i]);
                assert forall|j: int| i < j < prev.len() implies prev[j].0 != prev[i].0 by {
                    assert(prev[j] == cvs[j]);
                }
            }
        }
        if let Some(f) = sid_field {
            if forall|j: int| 0 <= j < cvs.len() ==> cvs[j].0 != f {
                assert(last.0 != f);
                assert forall|j: int| 0 <= j < prev.len() implies prev[j].0 != f by {
                    assert(prev[j] == cvs[j]);
                }
                crate::json::lemma_insert_lookup(acc, last.0, const_of(last.1), f);
            }
        }
    }
}

/// The shape of a schema: its `$id` is `gts://` and the schema identifier;
/// a base type's schema admits no other properties and has no `allOf`; a
/// child type's `allOf` refers first to the parent's schema, whose identifier
/// is derived from the child's.
pub proof fn law_schema_shape(
    schema_id: Seq<char>,
    struct_name: Seq<char>,
    description: Option<Seq<char>>,
    properties_list: Option<Seq<char>>,
    base: BaseModel,
    fts: Seq<(Seq<char>, Seq<char>)>,
    cvs: Seq<(Seq<char>, Json)>,
    sid_field: Option<Seq<char>>,
    prefix: Seq<char>,
)
    ensures
        ({
            let s = schema_json(
                schema_id,
                struct_name,
                description,
                properties_list,
                base,
                fts,
                cvs,
                sid_field,
                prefix,
            );
            &&& crate::json::field(s, "$id"@) == Some(Json::Str("gts://"@ + schema_id))
            &&& base is IsBase ==> {
                &&& crate::json::field(s, "allOf"@) is None
                &&& crate::json::field(s, "additionalProperties"@) == Some(Json::Bool(false))
            }
            &&& base is Parent ==> match crate::json::field(s, "allOf"@) {
                Some(Json::Array(items)) => items.len() == 2 && items[0] == single(
                    "$ref"@,
                    Json::Str("gts://"@ + parent_schema_id(schema_id)),
                ),
                _ => false,
            }
        }),
{
    reveal_strlit("$id");
    reveal_strlit("$schema");
    reveal_strlit("title");
    reveal_strlit("type");
    reveal_strlit("additionalProperties");
    reveal_strlit("properties");
    reveal_strlit("description");
    reveal_strlit("required");
    reveal_strlit("allOf");
    let s = schema_json(
        schema_id,
        struct_name,
        description,
        properties_list,
        base,
        fts,
        cvs,
        sid_field,
        prefix,
    );
    let (ps, req) = collect_props(property_names(properties_list, fts), fts, prefix);
    match base {
        BaseModel::IsBase => {
            let es = push_opt(
                push_opt(
                    seq![
                        ("$id"@, Json::Str("gts://"@ + schema_id)),
                        ("$schema"@, Json::Str(draft07())),
                        ("title"@, Json::Str(struct_name)),
                        ("type"@, Json::Str("object"@)),
                        ("additionalProperties"@, Json::Bool(false)),
                        ("properties"@, Json::Object(ps)),
                    ],
                    "description"@,
                    opt_str(description),
                ),
                "required"@,
                opt_required(req),
            );
            assert(s == Json::Object(es));
            crate::json::lemma_key_index_exact(es, "$id"@, 0);
            assert(es[0].0 == "$id"@ && es[1].0 == "$schema"@ && es[2].0 == "title"@ && es[3].0
                == "type"@);
            assert forall|j: int| 0 <= j < 4 implies #[trigger] es[j].0 != "additionalProperties"@ by {
                assert(es[j].0.len() != "additionalProperties"@.len());
            }
            crate::json::lemma_key_index_exact(es, "additionalProperties"@, 4);
            assert(es[4].0 == "additionalProperties"@ && es[5].0 == "properties"@);
            assert(es.len() > 6 ==> es[6].0 == "description"@ || es[6].0 == "required"@);
            assert(es.len() > 7 ==> es[7].0 == "required"@);
            assert(es.len() <= 8);
            assert forall|j: int| 0 <= j < es.len() implies #[trigger] es[j].0 != "allOf"@ by {
                if j == 2 {
                    assert(es[j].0[0] != "allOf"@[0]);
                } else {
                    assert(es[j].0.len() != "allOf"@.len());
                }
            }
            crate::json::lemma_key_index_exact(es, "allOf"@, es.len() as int);
        },
        BaseModel::Parent(parent_name) => {
            let own = push_opt(
                seq![("properties"@, Json::Object(with_consts(ps, sid_field, schema_id, cvs)))],
                "required"@,
                opt_required(req),
            );
            let es = push_opt(
                seq![
                    ("$id"@, Json::Str("gts://"@ + schema_id)),
                    ("$schema"@, Json::Str(draft07())),
                    ("title"@, Json::Str(struct_name + " (extends "@ + parent_name + ")"@)),
                    ("type"@, Json::Str("object"@)),
                    ("allOf"@, Json::Array(
                        seq![
                            single("$ref"@, Json::Str("gts://"@ + parent_schema_id(schema_id))),
                            Json::Object(own),
                        ],
                    )),
                ],
                "description"@,
                opt_str(description),
            );
            assert(s == Json::Object(es));
            crate::json::lemma_key_index_exact(es, "$id"@, 0);
            assert(es[0].0 == "$id"@ && es[1].0 == "$schema"@ && es[2].0 == "title"@ && es[3].0
                == "type"@);
            assert forall|j: int| 0 <= j < 4 implies #[trigger] es[j].0 != "allOf"@ by {
                if j == 2 {
                    assert(es[j].0[0] != "allOf"@[0]);
                } else {
                    assert(es[j].0.len() != "allOf"@.len());
                }
            }
            crate::json::lemma_key_index_exact(es, "allOf"@, 4);
        },
    }
}

} // verus!
