//! The `const_values` attribute: Rust string unescaping and the
//! `field=value,...` list it holds.

use vstd::prelude::*;
use crate::json::{model_entries, Json, JsonValue};
use crate::text::{
    find_char,
    find_in,
    lemma_find_char_props,
    lemma_lead_sep_bound,
    lemma_lead_ws_bound,
    skip_sep,
    skip_ws,
    slice_chars,
    str_eq_chars,
    string_from_chars,
    sub_string,
    to_chars,
    trim,
    trim_range,
    trim_start,
    trim_start_sep,
};

verus! {

// ---------------------------------------------------------------------------
// Unescaping
// ---------------------------------------------------------------------------

/// What the escape `\c` stands for.
pub open spec fn escape_out(c: char) -> Seq<char> {
    if c == '\\' {
        seq!['\\']
    } else if c == '\'' {
        seq!['\'']
    } else if c == '"' {
        seq!['"']
    } else if c == 'n' {
        seq!['\n']
    } else if c == 't' {
        seq!['\t']
    } else {
        seq!['\\', c]
    }
}

/// The content of a Rust string literal after its escapes are decoded: `\\`,
/// `\'`, `\"`, `\n` and `\t` are decoded, any other `\X` is kept as it is,
/// and a lone trailing `\` stays.
pub open spec fn unescape(s: Seq<char>) -> Seq<char>
    decreases s.len(),
{
    if s.len() == 0 {
        Seq::empty()
    } else if s[0] == '\\' {
        if s.len() == 1 {
            seq!['\\']
        } else {
            escape_out(s[1]) + unescape(s.skip(2))
        }
    } else {
        seq![s[0]] + unescape(s.drop_first())
    }
}

/// Unescape a Rust string literal's content (already stripped of outer `"`),
/// so that what is read from source text matches what the compiler sees.
/// Only the escapes that matter in `const_values` strings are decoded:
/// `\\` to `\`, `\'` to `'`, `\"` to `"`, `\n` to a newline and `\t` to a
/// tab; any other `\X` is left as it is.
pub fn unescape_rust_str(s: &str) -> (r: String)
    ensures
        r@ == unescape(s@),
{
    let v = to_chars(s);
    let n = v.len();
    let mut out: Vec<char> = Vec::new();
    let mut i: usize = 0;
    assert(v@.subrange(0, n as int) =~= v@);
    assert(out@ + unescape(v@) =~= unescape(v@));
    while i < n
        invariant
            n == v.len(),
            v@ == s@,
            0 <= i <= n,
            unescape(s@) == out@ + unescape(v@.subrange(i as int, n as int)),
        decreases n - i,
    {
        let ghost rest = v@.subrange(i as int, n as int);
        let ghost out0 = out@;
        let c = v[i];
        if c == '\\' {
            if i + 1 == n {
                out.push('\\');
                assert(out@ =~= out0 + unescape(rest));
                assert(out@ + unescape(v@.subrange(n as int, n as int)) =~= out@);
                i = n;
            } else {
                let d = v[i + 1];
                if d == '\\' {
                    out.push('\\');
                } else if d == '\'' {
                    out.push('\'');
                } else if d == '"' {
                    out.push('"');
                } else if d == 'n' {
                    out.push('\n');
                } else if d == 't' {
                    out.push('\t');
                } else {
                    out.push('\\');
                    out.push(d);
                }
                assert(rest[1] == d);
                assert(rest.skip(2) =~= v@.subrange(i + 2, n as int));
                assert(out@ =~= out0 + escape_out(d));
                assert(out0 + (escape_out(d) + unescape(rest.skip(2))) =~= out@ + unescape(
                    rest.skip(2),
                ));
                i = i + 2;
            }
        } else {
            out.push(c);
            assert(rest.drop_first() =~= v@.subrange(i + 1, n as int));
            assert(out0 + (seq![c] + unescape(rest.drop_first())) =~= out@ + unescape(
                rest.drop_first(),
            ));
            i = i + 1;
        }
    }
    assert(out@ + unescape(v@.subrange(n as int, n as int)) =~= out@);
    string_from_chars(out.as_slice())
}

// ---------------------------------------------------------------------------
// Integers
// ---------------------------------------------------------------------------

pub open spec fn is_digit(c: char) -> bool {
    '0' <= c && c <= '9'
}

pub open spec fn all_digits(d: Seq<char>) -> bool {
    forall|i: int| 0 <= i < d.len() ==> is_digit(#[trigger] d[i])
}

/// The number written by the decimal digits `d`.
pub open spec fn digits_value(d: Seq<char>) -> int
    decreases d.len(),
{
    if d.len() == 0 {
        0
    } else {
        digits_value(d.drop_last()) * 10 + (d.last() as int - '0' as int)
    }
}

/// `str::parse::<i64>`: an optional `+` or `-`, then one or more decimal
/// digits, whose value fits in an `i64`.
pub open spec fn parse_i64(v: Seq<char>) -> Option<int> {
    let neg = v.len() > 0 && v[0] == '-';
    let signed = v.len() > 0 && (v[0] == '-' || v[0] == '+');
    let d = if signed {
        v.drop_first()
    } else {
        v
    };
    if d.len() == 0 || !all_digits(d) {
        None
    } else {
        let m = if neg {
            -digits_value(d)
        } else {
            digits_value(d)
        };
        if i64::MIN <= m && m <= i64::MAX {
            Some(m)
        } else {
            None
        }
    }
}

proof fn lemma_digits_value_grows(d: Seq<char>, k: int)
    requires
        all_digits(d),
        0 <= k <= d.len(),
    ensures
        digits_value(d) >= digits_value(d.take(k)) >= 0,
    decreases d.len(),
{
    if d.len() > 0 {
        if k == d.len() {
            assert(d.take(k) =~= d);
            lemma_digits_value_grows(d.drop_last(), k - 1);
            assert(d.drop_last().take(k - 1) =~= d.drop_last());
        } else {
            assert(d.drop_last().take(k) =~= d.take(k));
            lemma_digits_value_grows(d.drop_last(), k);
            assert(is_digit(d[d.len() - 1]));
        }
    }
}

/// Parses `v[lo..hi]` as an `i64`.
pub fn parse_i64_chars(v: &Vec<char>, lo: usize, hi: usize) -> (r: Option<i64>)
    requires
        lo <= hi <= v.len(),
    ensures
        match parse_i64(v@.subrange(lo as int, hi as int)) {
            Some(m) => r == Some(m as i64),
            None => r is None,
        },
{
    let ghost t = v@.subrange(lo as int, hi as int);
    let mut start = lo;
    let mut neg = false;
    if lo < hi && (v[lo] == '-' || v[lo] == '+') {
        neg = v[lo] == '-';
        start = lo + 1;
    }
    let ghost d = v@.subrange(start as int, hi as int);
    assert(d == (if t.len() > 0 && (t[0] == '-' || t[0] == '+') {
        t.drop_first()
    } else {
        t
    }));
    if start == hi {
        return None;
    }
    let limit: i128 = 9223372036854775808;
    let mut acc: i128 = 0;
    let mut i = start;
    while i < hi
        invariant
            lo <= start <= i <= hi <= v.len(),
            t == v@.subrange(lo as int, hi as int),
            d == v@.subrange(start as int, hi as int),
            d.len() > 0,
            d == (if t.len() > 0 && (t[0] == '-' || t[0] == '+') {
                t.drop_first()
            } else {
                t
            }),
            neg == (t.len() > 0 && t[0] == '-'),
            0 <= acc <= limit,
            limit == 9223372036854775808,
            acc == digits_value(d.take(i - start)),
            all_digits(d.take(i - start)),
        decreases hi - i,
    {
        let c = v[i];
        if !('0' <= c && c <= '9') {
            assert(!is_digit(d[i - start]));
            assert(!all_digits(d));
            return None;
        }
        assert(d.take(i - start + 1).drop_last() =~= d.take(i - start));
        let dv = (c as u32 - '0' as u32) as i128;
        acc = acc * 10 + dv;
        assert(all_digits(d.take(i - start + 1))) by {
            assert forall|j: int| 0 <= j < i - start + 1 implies is_digit(
                #[trigger] d.take(i - start + 1)[j],
            ) by {
                if j < i - start {
                    assert(d.take(i - start + 1)[j] == d.take(i - start)[j]);
                }
            }
        }
        i = i + 1;
        if acc > limit {
            proof {
                if all_digits(d) {
                    lemma_digits_value_grows(d, i - start);
                }
            }
            return None;
        }
    }
    assert(d.take(hi - start) =~= d);
    if neg {
        let m = -acc;
        Some(m as i64)
    } else if acc == limit {
        None
    } else {
        Some(acc as i64)
    }
}

// ---------------------------------------------------------------------------
// The const_values list
// ---------------------------------------------------------------------------

/// The JSON value of an unquoted `const_values` literal: `true` and `false`
/// are booleans, an `i64` literal is an integer, anything else is `Bare`.
pub open spec fn classify(v: Seq<char>) -> Json {
    if v == "true"@ {
        Json::Bool(true)
    } else if v == "false"@ {
        Json::Bool(false)
    } else {
        match parse_i64(v) {
            Some(n) => Json::Int(n),
            None => Json::Bare(v),
        }
    }
}

/// Reads a single-quoted value of `chars` from index `i`, just after the
/// opening quote: the decoded text and the index just past what was read.
/// `\'` is a quote, `\\` a backslash, any other `\X` is kept; the value ends
/// at the next unescaped quote or at the end of the text.
pub open spec fn quoted(chars: Seq<char>, i: int) -> (Seq<char>, int)
    decreases chars.len() - i,
{
    if i < 0 || i >= chars.len() {
        (Seq::empty(), i)
    } else if chars[i] == '\'' {
        (Seq::empty(), i + 1)
    } else if chars[i] == '\\' {
        if i + 1 >= chars.len() {
            (Seq::empty(), i + 1)
        } else {
            let d = chars[i + 1];
            let pre = if d == '\'' {
                seq!['\'']
            } else if d == '\\' {
                seq!['\\']
            } else {
                seq!['\\', d]
            };
            let rest = quoted(chars, i + 2);
            (pre + rest.0, rest.1)
        }
    } else {
        let rest = quoted(chars, i + 1);
        (seq![chars[i]] + rest.0, rest.1)
    }
}

pub proof fn lemma_quoted_end(chars: Seq<char>, i: int)
    requires
        0 <= i <= chars.len(),
    ensures
        i <= quoted(chars, i).1 <= chars.len(),
        i < chars.len() ==> i < quoted(chars, i).1,
    decreases chars.len() - i,
{
    if i < chars.len() {
        if chars[i] == '\'' {
        } else if chars[i] == '\\' {
            if i + 1 < chars.len() {
                lemma_quoted_end(chars, i + 2);
            }
        } else {
            lemma_quoted_end(chars, i + 1);
        }
    }
}

/// The entries of the `const_values` text `rem`, read from the left.
///
/// An entry with no `=` before its first comma is skipped up to that comma;
/// an entry with an empty key ends the list. A value that starts with a
/// single quote is read by `quoted` (commas inside it belong to it); any
/// other value runs to the next comma and is classified. Commas and
/// whitespace between entries are skipped.
pub open spec fn const_entries(rem: Seq<char>) -> Seq<(Seq<char>, Json)>
    decreases rem.len(),
{
    if rem.len() == 0 {
        Seq::empty()
    } else {
        let cm = find_char(rem, ',');
        let eq = find_char(rem, '=');
        if eq is None || (cm is Some && cm.unwrap() < eq.unwrap()) {
            match cm {
                None => Seq::empty(),
                Some(p) => {
                    proof {
                        lemma_find_char_props(rem, ',');
                        lemma_lead_sep_bound(rem.skip(p as int));
                    }
                    const_entries(trim_start_sep(rem.skip(p as int)))
                },
            }
        } else {
            let e = eq.unwrap();
            let key = trim(rem.take(e as int));
            let rest = trim_start(rem.skip(e + 1 as int));
            proof {
                lemma_find_char_props(rem, '=');
                lemma_lead_ws_bound(rem.skip(e + 1 as int));
            }
            if key.len() == 0 {
                Seq::empty()
            } else if rest.len() > 0 && rest[0] == '\'' {
                let (val, end) = quoted(rest, 1);
                proof {
                    lemma_quoted_end(rest, 1);
                    lemma_lead_sep_bound(rest.skip(end));
                }
                seq![(key, Json::Str(val))] + const_entries(trim_start_sep(rest.skip(end)))
            } else {
                let c = match find_char(rest, ',') {
                    Some(p) => p as int,
                    None => rest.len() as int,
                };
                proof {
                    lemma_find_char_props(rest, ',');
                    lemma_lead_sep_bound(rest.skip(c));
                }
                seq![(key, classify(trim(rest.take(c))))] + const_entries(
                    trim_start_sep(rest.skip(c)),
                )
            }
        }
    }
}

/// The malformed entries of the `const_values` text `rem`, read as
/// `const_entries` reads it: each entry with no `=` before its first comma
/// is skipped, and is reported as its text before that comma (or the rest of
/// the text), trimmed.
pub open spec fn skipped_entries(rem: Seq<char>) -> Seq<Seq<char>>
    decreases rem.len(),
{
    if rem.len() == 0 {
        Seq::empty()
    } else {
        let cm = find_char(rem, ',');
        let eq = find_char(rem, '=');
        if eq is None || (cm is Some && cm.unwrap() < eq.unwrap()) {
            match cm {
                None => seq![trim(rem)],
                Some(p) => {
                    proof {
                        lemma_find_char_props(rem, ',');
                        lemma_lead_sep_bound(rem.skip(p as int));
                    }
                    seq![trim(rem.take(p as int))] + skipped_entries(
                        trim_start_sep(rem.skip(p as int)),
                    )
                },
            }
        } else {
            let e = eq.unwrap();
            let key = trim(rem.take(e as int));
            let rest = trim_start(rem.skip(e + 1 as int));
            proof {
                lemma_find_char_props(rem, '=');
                lemma_lead_ws_bound(rem.skip(e + 1 as int));
            }
            if key.len() == 0 {
                Seq::empty()
            } else if rest.len() > 0 && rest[0] == '\'' {
                let (val, end) = quoted(rest, 1);
                proof {
                    lemma_quoted_end(rest, 1);
                    lemma_lead_sep_bound(rest.skip(end));
                }
                skipped_entries(trim_start_sep(rest.skip(end)))
            } else {
                let c = match find_char(rest, ',') {
                    Some(p) => p as int,
                    None => rest.len() as int,
                };
                proof {
                    lemma_find_char_props(rest, ',');
                    lemma_lead_sep_bound(rest.skip(c));
                }
                skipped_entries(trim_start_sep(rest.skip(c)))
            }
        }
    }
}

/// The JSON value of the unquoted literal `v[lo..hi]`.
fn classify_chars(v: &Vec<char>, lo: usize, hi: usize) -> (r: JsonValue)
    requires
        lo <= hi <= v.len(),
    ensures
        r.model() == classify(v@.subrange(lo as int, hi as int)),
{
    let w = slice_chars(v, lo, hi);
    if str_eq_chars(&w, "true") {
        JsonValue::Bool(true)
    } else if str_eq_chars(&w, "false") {
        JsonValue::Bool(false)
    } else {
        match parse_i64_chars(v, lo, hi) {
            Some(n) => JsonValue::Int(n),
            None => JsonValue::Bare(string_from_chars(w.as_slice())),
        }
    }
}

/// Reads the single-quoted value that starts at `v[q]` (the quote) and runs
/// at most to `hi`: its text and the index just past it.
fn read_quoted(v: &Vec<char>, q: usize, hi: usize) -> (r: (String, usize))
    requires
        q < hi <= v.len(),
    ensures
        q < r.1 <= hi,
        r.0@ == quoted(v@.subrange(q as int, hi as int), 1).0,
        r.1 - q == quoted(v@.subrange(q as int, hi as int), 1).1,
{
    let ghost chars = v@.subrange(q as int, hi as int);
    proof {
        lemma_quoted_end(chars, 1);
    }
    let mut val: Vec<char> = Vec::new();
    let mut i = q + 1;
    loop
        invariant
            q < i <= hi <= v.len(),
            chars == v@.subrange(q as int, hi as int),
            quoted(chars, 1).0 == val@ + quoted(chars, i - q).0,
            quoted(chars, 1).1 == quoted(chars, i - q).1,
        decreases hi - i,
    {
        let ghost val0 = val@;
        let ghost k = i - q;
        if i >= hi {
            assert(val@ + quoted(chars, k).0 =~= val@);
            return (string_from_chars(val.as_slice()), i);
        }
        let c = v[i];
        assert(chars[k] == c);
        if c == '\'' {
            assert(val@ + quoted(chars, k).0 =~= val@);
            return (string_from_chars(val.as_slice()), i + 1);
        } else if c == '\\' {
            if i + 1 >= hi {
                assert(val@ + quoted(chars, k).0 =~= val@);
                return (string_from_chars(val.as_slice()), i + 1);
            }
            let d = v[i + 1];
            assert(chars[k + 1] == d);
            if d == '\'' {
                val.push('\'');
            } else if d == '\\' {
                val.push('\\');
            } else {
                val.push('\\');
                val.push(d);
            }
            let ghost pre = if d == '\'' {
                seq!['\'']
            } else if d == '\\' {
                seq!['\\']
            } else {
                seq!['\\', d]
            };
            assert(val@ =~= val0 + pre);
            assert(val0 + (pre + quoted(chars, k + 2).0) =~= val@ + quoted(chars, k + 2).0);
            i = i + 2;
        } else {
            val.push(c);
            assert(val0 + (seq![c] + quoted(chars, k + 1).0) =~= val@ + quoted(chars, k + 1).0);
            i = i + 1;
        }
    }
}

/// The model of an optional entry, as a list of at most one.
pub open spec fn opt_entry(e: Option<(String, JsonValue)>) -> Seq<(Seq<char>, Json)> {
    match e {
        Some(p) => seq![(p.0@, p.1.model())],
        None => Seq::empty(),
    }
}

/// The model of an optional skipped entry, as a list of at most one.
pub open spec fn opt_token(t: Option<String>) -> Seq<Seq<char>> {
    match t {
        Some(x) => seq![x@],
        None => Seq::empty(),
    }
}

/// Reads the entry at the start of `v[lo..hi]`: the entry, if one is read,
/// and where the text after it starts.
fn next_entry(v: &Vec<char>, lo: usize, hi: usize) -> (r: (
    Option<(String, JsonValue)>,
    usize,
    Option<String>,
))
    requires
        lo < hi <= v.len(),
    ensures
        lo < r.1 <= hi,
        const_entries(v@.subrange(lo as int, hi as int)) == opt_entry(r.0) + const_entries(
            v@.subrange(r.1 as int, hi as int),
        ),
        skipped_entries(v@.subrange(lo as int, hi as int)) == opt_token(r.2) + skipped_entries(
            v@.subrange(r.1 as int, hi as int),
        ),
{
    let ghost rem = v@.subrange(lo as int, hi as int);
    proof {
        lemma_find_char_props(rem, ',');
        lemma_find_char_props(rem, '=');
    }
    let comma_pos = find_in(v, lo, hi, ',');
    let eq_pos = find_in(v, lo, hi, '=');
    let is_malformed = match (eq_pos, comma_pos) {
        (None, _) => true,
        (Some(eq), Some(cm)) => cm < eq,
        _ => false,
    };
    if is_malformed {
        match comma_pos {
            None => {
                assert(const_entries(v@.subrange(hi as int, hi as int)) =~= Seq::<
                    (Seq<char>, Json),
                >::empty());
                assert(skipped_entries(v@.subrange(hi as int, hi as int)) =~= Seq::<
                    Seq<char>,
                >::empty());
                let (ta, tb) = trim_range(v, lo, hi);
                let tok = sub_string(v, ta, tb);
                assert(opt_token(Some(tok)) + Seq::<Seq<char>>::empty() =~= seq![trim(rem)]);
                (None, hi, Some(tok))
            },
            Some(p) => {
                assert(rem.skip(p as int) =~= v@.subrange(lo + p, hi as int));
                assert(rem.take(p as int) =~= v@.subrange(lo as int, lo + p));
                let next = skip_sep(v, lo + p, hi);
                proof {
                    lemma_lead_sep_bound(rem.skip(p as int));
                }
                assert(opt_entry(None) + const_entries(v@.subrange(next as int, hi as int))
                    =~= const_entries(v@.subrange(next as int, hi as int)));
                let (ta, tb) = trim_range(v, lo, lo + p);
                let tok = sub_string(v, ta, tb);
                assert(opt_token(Some(tok)) + skipped_entries(v@.subrange(next as int, hi as int))
                    =~= seq![trim(rem.take(p as int))] + skipped_entries(
                    trim_start_sep(rem.skip(p as int)),
                ));
                (None, next, Some(tok))
            },
        }
    } else {
        let e = match eq_pos {
            Some(e) => e,
            None => 0,
        };
        assert(rem.take(e as int) =~= v@.subrange(lo as int, lo + e));
        assert(rem.skip(e + 1) =~= v@.subrange(lo + e + 1, hi as int));
        let (ka, kb) = trim_range(v, lo, lo + e);
        let r0 = skip_ws(v, lo + e + 1, hi);
        if ka == kb {
            assert(const_entries(v@.subrange(hi as int, hi as int)) =~= Seq::<
                (Seq<char>, Json),
            >::empty());
            assert(skipped_entries(v@.subrange(hi as int, hi as int)) =~= Seq::<
                Seq<char>,
            >::empty());
            return (None, hi, None);
        }
        let key = sub_string(v, ka, kb);
        let (val, next) = read_value(v, r0, hi);
        assert(const_entries(rem) == seq![(key@, val.model())] + const_entries(
            v@.subrange(next as int, hi as int),
        ));
        assert(skipped_entries(rem) == skipped_entries(v@.subrange(next as int, hi as int)));
        assert(opt_token(None) + skipped_entries(v@.subrange(next as int, hi as int))
            =~= skipped_entries(v@.subrange(next as int, hi as int)));
        (Some((key, val)), next, None)
    }
}

/// Reads the value that starts `v[r0..hi]`, which is what follows a `=` and
/// its whitespace: the value and where the text after it starts.
fn read_value(v: &Vec<char>, r0: usize, hi: usize) -> (r: (JsonValue, usize))
    requires
        r0 <= hi <= v.len(),
    ensures
        r0 <= r.1 <= hi,
        ({
            let rest = v@.subrange(r0 as int, hi as int);
            if rest.len() > 0 && rest[0] == '\'' {
                let (val, end) = quoted(rest, 1);
                r.0.model() == Json::Str(val) && v@.subrange(r.1 as int, hi as int)
                    == trim_start_sep(rest.skip(end))
            } else {
                let c = match find_char(rest, ',') {
                    Some(p) => p as int,
                    None => rest.len() as int,
                };
                r.0.model() == classify(trim(rest.take(c))) && v@.subrange(r.1 as int, hi as int)
                    == trim_start_sep(rest.skip(c))
            }
        }),
{
    let ghost rest = v@.subrange(r0 as int, hi as int);
    if r0 < hi && v[r0] == '\'' {
        assert(rest[0] == '\'');
        let (val, end) = read_quoted(v, r0, hi);
        assert(rest.skip(end - r0) =~= v@.subrange(end as int, hi as int));
        let next = skip_sep(v, end, hi);
        (JsonValue::Str(val), next)
    } else {
        proof {
            lemma_find_char_props(rest, ',');
        }
        let c = match find_in(v, r0, hi, ',') {
            Some(p) => r0 + p,
            None => hi,
        };
        assert(rest.take(c - r0) =~= v@.subrange(r0 as int, c as int));
        assert(rest.skip(c - r0) =~= v@.subrange(c as int, hi as int));
        let (va, vb) = trim_range(v, r0, c);
        let val = classify_chars(v, va, vb);
        let next = skip_sep(v, c, hi);
        (val, next)
    }
}

/// Parses a `const_values` string: `field=value` entries separated by commas.
///
/// - Unquoted: `true`/`false` give booleans, an integer literal an `i64`,
///   anything else a `Bare` value.
/// - Single-quoted: the contents become a string (commas inside allowed,
///   `\'` gives `'`).
/// - Entries missing `=` are skipped.
pub fn parse_const_values_cli(s: &str) -> (r: Vec<(String, JsonValue)>)
    ensures
        model_entries(r@) == const_entries(trim(s@)),
{
    let v = to_chars(s);
    let (mut lo, hi) = trim_range(&v, 0, v.len());
    assert(v@.subrange(0, v.len() as int) =~= s@);
    let mut result: Vec<(String, JsonValue)> = Vec::new();
    assert(model_entries(result@) + const_entries(trim(s@)) =~= const_entries(trim(s@)));
    while lo < hi
        invariant
            lo <= hi <= v.len(),
            const_entries(trim(s@)) == model_entries(result@) + const_entries(
                v@.subrange(lo as int, hi as int),
            ),
        decreases hi - lo,
    {
        let ghost before = model_entries(result@);
        let ghost pre = result@;
        let (entry, next, _) = next_entry(&v, lo, hi);
        let ghost tail = const_entries(v@.subrange(next as int, hi as int));
        match entry {
            Some(e) => {
                result.push(e);
                assert(result@.drop_last() == pre);
                assert(model_entries(result@) == before + opt_entry(Some(e)));
            },
            None => {
                assert(before + opt_entry(None) =~= before);
            },
        }
        assert(before + (opt_entry(entry) + tail) =~= model_entries(result@) + tail);
        lo = next;
    }
    assert(model_entries(result@) + const_entries(v@.subrange(lo as int, hi as int))
        =~= model_entries(result@));
    result
}

/// The malformed entries of a `const_values` string, which
/// `parse_const_values_cli` skips: each entry with no `=` before its first
/// comma, as its text before that comma, trimmed.
pub fn skipped_const_entries(s: &str) -> (r: Vec<String>)
    ensures
        crate::schema::views(r@) == skipped_entries(trim(s@)),
{
    let v = to_chars(s);
    let (mut lo, hi) = trim_range(&v, 0, v.len());
    assert(v@.subrange(0, v.len() as int) =~= s@);
    let mut result: Vec<String> = Vec::new();
    assert(crate::schema::views(result@) + skipped_entries(trim(s@)) =~= skipped_entries(
        trim(s@),
    ));
    while lo < hi
        invariant
            lo <= hi <= v.len(),
            skipped_entries(trim(s@)) == crate::schema::views(result@) + skipped_entries(
                v@.subrange(lo as int, hi as int),
            ),
        decreases hi - lo,
    {
        let ghost before = crate::schema::views(result@);
        let (_, next, token) = next_entry(&v, lo, hi);
        let ghost tail = skipped_entries(v@.subrange(next as int, hi as int));
        match token {
            Some(t) => {
                result.push(t);
                assert(crate::schema::views(result@) =~= before + opt_token(Some(t)));
            },
            None => {
                assert(before + opt_token(None) =~= before);
            },
        }
        assert(before + (opt_token(token) + tail) =~= crate::schema::views(result@) + tail);
        lo = next;
    }
    assert(crate::schema::views(result@) + skipped_entries(v@.subrange(lo as int, hi as int))
        =~= crate::schema::views(result@));
    result
}

/// Text without a backslash is left as it is by unescaping.
pub proof fn law_unescape_plain(s: Seq<char>)
    requires
        forall|i: int| 0 <= i < s.len() ==> #[trigger] s[i] != '\\',
    ensures
        unescape(s) == s,
    decreases s.len(),
{
    if s.len() > 0 {
        assert forall|i: int| 0 <= i < s.drop_first().len() implies #[trigger] s.drop_first()[i]
            != '\\' by {
            assert(s.drop_first()[i] == s[i + 1]);
        }
        law_unescape_plain(s.drop_first());
        assert(seq![s[0]] + s.drop_first() =~= s);
    }
}

/// A malformed entry (no `=` before its comma) is skipped, and the entries
/// after it are still read.
pub proof fn law_malformed_entry_skipped(bad: Seq<char>, rest: Seq<char>)
    requires
        forall|i: int| 0 <= i < bad.len() ==> #[trigger] bad[i] != '=' && bad[i] != ',',
    ensures
        const_entries(bad + seq![','] + rest) == const_entries(trim_start_sep(rest)),
{
    let s = bad + seq![','] + rest;
    assert forall|j: int| 0 <= j < bad.len() implies #[trigger] s[j] != ',' by {
        assert(s[j] == bad[j]);
    }
    crate::text::lemma_find_char_exact(s, ',', bad.len() as int);
    lemma_find_char_props(s, '=');
    if let Some(e) = find_char(s, '=') {
        if e < bad.len() {
            assert(s[e as int] == bad[e as int]);
        }
        assert(s[bad.len() as int] == ',');
    }
    let t = s.skip(bad.len() as int);
    assert(t.drop_first() =~= rest);
    assert(crate::text::is_sep(t[0]));
    assert(crate::text::lead_sep(t) == 1 + crate::text::lead_sep(t.drop_first()));
    lemma_lead_sep_bound(rest);
    assert(t.skip(1 + crate::text::lead_sep(rest) as int) =~= rest.skip(
        crate::text::lead_sep(rest) as int,
    ));
}

/// `quoted` reads a run of characters without quotes or backslashes as it
/// stands, up to the closing quote.
proof fn lemma_quoted_plain(chars: Seq<char>, i: int, j: int)
    requires
        0 <= i <= j < chars.len(),
        chars[j] == '\'',
        forall|m: int| i <= m < j ==> #[trigger] chars[m] != '\'' && chars[m] != '\\',
    ensures
        quoted(chars, i) == (chars.subrange(i, j), j + 1),
    decreases j - i,
{
    if i < j {
        lemma_quoted_plain(chars, i + 1, j);
        assert(seq![chars[i]] + chars.subrange(i + 1, j) =~= chars.subrange(i, j));
    } else {
        assert(chars.subrange(i, j) =~= Seq::<char>::empty());
    }
}

/// A single-quoted value is read as it stands, commas included: for a key
/// without `=` or `,` and without surrounding whitespace, and a value
/// without quotes or backslashes, `key='value'` gives the one entry
/// `(key, "value")`. The text is its own trim, so this is what
/// `parse_const_values_cli` returns for it.
pub proof fn law_quoted_value(k: Seq<char>, v: Seq<char>)
    requires
        k.len() > 0,
        !crate::text::is_ws(k[0]),
        !crate::text::is_ws(k.last()),
        forall|i: int| 0 <= i < k.len() ==> #[trigger] k[i] != '=' && k[i] != ',',
        forall|i: int| 0 <= i < v.len() ==> #[trigger] v[i] != '\'' && v[i] != '\\',
    ensures
        trim(k + seq!['=', '\''] + v + seq!['\'']) == k + seq!['=', '\''] + v + seq!['\''],
        const_entries(k + seq!['=', '\''] + v + seq!['\'']) == seq![(k, Json::Str(v))],
{
    let s = k + seq!['=', '\''] + v + seq!['\''];
    let n = k.len() as int;
    assert forall|j: int| 0 <= j < n implies #[trigger] s[j] != '=' by {
        assert(s[j] == k[j]);
    }
    assert(s[n] == '=');
    crate::text::lemma_find_char_exact(s, '=', n);
    lemma_find_char_props(s, ',');
    if let Some(p) = find_char(s, ',') {
        if p < n {
            assert(s[p as int] == k[p as int]);
        }
        assert(p != n);
    }
    crate::text::lemma_lead_ws_exact(k, 0);
    crate::text::lemma_trail_ws_exact(k, 0);
    assert(k.skip(0) =~= k);
    assert(k.take(k.len() as int) =~= k);
    assert(s.take(n) =~= k);
    let q = s.skip(n + 1);
    assert(q =~= seq!['\''] + v + seq!['\'']);
    crate::text::lemma_lead_ws_exact(q, 0);
    assert(q.skip(0) =~= q);
    let rest = trim_start(q);
    assert(rest == q);
    assert forall|m: int| 1 <= m < v.len() as int + 1 implies #[trigger] rest[m] != '\'' && rest[m]
        != '\\' by {
        assert(rest[m] == v[m - 1]);
    }
    let e = v.len() as int;
    lemma_quoted_plain(rest, 1, e + 1);
    assert(rest.subrange(1, e + 1) =~= v);
    assert(rest.skip(e + 2) =~= Seq::<char>::empty());
    assert(crate::text::lead_sep(Seq::<char>::empty()) == 0);
    assert(trim_start_sep(Seq::<char>::empty()) =~= Seq::<char>::empty());
    assert(seq![(k, Json::Str(v))] + Seq::<(Seq<char>, Json)>::empty() =~= seq![(k, Json::Str(v))]);
    assert(s[0] == k[0]);
    crate::text::lemma_lead_ws_exact(s, 0);
    assert(s.skip(0) =~= s);
    assert(s.last() == '\'');
    crate::text::lemma_trail_ws_exact(s, 0);
    assert(s.take(s.len() as int) =~= s);
    assert(find_char(s, '=') == Some(n as nat));
    assert(trim(s.take(n)) == k);
    assert(trim_start(s.skip(n + 1)) == rest);
    assert(rest.len() > 0 && rest[0] == '\'');
    assert(quoted(rest, 1) == (v, e + 2));
    assert(const_entries(trim_start_sep(rest.skip(e + 2))) =~= Seq::<(Seq<char>, Json)>::empty());
}

/// Trimming twice trims no more than once.
proof fn lemma_trim_idempotent(x: Seq<char>)
    ensures
        trim(trim(x)) == trim(x),
{
    lemma_lead_ws_bound(x);
    let ts = trim_start(x);
    crate::text::lemma_trail_ws_bound(ts);
    let t = trim(x);
    if t.len() > 0 {
        assert(ts[0] == x[crate::text::lead_ws(x) as int]);
        assert(t[0] == ts[0]);
        assert(t.last() == ts[ts.len() - crate::text::trail_ws(ts) - 1]);
        crate::text::lemma_lead_ws_exact(t, 0);
        assert(t.skip(0) =~= t);
        crate::text::lemma_trail_ws_exact(t, 0);
        assert(t.take(t.len() as int) =~= t);
    } else {
        assert(trim(t) =~= t);
    }
}

/// Every key that `const_entries` reads is its text before `=` with the
/// whitespace around it removed: it is nonempty, holds no `=`, and neither
/// starts nor ends with whitespace.
pub proof fn law_keys_trimmed(rem: Seq<char>)
    ensures
        forall|i: int|
            0 <= i < const_entries(rem).len() ==> {
                let k = #[trigger] const_entries(rem)[i].0;
                &&& k.len() > 0
                &&& trim(k) == k
                &&& forall|j: int| 0 <= j < k.len() ==> k[j] != '='
            },
    decreases rem.len(),
{
    if rem.len() > 0 {
        let cm = find_char(rem, ',');
        let eq = find_char(rem, '=');
        lemma_find_char_props(rem, ',');
        lemma_find_char_props(rem, '=');
        if eq is None || (cm is Some && cm.unwrap() < eq.unwrap()) {
            if let Some(p) = cm {
                lemma_lead_sep_bound(rem.skip(p as int));
                law_keys_trimmed(trim_start_sep(rem.skip(p as int)));
                assert(const_entries(rem) == const_entries(trim_start_sep(rem.skip(p as int))));
            } else {
                assert(const_entries(rem).len() == 0);
            }
        } else {
            let e = eq.unwrap();
            let pre = rem.take(e as int);
            let key = trim(pre);
            let rest = trim_start(rem.skip(e + 1 as int));
            lemma_lead_ws_bound(rem.skip(e + 1 as int));
            lemma_trim_idempotent(pre);
            lemma_lead_ws_bound(pre);
            crate::text::lemma_trail_ws_bound(trim_start(pre));
            assert forall|j: int| 0 <= j < key.len() implies key[j] != '=' by {
                assert(key[j] == pre[j + crate::text::lead_ws(pre)]);
            }
            if key.len() == 0 {
                assert(const_entries(rem).len() == 0);
            } else {
                let tail = if rest.len() > 0 && rest[0] == '\'' {
                    lemma_quoted_end(rest, 1);
                    let end = quoted(rest, 1).1;
                    lemma_lead_sep_bound(rest.skip(end));
                    trim_start_sep(rest.skip(end))
                } else {
                    let c = match find_char(rest, ',') {
                        Some(p) => p as int,
                        None => rest.len() as int,
                    };
                    lemma_find_char_props(rest, ',');
                    lemma_lead_sep_bound(rest.skip(c));
                    trim_start_sep(rest.skip(c))
                };
                law_keys_trimmed(tail);
                let v = if rest.len() > 0 && rest[0] == '\'' {
                    Json::Str(quoted(rest, 1).0)
                } else {
                    let c = match find_char(rest, ',') {
                        Some(p) => p as int,
                        None => rest.len() as int,
                    };
                    classify(trim(rest.take(c)))
                };
                let all = const_entries(rem);
                assert(all == seq![(key, v)] + const_entries(tail));
                assert forall|i: int| 0 <= i < all.len() implies {
                    let k = #[trigger] all[i].0;
                    &&& k.len() > 0
                    &&& trim(k) == k
                    &&& forall|j: int| 0 <= j < k.len() ==> k[j] != '='
                } by {
                    if i > 0 {
                        assert(all[i] == const_entries(tail)[i - 1]);
                    } else {
                        assert(all[0].0 == key);
                    }
                }
            }
        }
    }
}

} // verus!
