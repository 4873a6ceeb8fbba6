//! Which source files the scan skips: `--exclude` glob patterns, directories
//! that are always ignored, and the `// gts:ignore` directive.

use vstd::prelude::*;
use crate::matcher::{compile, is_match, regex_compiles, regex_is_match};
use crate::text::{
    char_is_ws,
    find_char,
    find_in,
    has_prefix_at,
    is_ws,
    lemma_find_char_props,
    occurs_at,
    contains_seq,
    starts_with,
    string_from_chars,
    to_chars,
    trim,
    trim_range,
};

verus! {

// ---------------------------------------------------------------------------
// Replacing substrings
// ---------------------------------------------------------------------------

/// `s` with every occurrence of `from` replaced by `to`, scanning from the
/// left and never overlapping, as `str::replace` does (for a nonempty `from`).
pub open spec fn replace_all(s: Seq<char>, from: Seq<char>, to: Seq<char>) -> Seq<char>
    decreases s.len(),
{
    if s.len() == 0 || from.len() == 0 {
        s
    } else if starts_with(s, from) {
        to + replace_all(s.skip(from.len() as int), from, to)
    } else {
        seq![s[0]] + replace_all(s.drop_first(), from, to)
    }
}

/// The characters of `s` with every occurrence of `from` replaced by `to`.
pub fn replace_chars(s: &Vec<char>, from: &Vec<char>, to: &Vec<char>) -> (r: Vec<char>)
    ensures
        r@ == replace_all(s@, from@, to@),
{
    if from.len() == 0 {
        return s.clone();
    }
    let n = s.len();
    let mut out: Vec<char> = Vec::new();
    let mut i: usize = 0;
    assert(s@.subrange(0, n as int) =~= s@);
    assert(out@ + replace_all(s@, from@, to@) =~= replace_all(s@, from@, to@));
    while i < n
        invariant
            n == s.len(),
            from.len() > 0,
            0 <= i <= n,
            replace_all(s@, from@, to@) == out@ + replace_all(
                s@.subrange(i as int, n as int),
                from@,
                to@,
            ),
        decreases n - i,
    {
        let ghost rest = s@.subrange(i as int, n as int);
        if has_prefix_at(s, i, n, from) {
            assert(rest.skip(from.len() as int) =~= s@.subrange(i + from.len(), n as int));
            let mut k: usize = 0;
            let ghost out0 = out@;
            while k < to.len()
                invariant
                    0 <= k <= to.len(),
                    out@ == out0 + to@.take(k as int),
                decreases to.len() - k,
            {
                out.push(to[k]);
                k = k + 1;
            }
            assert(to@.take(to.len() as int) =~= to@);
            assert(out0 + (to@ + replace_all(rest.skip(from.len() as int), from@, to@)) =~= out@
                + replace_all(rest.skip(from.len() as int), from@, to@));
            i = i + from.len();
        } else {
            assert(rest.drop_first() =~= s@.subrange(i + 1, n as int));
            let ghost out0 = out@;
            out.push(s[i]);
            assert(out0 + (seq![rest[0]] + replace_all(rest.drop_first(), from@, to@)) =~= out@
                + replace_all(rest.drop_first(), from@, to@));
            i = i + 1;
        }
    }
    assert(out@ + replace_all(s@.subrange(n as int, n as int), from@, to@) =~= out@);
    out
}

/// Whether `needle` occurs in `hay` (`str::contains`).
pub fn contains_chars(hay: &Vec<char>, needle: &Vec<char>) -> (b: bool)
    ensures
        b == contains_seq(hay@, needle@),
{
    if needle.len() > hay.len() {
        assert forall|i: int| !occurs_at(hay@, needle@, i) by {}
        return false;
    }
    let n = hay.len();
    let last = n - needle.len();
    let mut i: usize = 0;
    loop
        invariant
            n == hay.len(),
            last == n - needle.len(),
            0 <= i <= last,
            forall|j: int| 0 <= j < i ==> !occurs_at(hay@, needle@, j),
        decreases last - i,
    {
        assert(hay@.subrange(i as int, n as int).take(needle.len() as int) =~= hay@.subrange(
            i as int,
            i + needle.len(),
        ));
        if has_prefix_at(hay, i, n, needle) {
            assert(occurs_at(hay@, needle@, i as int));
            return true;
        }
        if i == last {
            assert forall|j: int| !occurs_at(hay@, needle@, j) by {
                if 0 <= j <= i {
                }
            }
            return false;
        }
        i = i + 1;
    }
}

// ---------------------------------------------------------------------------
// Glob patterns
// ---------------------------------------------------------------------------

/// The regex body of a glob pattern: `.` is escaped, `**` becomes `.*` and a
/// single `*` becomes `[^/]*`, by four successive replacements.
pub open spec fn glob_body(pattern: Seq<char>) -> Seq<char> {
    replace_all(
        replace_all(
            replace_all(replace_all(pattern, "."@, "\\."@), "**"@, "<<DOUBLESTAR>>"@),
            "*"@,
            "[^/]*"@,
        ),
        "<<DOUBLESTAR>>"@,
        ".*"@,
    )
}

/// The regex a glob pattern stands for: its body, anchored at a path
/// boundary on both sides.
pub open spec fn glob_regex(pattern: Seq<char>) -> Seq<char> {
    "(^|/)"@ + glob_body(pattern) + "($|/)"@
}

/// Whether `path` matches the glob `pattern`: by its regex where that
/// compiles, and by plain containment of the pattern otherwise.
pub open spec fn glob_match(path: Seq<char>, pattern: Seq<char>) -> bool {
    if regex_compiles(glob_regex(pattern)) {
        regex_is_match(glob_regex(pattern), path)
    } else {
        contains_seq(path, pattern)
    }
}

/// The regex source that the glob `pattern` stands for.
pub fn glob_to_regex(pattern: &str) -> (r: String)
    ensures
        r@ == glob_regex(pattern@),
{
    let p = to_chars(pattern);
    let s1 = replace_chars(&p, &to_chars("."), &to_chars("\\."));
    let s2 = replace_chars(&s1, &to_chars("**"), &to_chars("<<DOUBLESTAR>>"));
    let s3 = replace_chars(&s2, &to_chars("*"), &to_chars("[^/]*"));
    let s4 = replace_chars(&s3, &to_chars("<<DOUBLESTAR>>"), &to_chars(".*"));
    let mut re_chars = to_chars("(^|/)");
    let ghost head = re_chars@;
    let mut k: usize = 0;
    while k < s4.len()
        invariant
            0 <= k <= s4.len(),
            re_chars@ == head + s4@.take(k as int),
        decreases s4.len() - k,
    {
        re_chars.push(s4[k]);
        k = k + 1;
    }
    let tail = to_chars("($|/)");
    let ghost mid = re_chars@;
    let mut k: usize = 0;
    while k < tail.len()
        invariant
            0 <= k <= tail.len(),
            re_chars@ == mid + tail@.take(k as int),
        decreases tail.len() - k,
    {
        re_chars.push(tail[k]);
        k = k + 1;
    }
    assert(s4@.take(s4.len() as int) =~= s4@);
    assert(tail@.take(tail.len() as int) =~= tail@);
    assert(re_chars@ =~= glob_regex(pattern@));
    string_from_chars(re_chars.as_slice())
}

/// Simple glob pattern matching. Supports `*` (any characters but `/`) and
/// `**` (any path segments).
pub fn matches_glob_pattern(path: &str, pattern: &str) -> (b: bool)
    ensures
        b == glob_match(path@, pattern@),
{
    let regex_pattern = glob_to_regex(pattern);
    match compile(regex_pattern.as_str()) {
        Ok(re) => is_match(&re, path),
        Err(_) => contains_chars(&to_chars(path), &to_chars(pattern)),
    }
}

/// Check if a path matches any of the exclude patterns.
pub fn should_exclude_path(path: &str, patterns: &[String]) -> (b: bool)
    ensures
        b == exists|i: int| 0 <= i < patterns@.len() && glob_match(path@, #[trigger] patterns@[i]@),
{
    let mut i: usize = 0;
    while i < patterns.len()
        invariant
            0 <= i <= patterns@.len(),
            forall|j: int| 0 <= j < i ==> !glob_match(path@, #[trigger] patterns@[j]@),
        decreases patterns.len() - i,
    {
        if matches_glob_pattern(path, patterns[i].as_str()) {
            return true;
        }
        i = i + 1;
    }
    false
}

// ---------------------------------------------------------------------------
// Auto-ignored directories
// ---------------------------------------------------------------------------

/// Directories whose files are never scanned (trybuild `compile_fail` tests).
pub open spec fn auto_ignore_dirs() -> Seq<Seq<char>> {
    seq!["compile_fail"@]
}

/// `path[i..j]` is a component of the `/`-separated path.
pub open spec fn is_component(path: Seq<char>, i: int, j: int) -> bool {
    &&& 0 <= i <= j <= path.len()
    &&& i == 0 || path[i - 1] == '/'
    &&& j == path.len() || path[j] == '/'
    &&& forall|k: int| i <= k < j ==> path[k] != '/'
}

/// Some component of `path` is `name`.
pub open spec fn has_component(path: Seq<char>, name: Seq<char>) -> bool {
    exists|i: int, j: int| is_component(path, i, j) && path.subrange(i, j) == name
}

/// Check if path is in an auto-ignored directory (e.g., `compile_fail`).
pub fn is_in_auto_ignored_dir(path: &str) -> (b: bool)
    ensures
        b == exists|k: int|
            0 <= k < auto_ignore_dirs().len() && has_component(path@, #[trigger] auto_ignore_dirs()[k]),
        b == has_component(path@, "compile_fail"@),
{
    proof {
        law_auto_ignored_is_compile_fail(path@);
    }
    let dirs: Vec<&str> = vec!["compile_fail"];
    assert(dirs@.len() == 1 && dirs@[0]@ == auto_ignore_dirs()[0]);
    let v = to_chars(path);
    let n = v.len();
    let mut d: usize = 0;
    while d < dirs.len()
        invariant
            n == v@.len(),
            v@ == path@,
            dirs@.len() == auto_ignore_dirs().len(),
            forall|m: int| 0 <= m < dirs@.len() ==> #[trigger] dirs@[m]@ == auto_ignore_dirs()[m],
            0 <= d <= dirs.len(),
            forall|m: int| 0 <= m < d ==> !has_component(path@, #[trigger] auto_ignore_dirs()[m]),
        decreases dirs.len() - d,
    {
        let name = to_chars(dirs[d]);
        if component_equal(&v, &name) {
            return true;
        }
        d = d + 1;
    }
    false
}

/// The only auto-ignored directory is `compile_fail`: a path is
/// auto-ignored exactly when one of its `/`-separated components is
/// `compile_fail`.
pub proof fn law_auto_ignored_is_compile_fail(path: Seq<char>)
    ensures
        (exists|k: int|
            0 <= k < auto_ignore_dirs().len() && has_component(path, #[trigger] auto_ignore_dirs()[k]))
            == has_component(path, "compile_fail"@),
{
    if has_component(path, "compile_fail"@) {
        assert(has_component(path, auto_ignore_dirs()[0]));
    }
}

/// Whether some component of `v` is `name`.
fn component_equal(v: &Vec<char>, name: &Vec<char>) -> (b: bool)
    ensures
        b == has_component(v@, name@),
{
    let n = v.len();
    let mut start: usize = 0;
    let mut i: usize = 0;
    while i < n
        invariant
            n == v@.len(),
            0 <= start <= i <= n,
            start == 0 || v@[start - 1] == '/',
            forall|k: int| start <= k < i ==> v@[k] != '/',
            forall|a: int, c: int|
                is_component(v@, a, c) && c < start ==> v@.subrange(a, c) != name@,
        decreases n - i,
    {
        if v[i] == '/' {
            if segment_is(v, start, i, name) {
                return true;
            }
            proof {
                assert forall|a: int, c: int|
                    is_component(v@, a, c) && c < i + 1 implies v@.subrange(a, c) != name@ by {
                    if c >= start {
                        if c < i {
                            assert(v@[c] == '/');
                        } else {
                            if a < start {
                                assert(v@[start - 1] == '/');
                            } else if a > start {
                                assert(v@[a - 1] != '/');
                            }
                        }
                    }
                }
            }
            start = i + 1;
        }
        i = i + 1;
    }
    if segment_is(v, start, n, name) {
        return true;
    }
    proof {
        assert forall|a: int, c: int| is_component(v@, a, c) implies v@.subrange(a, c)
            != name@ by {
            if c >= start {
                if c < n {
                    assert(v@[c] == '/');
                } else {
                    if a < start {
                        assert(v@[start - 1] == '/');
                    } else if a > start {
                        assert(v@[a - 1] != '/');
                    }
                }
            }
        }
    }
    false
}

/// Whether `v[lo..hi]` is `name`.
fn segment_is(v: &Vec<char>, lo: usize, hi: usize, name: &Vec<char>) -> (b: bool)
    requires
        lo <= hi <= v.len(),
    ensures
        b == (v@.subrange(lo as int, hi as int) == name@),
{
    if hi - lo != name.len() {
        return false;
    }
    let r = has_prefix_at(v, lo, hi, name);
    assert(v@.subrange(lo as int, hi as int).take(name.len() as int) =~= v@.subrange(
        lo as int,
        hi as int,
    ));
    r
}

// ---------------------------------------------------------------------------
// The ignore directive
// ---------------------------------------------------------------------------

/// The directive that keeps a file out of the scan.
pub open spec fn ignore_directive() -> Seq<char> {
    "// gts:ignore"@
}

/// `c` with ASCII capitals made small.
pub open spec fn ascii_lower(c: char) -> char {
    if 'A' <= c && c <= 'Z' {
        ((c as u32) + 32) as char
    } else {
        c
    }
}

/// `t` starts with `p` when letter case is ignored (`t.to_lowercase()`
/// starts with the lowercase ASCII text `p`).
pub open spec fn starts_with_ignore_case(t: Seq<char>, p: Seq<char>) -> bool {
    p.len() <= t.len() && forall|i: int| 0 <= i < p.len() ==> ascii_lower(#[trigger] t[i]) == p[i]
}

/// End of the first line of `s`: the index of its first `\n`, or its length.
pub open spec fn line_end(s: Seq<char>) -> nat {
    match find_char(s, '\n') {
        Some(i) => i,
        None => s.len(),
    }
}

/// Looks for the directive in at most `budget` lines of `s`: blank lines are
/// passed over, a line that starts with the directive (in any case) answers
/// yes, and any other line that is neither a `//` comment nor a `#!`
/// attribute ends the search.
pub open spec fn scan_directive(s: Seq<char>, budget: nat) -> bool
    decreases budget,
{
    if budget == 0 {
        false
    } else {
        let e = line_end(s);
        let t = trim(s.take(e as int));
        let more = e < s.len();
        if t.len() == 0 {
            more && scan_directive(s.skip(e + 1 as int), (budget - 1) as nat)
        } else if starts_with_ignore_case(t, ignore_directive()) {
            true
        } else if !starts_with(t, "//"@) && !starts_with(t, "#!"@) {
            false
        } else {
            more && scan_directive(s.skip(e + 1 as int), (budget - 1) as nat)
        }
    }
}

/// Check if file content starts with the gts:ignore directive: it is looked
/// for in the first ten lines, before any line of code.
pub fn has_ignore_directive(content: &str) -> (b: bool)
    ensures
        b == scan_directive(content@, 10),
{
    let v = to_chars(content);
    let n = v.len();
    let directive = to_chars("// gts:ignore");
    let slashes = to_chars("//");
    let shebang = to_chars("#!");
    let mut pos: usize = 0;
    let mut budget: usize = 10;
    assert(v@.subrange(0, n as int) =~= content@);
    loop
        invariant
            n == v@.len(),
            0 <= pos <= n,
            budget <= 10,
            directive@ == ignore_directive(),
            slashes@ == "//"@,
            shebang@ == "#!"@,
            scan_directive(content@, 10) == scan_directive(
                v@.subrange(pos as int, n as int),
                budget as nat,
            ),
        decreases budget,
    {
        let ghost s = v@.subrange(pos as int, n as int);
        if budget == 0 {
            return false;
        }
        proof {
            lemma_find_char_props(s, '\n');
        }
        let e = match find_in(&v, pos, n, '\n') {
            Some(i) => pos + i,
            None => n,
        };
        assert(line_end(s) == e - pos);
        assert(s.take(e - pos) =~= v@.subrange(pos as int, e as int));
        let (a, b) = trim_range(&v, pos, e);
        let more = e < n;
        if e < n {
            assert(s.skip(e - pos + 1) =~= v@.subrange(e + 1, n as int));
        }
        if a == b {
            if !more {
                return false;
            }
            pos = e + 1;
            budget = budget - 1;
        } else if prefix_ignore_case(&v, a, b, &directive) {
            return true;
        } else if !has_prefix_at(&v, a, b, &slashes) && !has_prefix_at(&v, a, b, &shebang) {
            return false;
        } else {
            if !more {
                return false;
            }
            pos = e + 1;
            budget = budget - 1;
        }
    }
}

/// Whether `v[lo..hi]` starts with the lowercase text `p`, ignoring case.
fn prefix_ignore_case(v: &Vec<char>, lo: usize, hi: usize, p: &Vec<char>) -> (b: bool)
    requires
        lo <= hi <= v.len(),
    ensures
        b == starts_with_ignore_case(v@.subrange(lo as int, hi as int), p@),
{
    let ghost t = v@.subrange(lo as int, hi as int);
    if p.len() > hi - lo {
        return false;
    }
    let mut k: usize = 0;
    while k < p.len()
        invariant
            p.len() <= hi - lo,
            lo <= hi <= v.len(),
            t == v@.subrange(lo as int, hi as int),
            0 <= k <= p.len(),
            forall|j: int| 0 <= j < k ==> ascii_lower(#[trigger] t[j]) == p@[j],
        decreases p.len() - k,
    {
        let c = v[lo + k];
        let lc = if 'A' <= c && c <= 'Z' {
            char_lower_ascii(c)
        } else {
            c
        };
        assert(t[k as int] == c);
        if lc != p[k] {
            return false;
        }
        k = k + 1;
    }
    true
}

/// The small letter of an ASCII capital.
fn char_lower_ascii(c: char) -> (r: char)
    requires
        'A' <= c && c <= 'Z',
    ensures
        r == ascii_lower(c),
{
    let code = (c as u32) + 32;
    let r = if code == 97 { 'a' } else if code == 98 { 'b' } else if code == 99 { 'c' } else if code
        == 100 { 'd' } else if code == 101 { 'e' } else if code == 102 { 'f' } else if code == 103 {
        'g'
    } else if code == 104 { 'h' } else if code == 105 { 'i' } else if code == 106 { 'j' } else if code
        == 107 { 'k' } else if code == 108 { 'l' } else if code == 109 { 'm' } else if code == 110 {
        'n'
    } else if code == 111 { 'o' } else if code == 112 { 'p' } else if code == 113 { 'q' } else if code
        == 114 { 'r' } else if code == 115 { 's' } else if code == 116 { 't' } else if code == 117 {
        'u'
    } else if code == 118 { 'v' } else if code == 119 { 'w' } else if code == 120 { 'x' } else if code
        == 121 { 'y' } else { 'z' };
    r
}

// ---------------------------------------------------------------------------
// Why a file was skipped
// ---------------------------------------------------------------------------

/// Reason why a file was skipped.
#[derive(Debug, Clone, Copy, PartialEq, Eq, Structural)]
pub enum SkipReason {
    ExcludePattern,
    AutoIgnoredDir,
    IgnoreDirective,
}

/// The words that report a skip reason.
pub open spec fn skip_reason_text(r: SkipReason) -> Seq<char> {
    match r {
        SkipReason::ExcludePattern => "matched --exclude pattern"@,
        SkipReason::AutoIgnoredDir => "in auto-ignored directory (compile_fail)"@,
        SkipReason::IgnoreDirective => "has // gts:ignore directive"@,
    }
}

impl SkipReason {
    /// The text that reports this reason.
    pub fn describe(&self) -> (s: String)
        ensures
            s@ == skip_reason_text(*self),
    {
        match self {
            SkipReason::ExcludePattern => "matched --exclude pattern".to_owned(),
            SkipReason::AutoIgnoredDir => "in auto-ignored directory (compile_fail)".to_owned(),
            SkipReason::IgnoreDirective => "has // gts:ignore directive".to_owned(),
        }
    }
}

/// Why a file found under the source tree is passed over before it is read:
/// an exclude pattern matches its path, or else it lies in an auto-ignored
/// directory; `None` where it is to be read.
pub fn skip_before_read(path: &str, exclude_patterns: &[String]) -> (r: Option<SkipReason>)
    ensures
        r == (if exists|i: int|
            0 <= i < exclude_patterns@.len() && glob_match(path@, #[trigger] exclude_patterns@[i]@) {
            Some(SkipReason::ExcludePattern)
        } else if exists|k: int|
            0 <= k < auto_ignore_dirs().len() && has_component(path@, #[trigger] auto_ignore_dirs()[k]) {
            Some(SkipReason::AutoIgnoredDir)
        } else {
            None
        }),
{
    if should_exclude_path(path, exclude_patterns) {
        Some(SkipReason::ExcludePattern)
    } else if is_in_auto_ignored_dir(path) {
        Some(SkipReason::AutoIgnoredDir)
    } else {
        None
    }
}

/// Why a file that was read is passed over: it carries the ignore directive.
pub fn skip_after_read(content: &str) -> (r: Option<SkipReason>)
    ensures
        r == (if scan_directive(content@, 10) {
            Some(SkipReason::IgnoreDirective)
        } else {
            None
        }),
{
    if has_ignore_directive(content) {
        Some(SkipReason::IgnoreDirective)
    } else {
        None
    }
}

/// Number of occurrences of `c` in `s`.
pub open spec fn count_char(s: Seq<char>, c: char) -> nat
    decreases s.len(),
{
    if s.len() == 0 {
        0
    } else {
        (if s[0] == c {
            1nat
        } else {
            0nat
        }) + count_char(s.drop_first(), c)
    }
}

proof fn lemma_count_after_first(s: Seq<char>, c: char)
    ensures
        match find_char(s, c) {
            Some(i) => count_char(s, c) == 1 + count_char(s.skip(i + 1 as int), c),
            None => count_char(s, c) == 0,
        },
    decreases s.len(),
{
    if s.len() > 0 {
        lemma_count_after_first(s.drop_first(), c);
        if s[0] == c {
            assert(s.skip(1) =~= s.drop_first());
        } else {
            lemma_find_char_props(s.drop_first(), c);
            if let Some(i) = find_char(s.drop_first(), c) {
                assert(s.drop_first().skip(i + 1 as int) =~= s.skip(i + 2 as int));
            }
        }
    }
}

proof fn lemma_scan_prefix(s: Seq<char>, t: Seq<char>, budget: nat)
    requires
        count_char(s, '\n') >= budget,
    ensures
        scan_directive(s + t, budget) == scan_directive(s, budget),
    decreases budget,
{
    if budget > 0 {
        lemma_count_after_first(s, '\n');
        lemma_find_char_props(s, '\n');
        let i = find_char(s, '\n').unwrap() as int;
        assert forall|j: int| 0 <= j < i implies #[trigger] (s + t)[j] != '\n' by {
            assert((s + t)[j] == s[j]);
        }
        crate::text::lemma_find_char_exact(s + t, '\n', i);
        assert((s + t).take(i) =~= s.take(i));
        assert((s + t).skip(i + 1) =~= s.skip(i + 1) + t);
        lemma_scan_prefix(s.skip(i + 1), t, (budget - 1) as nat);
    }
}

/// Only the first ten lines are looked at: once the text holds ten line
/// breaks, what follows them does not change whether the directive is found.
pub proof fn law_directive_window(s: Seq<char>, t: Seq<char>)
    requires
        count_char(s, '\n') >= 10,
    ensures
        scan_directive(s + t, 10) == scan_directive(s, 10),
{
    lemma_scan_prefix(s, t, 10);
}

/// `a` and `b` are the same text up to ASCII letter case.
pub open spec fn same_up_to_case(a: Seq<char>, b: Seq<char>) -> bool {
    a.len() == b.len() && forall|i: int| 0 <= i < a.len() ==> ascii_lower(#[trigger] a[i])
        == ascii_lower(b[i])
}

proof fn lemma_case_char(a: char, b: char)
    requires
        ascii_lower(a) == ascii_lower(b),
    ensures
        is_ws(a) == is_ws(b),
        (a == '\n') == (b == '\n'),
        (a == '/') == (b == '/'),
        (a == '#') == (b == '#'),
        (a == '!') == (b == '!'),
{
    if 'A' <= a && a <= 'Z' {
        assert(ascii_lower(a) as u32 == a as u32 + 32);
    }
    if 'A' <= b && b <= 'Z' {
        assert(ascii_lower(b) as u32 == b as u32 + 32);
    }
}

proof fn lemma_case_find(a: Seq<char>, b: Seq<char>)
    requires
        same_up_to_case(a, b),
    ensures
        find_char(a, '\n') == find_char(b, '\n'),
    decreases a.len(),
{
    if a.len() > 0 {
        lemma_case_char(a[0], b[0]);
        assert(same_up_to_case(a.drop_first(), b.drop_first())) by {
            assert forall|i: int| 0 <= i < a.len() - 1 implies ascii_lower(
                #[trigger] a.drop_first()[i],
            ) == ascii_lower(b.drop_first()[i]) by {
                assert(a.drop_first()[i] == a[i + 1]);
                assert(b.drop_first()[i] == b[i + 1]);
            }
        }
        lemma_case_find(a.drop_first(), b.drop_first());
    }
}

proof fn lemma_case_lead_ws(a: Seq<char>, b: Seq<char>)
    requires
        same_up_to_case(a, b),
    ensures
        crate::text::lead_ws(a) == crate::text::lead_ws(b),
    decreases a.len(),
{
    if a.len() > 0 {
        lemma_case_char(a[0], b[0]);
        assert(same_up_to_case(a.drop_first(), b.drop_first())) by {
            assert forall|i: int| 0 <= i < a.len() - 1 implies ascii_lower(
                #[trigger] a.drop_first()[i],
            ) == ascii_lower(b.drop_first()[i]) by {
                assert(a.drop_first()[i] == a[i + 1]);
                assert(b.drop_first()[i] == b[i + 1]);
            }
        }
        lemma_case_lead_ws(a.drop_first(), b.drop_first());
    }
}

proof fn lemma_case_trail_ws(a: Seq<char>, b: Seq<char>)
    requires
        same_up_to_case(a, b),
    ensures
        crate::text::trail_ws(a) == crate::text::trail_ws(b),
    decreases a.len(),
{
    if a.len() > 0 {
        lemma_case_char(a.last(), b.last());
        assert(same_up_to_case(a.drop_last(), b.drop_last())) by {
            assert forall|i: int| 0 <= i < a.len() - 1 implies ascii_lower(
                #[trigger] a.drop_last()[i],
            ) == ascii_lower(b.drop_last()[i]) by {
                assert(a.drop_last()[i] == a[i]);
                assert(b.drop_last()[i] == b[i]);
            }
        }
        lemma_case_trail_ws(a.drop_last(), b.drop_last());
    }
}

proof fn lemma_case_scan(a: Seq<char>, b: Seq<char>, budget: nat)
    requires
        same_up_to_case(a, b),
    ensures
        scan_directive(a, budget) == scan_directive(b, budget),
    decreases budget,
{
    if budget > 0 {
        lemma_case_find(a, b);
        lemma_find_char_props(a, '\n');
        let e = line_end(a) as int;
        let la = a.take(e);
        let lb = b.take(e);
        assert(same_up_to_case(la, lb));
        lemma_case_lead_ws(la, lb);
        crate::text::lemma_lead_ws_bound(la);
        let sa = crate::text::trim_start(la);
        let sb = crate::text::trim_start(lb);
        assert(same_up_to_case(sa, sb)) by {
            assert forall|i: int| 0 <= i < sa.len() implies ascii_lower(#[trigger] sa[i])
                == ascii_lower(sb[i]) by {
                assert(sa[i] == la[i + crate::text::lead_ws(la)]);
                assert(sb[i] == lb[i + crate::text::lead_ws(la)]);
            }
        }
        lemma_case_trail_ws(sa, sb);
        crate::text::lemma_trail_ws_bound(sa);
        let ta = trim(la);
        let tb = trim(lb);
        assert(same_up_to_case(ta, tb)) by {
            assert forall|i: int| 0 <= i < ta.len() implies ascii_lower(#[trigger] ta[i])
                == ascii_lower(tb[i]) by {
                assert(ta[i] == sa[i]);
                assert(tb[i] == sb[i]);
            }
        }
        let d = ignore_directive();
        if starts_with_ignore_case(ta, d) {
            assert forall|i: int| 0 <= i < d.len() implies ascii_lower(#[trigger] tb[i]) == d[i] by {
                assert(ascii_lower(ta[i]) == ascii_lower(tb[i]));
            }
        }
        if starts_with_ignore_case(tb, d) {
            assert forall|i: int| 0 <= i < d.len() implies ascii_lower(#[trigger] ta[i]) == d[i] by {
                assert(ascii_lower(ta[i]) == ascii_lower(tb[i]));
            }
        }
        reveal_strlit("//");
        reveal_strlit("#!");
        if ta.len() >= 2 {
            lemma_case_char(ta[0], tb[0]);
            lemma_case_char(ta[1], tb[1]);
            assert(starts_with(ta, "//"@) == (ta[0] == '/' && ta[1] == '/')) by {
                if ta[0] == '/' && ta[1] == '/' {
                    assert(ta.take(2) =~= "//"@);
                }
                if starts_with(ta, "//"@) {
                    assert(ta.take(2)[0] == ta[0] && ta.take(2)[1] == ta[1]);
                    assert("//"@[0] == '/' && "//"@[1] == '/');
                }
            }
            assert(starts_with(tb, "//"@) == (tb[0] == '/' && tb[1] == '/')) by {
                if tb[0] == '/' && tb[1] == '/' {
                    assert(tb.take(2) =~= "//"@);
                }
                if starts_with(tb, "//"@) {
                    assert(tb.take(2)[0] == tb[0] && tb.take(2)[1] == tb[1]);
                    assert("//"@[0] == '/' && "//"@[1] == '/');
                }
            }
            assert(starts_with(ta, "#!"@) == (ta[0] == '#' && ta[1] == '!')) by {
                if ta[0] == '#' && ta[1] == '!' {
                    assert(ta.take(2) =~= "#!"@);
                }
                if starts_with(ta, "#!"@) {
                    assert(ta.take(2)[0] == ta[0] && ta.take(2)[1] == ta[1]);
                    assert("#!"@[0] == '#' && "#!"@[1] == '!');
                }
            }
            assert(starts_with(tb, "#!"@) == (tb[0] == '#' && tb[1] == '!')) by {
                if tb[0] == '#' && tb[1] == '!' {
                    assert(tb.take(2) =~= "#!"@);
                }
                if starts_with(tb, "#!"@) {
                    assert(tb.take(2)[0] == tb[0] && tb.take(2)[1] == tb[1]);
                    assert("#!"@[0] == '#' && "#!"@[1] == '!');
                }
            }
        }
        if e < a.len() {
            let ra = a.skip(e + 1);
            let rb = b.skip(e + 1);
            assert(same_up_to_case(ra, rb)) by {
                assert forall|i: int| 0 <= i < ra.len() implies ascii_lower(#[trigger] ra[i])
                    == ascii_lower(rb[i]) by {
                    assert(ra[i] == a[i + e + 1]);
                    assert(rb[i] == b[i + e + 1]);
                }
            }
            lemma_case_scan(ra, rb, (budget - 1) as nat);
        }
    }
}

/// The directive is found whatever the ASCII letter case of the text: two
/// texts that differ only in the case of their letters (such as a text and
/// its `to_ascii_uppercase` or `to_ascii_lowercase`) give the same answer.
pub proof fn law_directive_ignores_case(a: Seq<char>, b: Seq<char>)
    requires
        same_up_to_case(a, b),
    ensures
        scan_directive(a, 10) == scan_directive(b, 10),
{
    lemma_case_scan(a, b, 10);
}

/// A blank line, a `//` comment that is not the directive, or a `#!`
/// attribute at the top is passed over, wherever it stands among the lines
/// looked at: dropping it leaves the answer as it was on the remaining
/// lines, with one line less to look at.
pub proof fn law_skippable_line(l: Seq<char>, rest: Seq<char>, budget: nat)
    requires
        forall|i: int| 0 <= i < l.len() ==> #[trigger] l[i] != '\n',
        trim(l).len() == 0 || starts_with(trim(l), "//"@) || starts_with(trim(l), "#!"@),
        !starts_with_ignore_case(trim(l), ignore_directive()),
    ensures
        scan_directive(l + seq!['\n'] + rest, budget + 1) == scan_directive(rest, budget),
{
    let s = l + seq!['\n'] + rest;
    assert forall|j: int| 0 <= j < l.len() implies #[trigger] s[j] != '\n' by {
        assert(s[j] == l[j]);
    }
    crate::text::lemma_find_char_exact(s, '\n', l.len() as int);
    assert(s.take(l.len() as int) =~= l);
    assert(s.skip(l.len() as int + 1) =~= rest);
}

/// A line of code before the directive hides it: when the first line is
/// neither blank nor a `//` comment nor a `#!` attribute, the file has no
/// ignore directive, whatever follows.
pub proof fn law_code_before_directive(line: Seq<char>, rest: Seq<char>)
    requires
        forall|i: int| 0 <= i < line.len() ==> #[trigger] line[i] != '\n',
        trim(line).len() > 0,
        !starts_with(trim(line), "//"@),
        !starts_with(trim(line), "#!"@),
    ensures
        !scan_directive(line + seq!['\n'] + rest, 10),
{
    let s = line + seq!['\n'] + rest;
    assert forall|j: int| 0 <= j < line.len() implies #[trigger] s[j] != '\n' by {
        assert(s[j] == line[j]);
    }
    crate::text::lemma_find_char_exact(s, '\n', line.len() as int);
    assert(s.take(line.len() as int) =~= line);
    let t = trim(line);
    reveal_strlit("// gts:ignore");
    reveal_strlit("//");
    if starts_with_ignore_case(t, ignore_directive()) {
        assert(ascii_lower(t[0]) == '/' && ascii_lower(t[1]) == '/');
        assert(t.take(2) =~= "//"@);
    }
}

/// A directive on the first line is found: when the first line, trimmed,
/// starts with `// gts:ignore` in any letter case, the file is ignored.
pub proof fn law_directive_first_line(line: Seq<char>, rest: Seq<char>)
    requires
        forall|i: int| 0 <= i < line.len() ==> #[trigger] line[i] != '\n',
        starts_with_ignore_case(trim(line), ignore_directive()),
    ensures
        scan_directive(line + seq!['\n'] + rest, 10),
{
    let s = line + seq!['\n'] + rest;
    assert forall|j: int| 0 <= j < line.len() implies #[trigger] s[j] != '\n' by {
        assert(s[j] == line[j]);
    }
    crate::text::lemma_find_char_exact(s, '\n', line.len() as int);
    assert(s.take(line.len() as int) =~= line);
    reveal_strlit("// gts:ignore");
}

} // verus!
