//! `@spec` citations in source text.
//!
//! A line counts only when it carries the `@spec` keyword (followed by a
//! non-word character or the end of the line); every spec-ID-shaped token
//! on such a line that starts and ends on a word boundary and holds a
//! digit is a citation. Tokens are found left to right without overlap,
//! each as long as the boundary rule allows.

use vstd::prelude::*;

use crate::ids::{check_has_digit, check_spec_id_shape, has_digit, is_id_char, is_spec_id, spec_id_shape, SpecId};
use crate::model::{CitationKind, SpecCitation};
use crate::paths::{components, extension, file_name, has_component, path_extension, path_file_name, path_has_component};
use crate::text::{contains_seq, ends_with, lines_of, line_spans, spans_match, starts_with, str_contains, str_ends_with, str_eq, str_starts_with, byte_len, byte_offsets, char_is_word, chars_of, has_at, is_digit, is_upper, is_word, string_of, sub_vec};

verus! {

/// `v[i]` exists and is a word character.
pub open spec fn word_at(v: Seq<char>, i: int) -> bool {
    0 <= i < v.len() && is_word(v[i])
}

/// The line holds `@spec` followed by a non-word character or its end.
pub open spec fn has_spec_keyword(v: Seq<char>) -> bool {
    exists|p: int|
        0 <= p && p + 5 <= v.len() && #[trigger] v.subrange(p, p + 5) == "@spec"@ && !word_at(v, p + 5)
}

/// `v[s..e]` is spec-ID shaped and ends on a word boundary.
pub open spec fn valid_end(v: Seq<char>, s: int, e: int) -> bool {
    &&& 0 <= s < e <= v.len()
    &&& spec_id_shape(v.subrange(s, e))
    &&& !word_at(v, e)
}

/// The largest `e' <= e` with `valid_end(v, s, e')`.
pub open spec fn best_end(v: Seq<char>, s: int, e: int) -> Option<int>
    decreases e - s,
{
    if e <= s {
        None
    } else if valid_end(v, s, e) {
        Some(e)
    } else {
        best_end(v, s, e - 1)
    }
}

/// End of the spec-ID token starting at `s`, if one starts there.
pub open spec fn match_at(v: Seq<char>, s: int) -> Option<int> {
    if 0 <= s < v.len() && !word_at(v, s - 1) && is_upper(v[s]) {
        best_end(v, s, v.len() as int)
    } else {
        None
    }
}

pub proof fn lemma_best_end_bounds(v: Seq<char>, s: int, e: int)
    ensures
        best_end(v, s, e) matches Some(x) ==> s < x <= e && valid_end(v, s, x),
    decreases e - s,
{
    if e > s && !valid_end(v, s, e) {
        lemma_best_end_bounds(v, s, e - 1);
    }
}

/// Spans of the spec-ID tokens of `v` at or after `p` that hold a digit.
pub open spec fn id_matches(v: Seq<char>, p: int) -> Seq<(int, int)>
    decreases v.len() - p,
{
    if p < 0 || p >= v.len() {
        Seq::empty()
    } else {
        match match_at(v, p) {
            Some(e) => {
                proof {
                    lemma_best_end_bounds(v, p, v.len() as int);
                }
                (if has_digit(v.subrange(p, e)) {
                    seq![(p, e)]
                } else {
                    Seq::empty()
                }) + id_matches(v, e)
            },
            None => id_matches(v, p + 1),
        }
    }
}

/// `c` cannot continue a spec ID: not a letter, digit, `_` or `-`.
pub open spec fn id_delimiter(c: char) -> bool {
    !is_word(c) && c != '-'
}

proof fn lemma_best_end_is(v: Seq<char>, s: int, b: int, e: int)
    requires
        0 <= s < b <= e <= v.len(),
        valid_end(v, s, b),
        forall|x: int| b < x <= e ==> !valid_end(v, s, x),
    ensures
        best_end(v, s, e) == Some(b),
    decreases e - b,
{
    if e > b {
        lemma_best_end_is(v, s, b, e - 1);
    }
}

proof fn lemma_id_matches_finds(v: Seq<char>, p: int, a: int, b: int)
    requires
        0 <= p <= a < b <= v.len(),
        is_spec_id(v.subrange(a, b)),
        a == 0 || id_delimiter(v[a - 1]),
        b == v.len() || id_delimiter(v[b]),
    ensures
        id_matches(v, p).contains((a, b)),
    decreases a - p,
{
    let t = v.subrange(a, b);
    if p == a {
        assert(is_upper(t[0]));
        assert(!word_at(v, a - 1));
        assert(valid_end(v, a, b));
        assert forall|x: int| b < x <= v.len() implies !valid_end(v, a, x) by {
            let u = v.subrange(a, x);
            assert(u[b - a] == v[b]);
            assert(!is_id_char(v[b])) by {
                if is_id_char(v[b]) {
                    assert(is_word(v[b]));
                }
            }
        }
        lemma_best_end_is(v, a, b, v.len() as int);
        assert(match_at(v, a) == Some(b));
        assert(v.subrange(a, b) == t);
        let head: Seq<(int, int)> = seq![(a, b)];
        assert(id_matches(v, a) == head + id_matches(v, b));
        assert((head + id_matches(v, b))[0] == (a, b));
    } else {
        match match_at(v, p) {
            None => {
                lemma_id_matches_finds(v, p + 1, a, b);
            },
            Some(e) => {
                lemma_best_end_bounds(v, p, v.len() as int);
                if e > a {
                    let u = v.subrange(p, e);
                    assert(u[a - 1 - p] == v[a - 1]);
                    assert(is_id_char(v[a - 1]) || v[a - 1] == '-');
                    assert(is_word(v[a - 1])) by {
                        if v[a - 1] != '-' {
                            assert(is_id_char(v[a - 1]));
                        }
                    }
                }
                lemma_id_matches_finds(v, e, a, b);
                let head: Seq<(int, int)> = if has_digit(v.subrange(p, e)) {
                    seq![(p, e)]
                } else {
                    Seq::empty()
                };
                assert(id_matches(v, p) == head + id_matches(v, e));
                let k = choose|k: int| 0 <= k < id_matches(v, e).len() && id_matches(v, e)[k] == (a, b);
                assert((head + id_matches(v, e))[head.len() + k] == (a, b));
            },
        }
    }
}

/// The citation scanner misses no citation: on a line with the `@spec`
/// keyword, every valid spec ID that stands between characters that
/// cannot continue an ID (or the line's ends) is cited.
pub proof fn law_citation_complete(v: Seq<char>, a: int, b: int)
    requires
        has_spec_keyword(v),
        0 <= a < b <= v.len(),
        is_spec_id(v.subrange(a, b)),
        a == 0 || id_delimiter(v[a - 1]),
        b == v.len() || id_delimiter(v[b]),
    ensures
        line_citation_spans(v).contains((a, b)),
{
    lemma_id_matches_finds(v, 0, a, b);
}

/// Spans of the citations on one line.
pub open spec fn line_citation_spans(v: Seq<char>) -> Seq<(int, int)> {
    if has_spec_keyword(v) {
        id_matches(v, 0)
    } else {
        Seq::empty()
    }
}

fn has_keyword(v: &Vec<char>) -> (r: bool)
    ensures
        r == has_spec_keyword(v@),
{
    let n = v.len();
    if n < 5 {
        proof {
            reveal_strlit("@spec");
        }
        return false;
    }
    let mut p: usize = 0;
    while p <= n - 5
        invariant
            n >= 5,
            n == v@.len(),
            forall|q: int|
                0 <= q < p && q + 5 <= n ==> !(#[trigger] v@.subrange(q, q + 5) == "@spec"@
                    && !word_at(v@, q + 5)),
        decreases n - p,
    {
        if has_at(v, p, "@spec") {
            proof {
                reveal_strlit("@spec");
            }
            if p + 5 == n || !char_is_word(v[p + 5]) {
                return true;
            }
        }
        proof {
            reveal_strlit("@spec");
        }
        p = p + 1;
    }
    proof {
        reveal_strlit("@spec");
    }
    false
}

fn is_spec_id_shape_range(v: &Vec<char>, lo: usize, hi: usize) -> (r: bool)
    requires
        lo <= hi <= v@.len(),
    ensures
        r == spec_id_shape(v@.subrange(lo as int, hi as int)),
{
    let w = sub_vec(v, lo, hi);
    check_spec_id_shape(&w)
}

fn has_digit_range(v: &Vec<char>, lo: usize, hi: usize) -> (r: bool)
    requires
        lo <= hi <= v@.len(),
    ensures
        r == has_digit(v@.subrange(lo as int, hi as int)),
{
    let w = sub_vec(v, lo, hi);
    check_has_digit(&w)
}

/// Whether `v[i]` is an uppercase letter, digit or hyphen.
spec fn run_char(c: char) -> bool {
    is_upper(c) || is_digit(c) || c == '-'
}

proof fn lemma_best_end_past_run(v: Seq<char>, s: int, t: int, e: int)
    requires
        0 <= s < t <= e <= v.len(),
        t < v.len() ==> !run_char(v[t]),
    ensures
        best_end(v, s, e) == best_end(v, s, t),
    decreases e - t,
{
    if e > t {
        assert(!spec_id_shape(v.subrange(s, e))) by {
            assert(v.subrange(s, e)[t - s] == v[t]);
        }
        lemma_best_end_past_run(v, s, t, e - 1);
    }
}

/// End of the spec-ID token starting at `s`, computed.
fn match_at_exec(v: &Vec<char>, s: usize) -> (r: Option<usize>)
    requires
        s < v@.len(),
    ensures
        r matches Some(e) ==> match_at(v@, s as int) == Some(e as int),
        r is None ==> match_at(v@, s as int) is None,
{
    let n = v.len();
    if s > 0 && char_is_word(v[s - 1]) {
        return None;
    }
    if !(v[s] >= 'A' && v[s] <= 'Z') {
        return None;
    }
    let mut t = s + 1;
    while t < n && ((v[t] >= 'A' && v[t] <= 'Z') || (v[t] >= '0' && v[t] <= '9') || v[t] == '-')
        invariant
            n == v@.len(),
            s < t <= n,
        decreases n - t,
    {
        t = t + 1;
    }
    proof {
        lemma_best_end_past_run(v@, s as int, t as int, n as int);
    }
    let mut e = t;
    while e > s
        invariant
            n == v@.len(),
            s <= e <= t <= n,
            s < n,
            !word_at(v@, s - 1),
            is_upper(v@[s as int]),
            best_end(v@, s as int, n as int) == best_end(v@, s as int, t as int),
            best_end(v@, s as int, t as int) == best_end(v@, s as int, e as int),
        decreases e - s,
    {
        if is_spec_id_shape_range(v, s, e) && (e == n || !char_is_word(v[e])) {
            assert(valid_end(v@, s as int, e as int));
            assert(best_end(v@, s as int, e as int) == Some(e as int));
            return Some(e);
        }
        e = e - 1;
    }
    None
}

/// Spans of the digit-bearing spec-ID tokens of `v`.
fn id_match_spans(v: &Vec<char>) -> (r: Vec<(usize, usize)>)
    ensures
        r@.len() == id_matches(v@, 0).len(),
        forall|k: int|
            0 <= k < r@.len() ==> (#[trigger] r@[k]).0 == id_matches(v@, 0)[k].0 && r@[k].1
                == id_matches(v@, 0)[k].1,
{
    let n = v.len();
    let mut out: Vec<(usize, usize)> = Vec::new();
    let ghost mut done: Seq<(int, int)> = Seq::empty();
    let mut p: usize = 0;
    while p < n
        invariant
            n == v@.len(),
            0 <= p <= n,
            id_matches(v@, 0) == done + id_matches(v@, p as int),
            out@.len() == done.len(),
            forall|k: int|
                0 <= k < out@.len() ==> (#[trigger] out@[k]).0 == done[k].0 && out@[k].1 == done[k].1
                    && done[k].0 < done[k].1 <= n,
        decreases n - p,
    {
        match match_at_exec(v, p) {
            Some(e) => {
                proof {
                    lemma_best_end_bounds(v@, p as int, n as int);
                }
                if has_digit_range(v, p, e) {
                    let ghost old_out = out@;
                    let ghost old_done = done;
                    out.push((p, e));
                    proof {
                        done = done.push((p as int, e as int));
                        assert(id_matches(v@, p as int) == seq![(p as int, e as int)] + id_matches(
                            v@,
                            e as int,
                        ));
                        assert(old_done + (seq![(p as int, e as int)] + id_matches(v@, e as int))
                            =~= done + id_matches(v@, e as int));
                        assert forall|k: int| 0 <= k < out@.len() implies (#[trigger] out@[k]).0
                            == done[k].0 && out@[k].1 == done[k].1 && done[k].0 < done[k].1 <= n by {
                            if k < old_out.len() {
                                assert(out@[k] == old_out[k]);
                                assert(done[k] == old_done[k]);
                            }
                        }
                    }
                } else {
                    proof {
                        assert(id_matches(v@, p as int) == Seq::<(int, int)>::empty() + id_matches(
                            v@,
                            e as int,
                        ));
                        assert(Seq::<(int, int)>::empty() + id_matches(v@, e as int) =~= id_matches(
                            v@,
                            e as int,
                        ));
                    }
                }
                p = e;
            },
            None => {
                p = p + 1;
            },
        }
    }
    assert(done + id_matches(v@, n as int) =~= done);
    out
}

/// One spec-ID reference within a single line, with the byte range of the
/// matched ID inside the line.
#[derive(Debug)]
pub struct LineCitation {
    pub id: SpecId,
    /// Byte offsets within the source line.
    pub byte_range: std::ops::Range<usize>,
}

/// Every `@spec` reference on `line`, with the byte range of each spec ID.
/// Empty for lines without the `@spec` keyword.
pub fn find_citations_in_line(line: &str) -> (r: Vec<LineCitation>)
    ensures
        r@.len() == line_citation_spans(line@).len(),
        forall|k: int|
            0 <= k < r@.len() ==> {
                let (a, b) = line_citation_spans(line@)[k];
                &&& (#[trigger] r@[k]).id@ == line@.subrange(a, b)
                &&& r@[k].byte_range.start == byte_len(line@.take(a))
                &&& r@[k].byte_range.end == byte_len(line@.take(b))
            },
{
    let v = chars_of(line);
    let mut out: Vec<LineCitation> = Vec::new();
    if !has_keyword(&v) {
        return out;
    }
    let spans = id_match_spans(&v);
    let offs = byte_offsets(line, &v);
    let mut k: usize = 0;
    while k < spans.len()
        invariant
            v@ == line@,
            has_spec_keyword(v@),
            spans@.len() == id_matches(v@, 0).len(),
            forall|j: int|
                0 <= j < spans@.len() ==> (#[trigger] spans@[j]).0 == id_matches(v@, 0)[j].0
                    && spans@[j].1 == id_matches(v@, 0)[j].1,
            offs@.len() == v@.len() + 1,
            forall|j: int| 0 <= j <= v@.len() ==> #[trigger] offs@[j] == byte_len(v@.take(j)),
            0 <= k <= spans@.len(),
            out@.len() == k,
            forall|j: int|
                0 <= j < k ==> {
                    let (a, b) = line_citation_spans(line@)[j];
                    &&& (#[trigger] out@[j]).id@ == line@.subrange(a, b)
                    &&& out@[j].byte_range.start == byte_len(line@.take(a))
                    &&& out@[j].byte_range.end == byte_len(line@.take(b))
                },
        decreases spans@.len() - k,
    {
        let (a, b) = spans[k];
        proof {
            lemma_id_matches_wf(v@, 0);
            assert(id_matches(v@, 0)[k as int] == (a as int, b as int));
        }
        let text = string_of(&v, a, b);
        match SpecId::parse(text.as_str()) {
            Ok(id) => {
                let ghost old_out = out@;
                out.push(LineCitation { id, byte_range: offs[a]..offs[b] });
                proof {
                    assert forall|j: int| 0 <= j < out@.len() implies {
                        let (a2, b2) = line_citation_spans(line@)[j];
                        &&& (#[trigger] out@[j]).id@ == line@.subrange(a2, b2)
                        &&& out@[j].byte_range.start == byte_len(line@.take(a2))
                        &&& out@[j].byte_range.end == byte_len(line@.take(b2))
                    } by {
                        if j < old_out.len() {
                            assert(out@[j] == old_out[j]);
                        }
                    }
                }
            },
            Err(_) => {
                assert(false);
            },
        }
        k = k + 1;
    }
    out
}

/// Every span of `id_matches(v, p)` is a digit-bearing spec ID within `v`.
proof fn lemma_id_matches_wf(v: Seq<char>, p: int)
    ensures
        forall|k: int|
            0 <= k < id_matches(v, p).len() ==> {
                let (a, b) = #[trigger] id_matches(v, p)[k];
                &&& 0 <= a < b <= v.len()
                &&& is_spec_id(v.subrange(a, b))
            },
    decreases v.len() - p,
{
    if 0 <= p < v.len() {
        match match_at(v, p) {
            Some(e) => {
                lemma_best_end_bounds(v, p, v.len() as int);
                lemma_id_matches_wf(v, e);
                let head: Seq<(int, int)> = if has_digit(v.subrange(p, e)) {
                    seq![(p, e)]
                } else {
                    Seq::empty()
                };
                assert(id_matches(v, p) == head + id_matches(v, e));
                assert forall|k: int| 0 <= k < id_matches(v, p).len() implies {
                    let (a, b) = #[trigger] id_matches(v, p)[k];
                    &&& 0 <= a < b <= v.len()
                    &&& is_spec_id(v.subrange(a, b))
                } by {
                    if k < head.len() {
                        assert(id_matches(v, p)[k] == (p, e));
                    } else {
                        assert(id_matches(v, p)[k] == id_matches(v, e)[k - head.len()]);
                    }
                }
            },
            None => {
                lemma_id_matches_wf(v, p + 1);
                assert(id_matches(v, p) == id_matches(v, p + 1));
            },
        }
    }
}

/// A file name following a test naming convention: it contains `.test.`,
/// `.spec.` or `_test.`, ends with `_test.go`, or starts with `test_`.
pub open spec fn is_test_name(name: Seq<char>) -> bool {
    ||| contains_seq(name, ".test."@)
    ||| contains_seq(name, ".spec."@)
    ||| contains_seq(name, "_test."@)
    ||| ends_with(name, "_test.go"@)
    ||| starts_with(name, "test_"@)
}

/// The file name of `p` follows a test naming convention.
pub open spec fn is_test_path_name(p: Seq<char>) -> bool {
    match file_name(p) {
        Some(n) => is_test_name(n),
        None => false,
    }
}

/// Documentation extensions: `md`, `yaml`, `yml`.
pub open spec fn is_doc_ext(e: Seq<char>) -> bool {
    e == "md"@ || e == "yaml"@ || e == "yml"@
}

/// Recognised source-code extensions.
pub open spec fn is_code_ext(e: Seq<char>) -> bool {
    ||| e == "rs"@
    ||| e == "ts"@
    ||| e == "tsx"@
    ||| e == "js"@
    ||| e == "jsx"@
    ||| e == "py"@
    ||| e == "go"@
    ||| e == "java"@
    ||| e == "scala"@
    ||| e == "rb"@
    ||| e == "kt"@
    ||| e == "swift"@
    ||| e == "cs"@
    ||| e == "cpp"@
    ||| e == "c"@
    ||| e == "h"@
    ||| e == "hpp"@
}

/// Role of a file, from its path alone: documentation extensions are
/// `Spec` under `docs` and `specs` components and `Other` elsewhere; then
/// `tests`/`test` components or a test file name give `Test`; recognised
/// source extensions give `Code`; anything else is `Other`.
pub open spec fn citation_kind_of(p: Seq<char>) -> CitationKind {
    let ext = extension(p);
    if ext matches Some(e) && is_doc_ext(e) {
        if has_component(p, "specs"@) && has_component(p, "docs"@) {
            CitationKind::Spec
        } else {
            CitationKind::Other
        }
    } else if has_component(p, "tests"@) || has_component(p, "test"@) || is_test_path_name(p) {
        CitationKind::Test
    } else if ext matches Some(e) && is_code_ext(e) {
        CitationKind::Code
    } else {
        CitationKind::Other
    }
}

/// Whether the file name of `path` follows a test naming convention.
pub fn is_test_filename(path: &str) -> (r: bool)
    ensures
        r == is_test_path_name(path@),
{
    match path_file_name(path) {
        None => false,
        Some(name) => {
            let n = name.as_str();
            str_contains(n, ".test.") || str_contains(n, ".spec.") || str_contains(n, "_test.")
                || str_ends_with(n, "_test.go") || str_starts_with(n, "test_")
        },
    }
}

fn is_doc_ext_exec(e: &str) -> (r: bool)
    ensures
        r == is_doc_ext(e@),
{
    str_eq(e, "md") || str_eq(e, "yaml") || str_eq(e, "yml")
}

fn is_code_ext_exec(e: &str) -> (r: bool)
    ensures
        r == is_code_ext(e@),
{
    str_eq(e, "rs") || str_eq(e, "ts") || str_eq(e, "tsx") || str_eq(e, "js") || str_eq(e, "jsx")
        || str_eq(e, "py") || str_eq(e, "go") || str_eq(e, "java") || str_eq(e, "scala") || str_eq(
        e,
        "rb",
    ) || str_eq(e, "kt") || str_eq(e, "swift") || str_eq(e, "cs") || str_eq(e, "cpp") || str_eq(
        e,
        "c",
    ) || str_eq(e, "h") || str_eq(e, "hpp")
}

/// How a cited file is classified. A markdown or YAML file is a spec
/// file exactly when its path has both a `docs` and a `specs` component,
/// and otherwise other. Any other file is a test file when a component
/// is `test` or `tests`, whatever its name, or when its name contains
/// `.test.`, `.spec.` or `_test.` or starts with `test_`; failing both, it
/// is code when its extension is a source-code one, and other otherwise.
pub proof fn law_citation_kind(p: Seq<char>)
    ensures
        !(extension(p) == Some("md"@) || extension(p) == Some("yaml"@) || extension(p) == Some("yml"@)) && (file_name(
            p,
        ) matches Some(n) && (contains_seq(n, ".test."@) || contains_seq(n, ".spec."@) || contains_seq(n, "_test."@)
            || starts_with(n, "test_"@))) ==> citation_kind_of(p) == CitationKind::Test,
        !(extension(p) == Some("md"@) || extension(p) == Some("yaml"@) || extension(p) == Some("yml"@))
            && !components(p).contains("test"@) && !components(p).contains("tests"@) && !is_test_path_name(p) ==> (
        citation_kind_of(p) == CitationKind::Code <==> (extension(p) matches Some(e) && is_code_ext(e))) && (
        citation_kind_of(p) == CitationKind::Code || citation_kind_of(p) == CitationKind::Other),
        (extension(p) == Some("md"@) || extension(p) == Some("yaml"@) || extension(p) == Some("yml"@)) ==> (
        citation_kind_of(p) == CitationKind::Spec <==> components(p).contains("docs"@) && components(p).contains(
            "specs"@,
        )) && (citation_kind_of(p) == CitationKind::Spec || citation_kind_of(p) == CitationKind::Other),
        !(extension(p) == Some("md"@) || extension(p) == Some("yaml"@) || extension(p) == Some("yml"@)) && (components(
            p,
        ).contains("test"@) || components(p).contains("tests"@)) ==> citation_kind_of(p) == CitationKind::Test,
{
}

/// Heuristic classification of a path into a [`CitationKind`].
pub fn classify_path(path: &str) -> (r: CitationKind)
    ensures
        r == citation_kind_of(path@),
{
    let ext = path_extension(path);
    let is_doc = match &ext {
        Some(e) => is_doc_ext_exec(e.as_str()),
        None => false,
    };
    if is_doc {
        if path_has_component(path, "specs") && path_has_component(path, "docs") {
            return CitationKind::Spec;
        }
        return CitationKind::Other;
    }
    if path_has_component(path, "tests") || path_has_component(path, "test") || is_test_filename(
        path,
    ) {
        return CitationKind::Test;
    }
    match &ext {
        Some(e) => if is_code_ext_exec(e.as_str()) {
            CitationKind::Code
        } else {
            CitationKind::Other
        },
        None => CitationKind::Other,
    }
}

/// Citations of the first `n` lines: `(line index, start, end)`, in order.
pub open spec fn cites_upto(lines: Seq<Seq<char>>, n: int) -> Seq<(int, int, int)>
    decreases n,
{
    if n <= 0 {
        Seq::empty()
    } else {
        cites_upto(lines, n - 1) + line_citation_spans(lines[n - 1]).map_values(
            |ab: (int, int)| (n - 1, ab.0, ab.1),
        )
    }
}

proof fn lemma_cites_upto(lines: Seq<Seq<char>>, n: int)
    requires
        0 <= n <= lines.len(),
    ensures
        forall|k: int|
            0 <= k < cites_upto(lines, n).len() ==> {
                let t = #[trigger] cites_upto(lines, n)[k];
                &&& 0 <= t.0 < n
                &&& has_spec_keyword(lines[t.0])
                &&& 0 <= t.1 < t.2 <= lines[t.0].len()
                &&& is_spec_id(lines[t.0].subrange(t.1, t.2))
            },
        forall|k: int, m: int|
            0 <= k < m < cites_upto(lines, n).len() ==> (#[trigger] cites_upto(lines, n)[k]).0 <= (
            #[trigger] cites_upto(lines, n)[m]).0,
    decreases n,
{
    if n > 0 {
        lemma_cites_upto(lines, n - 1);
        let pre = cites_upto(lines, n - 1);
        let l = lines[n - 1];
        lemma_id_matches_wf(l, 0);
        let add = line_citation_spans(l).map_values(|ab: (int, int)| (n - 1, ab.0, ab.1));
        let all = cites_upto(lines, n);
        assert(all == pre + add);
        assert forall|k: int| 0 <= k < all.len() implies {
            let t = #[trigger] all[k];
            &&& 0 <= t.0 < n
            &&& has_spec_keyword(lines[t.0])
            &&& 0 <= t.1 < t.2 <= lines[t.0].len()
            &&& is_spec_id(lines[t.0].subrange(t.1, t.2))
        } by {
            if k < pre.len() {
                assert(all[k] == pre[k]);
            } else {
                assert(all[k] == add[k - pre.len()]);
                assert(has_spec_keyword(l));
                assert(line_citation_spans(l) == id_matches(l, 0));
            }
        }
        assert forall|k: int, m: int| 0 <= k < m < all.len() implies (#[trigger] all[k]).0 <= (#[trigger] all[m]).0 by {
            if m < pre.len() {
                assert(all[k] == pre[k] && all[m] == pre[m]);
            } else if k < pre.len() {
                assert(all[k] == pre[k]);
                assert(all[m] == add[m - pre.len()]);
            } else {
                assert(all[k] == add[k - pre.len()] && all[m] == add[m - pre.len()]);
            }
        }
    }
}

/// What the source scanner finds: every citation lies on a line that has
/// the `@spec` keyword, spans a valid spec ID there, and the citations
/// come in line order.
pub proof fn law_content_cites_are_spec_ids(content: Seq<char>)
    ensures
        forall|k: int|
            0 <= k < content_cites(content).len() ==> {
                let t = #[trigger] content_cites(content)[k];
                &&& 0 <= t.0 < lines_of(content).len()
                &&& has_spec_keyword(lines_of(content)[t.0])
                &&& 0 <= t.1 < t.2 <= lines_of(content)[t.0].len()
                &&& is_spec_id(lines_of(content)[t.0].subrange(t.1, t.2))
            },
        forall|k: int, m: int|
            0 <= k < m < content_cites(content).len() ==> (#[trigger] content_cites(content)[k]).0 <= (
            #[trigger] content_cites(content)[m]).0,
{
    lemma_cites_upto(lines_of(content), lines_of(content).len() as int);
}

/// Citations of every line of `content`: `(line index, start, end)`.
pub open spec fn content_cites(content: Seq<char>) -> Seq<(int, int, int)> {
    cites_upto(lines_of(content), lines_of(content).len() as int)
}

/// `c` records the citation `(i, a, b)` of `content` found in file `path`.
pub open spec fn citation_matches(c: SpecCitation, content: Seq<char>, path: Seq<char>, t: (int, int, int)) -> bool {
    &&& c.id@ == lines_of(content)[t.0].subrange(t.1, t.2)
    &&& c.file@ == path
    &&& c.line == t.0 + 1
    &&& c.kind == citation_kind_of(path)
}

/// Scan a single in-memory string and append its citations to `out`, in
/// line order, each stamped with `path`, its 1-based line and the path's
/// kind.
pub fn scan_content(content: &str, path: &str, out: &mut Vec<SpecCitation>)
    ensures
        final(out)@.len() == old(out)@.len() + content_cites(content@).len(),
        final(out)@.take(old(out)@.len() as int) == old(out)@,
        forall|k: int|
            0 <= k < content_cites(content@).len() ==> citation_matches(
                #[trigger] final(out)@[old(out)@.len() + k],
                content@,
                path@,
                content_cites(content@)[k],
            ),
{
    let kind = classify_path(path);
    let v = chars_of(content);
    let spans = line_spans(&v);
    let ghost lines = lines_of(v@);
    let ghost base = old(out)@.len();
    let mut i: usize = 0;
    while i < spans.len()
        invariant
            v@ == content@,
            lines == lines_of(v@),
            spans_match(v@, spans@, lines),
            kind == citation_kind_of(path@),
            0 <= i <= spans@.len(),
            base == old(out)@.len(),
            out@.len() == base + cites_upto(lines, i as int).len(),
            out@.take(base as int) == old(out)@,
            forall|k: int|
                0 <= k < cites_upto(lines, i as int).len() ==> citation_matches(
                    #[trigger] out@[base + k],
                    content@,
                    path@,
                    cites_upto(lines, i as int)[k],
                ),
        decreases spans@.len() - i,
    {
        let (a, b) = spans[i];
        let line = string_of(&v, a, b);
        let found = find_citations_in_line(line.as_str());
        let line_no = i + 1;
        let ghost before = out@;
        let ghost prev = cites_upto(lines, i as int);
        let ghost here = line_citation_spans(lines[i as int]).map_values(
            |ab: (int, int)| (i as int, ab.0, ab.1),
        );
        assert(cites_upto(lines, i + 1) == prev + here);
        let mut j: usize = 0;
        while j < found.len()
            invariant
                lines[i as int] == line@,
                found@.len() == line_citation_spans(line@).len(),
                forall|k: int|
                    0 <= k < found@.len() ==> {
                        let (a2, b2) = line_citation_spans(line@)[k];
                        (#[trigger] found@[k]).id@ == line@.subrange(a2, b2)
                    },
                here.len() == found@.len(),
                0 <= j <= found@.len(),
                kind == citation_kind_of(path@),
                before.len() == base + prev.len(),
                out@.len() == before.len() + j,
                out@.take(before.len() as int) == before,
                forall|k: int|
                    0 <= k < j ==> citation_matches(
                        #[trigger] out@[before.len() + k],
                        content@,
                        path@,
                        here[k],
                    ),
                lines == lines_of(content@),
                i < lines.len(),
                i < spans@.len(),
                line_no == i + 1,
                here == line_citation_spans(lines[i as int]).map_values(
                    |ab: (int, int)| (i as int, ab.0, ab.1),
                ),
            decreases found@.len() - j,
        {
            let id = found[j].id.clone();
            let ghost old_o = out@;
            out.push(SpecCitation { id, file: path.to_owned(), line: line_no, kind });
            proof {
                assert forall|k: int| 0 <= k < j + 1 implies citation_matches(
                    #[trigger] out@[before.len() + k],
                    content@,
                    path@,
                    here[k],
                ) by {
                    if k < j {
                        assert(out@[before.len() + k] == old_o[before.len() + k]);
                    }
                }
                assert(out@.take(before.len() as int) =~= old_o.take(before.len() as int));
            }
            j = j + 1;
        }
        proof {
            assert forall|k: int| 0 <= k < cites_upto(lines, i + 1).len() implies citation_matches(
                #[trigger] out@[base + k],
                content@,
                path@,
                cites_upto(lines, i + 1)[k],
            ) by {
                if k < prev.len() {
                    assert(out@[base + k] == before[base + k]);
                    assert(cites_upto(lines, i + 1)[k] == prev[k]);
                } else {
                    let k2 = k - prev.len();
                    assert(cites_upto(lines, i + 1)[k] == here[k2]);
                    assert(citation_matches(out@[before.len() + k2], content@, path@, here[k2]));
                    assert(before.len() + k2 == base + k);
                }
            }
            assert(out@.take(base as int) =~= before.take(base as int));
        }
        i = i + 1;
    }
}

} // verus!
