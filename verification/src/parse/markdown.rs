//! Line-level parsers for LID markdown artifacts: EARS spec files, spec
//! lines, and standalone decision docs; plus in-place edits of spec lines.

use vstd::prelude::*;

use crate::error::LidError;
use crate::ids::{has_digit, is_spec_id, spec_id_shape, SpecId};
use crate::model::{DecisionDoc, DecisionScope, SpecFile, SpecLine, SpecStatus};
use crate::text::{
    byte_len, byte_offsets, char_is_ws, chars_of, has_at, is_digit, is_upper, is_ws, line_spans,
    lines_acc, lines_of, range_eq, spans_match, string_of, strip_cr, trim, trim_end, trim_range, trim_start,
};

verus! {

/// Upper-case letter, digit or hyphen.
pub open spec fn id_run_char(c: char) -> bool {
    is_upper(c) || is_digit(c) || c == '-'
}

/// First index at or after `i` that is not an ID character.
pub open spec fn run_end(v: Seq<char>, i: int) -> int
    decreases v.len() - i,
{
    if 0 <= i < v.len() && id_run_char(v[i]) {
        run_end(v, i + 1)
    } else {
        i
    }
}

/// A status marker character: ` `, `x` or `D`.
pub open spec fn is_marker(c: char) -> bool {
    c == ' ' || c == 'x' || c == 'D'
}

/// The status a marker character stands for.
pub open spec fn marker_status(c: char) -> SpecStatus {
    if c == 'x' {
        SpecStatus::Implemented
    } else if c == 'D' {
        SpecStatus::Deferred
    } else {
        SpecStatus::Open
    }
}

/// The marker character of a status.
pub open spec fn status_marker(s: SpecStatus) -> char {
    match s {
        SpecStatus::Implemented => 'x',
        SpecStatus::Open => ' ',
        SpecStatus::Deferred => 'D',
    }
}

/// The line has the shape `- [M] **ID**: TEXT` with `M` a marker, `ID`
/// spec-ID shaped, and `TEXT` non-empty.
pub open spec fn spec_line_shaped(v: Seq<char>) -> bool {
    let j = run_end(v, 8);
    &&& v.len() >= 8
    &&& v.subrange(0, 3) == "- ["@
    &&& is_marker(v[3])
    &&& v.subrange(4, 8) == "] **"@
    &&& j + 4 < v.len()
    &&& v.subrange(j, j + 4) == "**: "@
    &&& spec_id_shape(v.subrange(8, j))
}

/// The ID of a spec-shaped line.
pub open spec fn spec_line_id(v: Seq<char>) -> Seq<char> {
    v.subrange(8, run_end(v, 8))
}

/// The requirement text of a spec-shaped line.
pub open spec fn spec_line_text(v: Seq<char>) -> Seq<char> {
    v.skip(run_end(v, 8) + 4)
}

/// The line defines a spec: spec-shaped with an ID that holds a digit.
pub open spec fn is_spec_line(v: Seq<char>) -> bool {
    spec_line_shaped(v) && has_digit(spec_line_id(v))
}

/// The line defines the spec `id`.
pub open spec fn defines_spec(v: Seq<char>, id: Seq<char>) -> bool {
    is_spec_line(v) && spec_line_id(v) == id
}

/// The text of a spec line with the given status, ID and requirement text.
pub open spec fn render_spec_line(s: SpecStatus, id: Seq<char>, text: Seq<char>) -> Seq<char> {
    "- ["@.push(status_marker(s)) + "] **"@ + id + "**: "@ + text
}

proof fn lemma_run_end_at(v: Seq<char>, i: int, e: int)
    requires
        0 <= i <= e < v.len(),
        forall|k: int| i <= k < e ==> id_run_char(#[trigger] v[k]),
        !id_run_char(v[e]),
    ensures
        run_end(v, i) == e,
    decreases e - i,
{
    if i < e {
        lemma_run_end_at(v, i + 1, e);
    }
}

/// A rendered spec line reads back as the status, ID and text it was
/// rendered from.
pub proof fn law_spec_line_round_trip(s: SpecStatus, id: Seq<char>, t: Seq<char>)
    requires
        is_spec_id(id),
        t.len() > 0,
    ensures
        is_spec_line(render_spec_line(s, id, t)),
        spec_line_id(render_spec_line(s, id, t)) == id,
        marker_status(render_spec_line(s, id, t)[3]) == s,
        spec_line_text(render_spec_line(s, id, t)) == t,
{
    reveal_strlit("- [");
    reveal_strlit("] **");
    reveal_strlit("**: ");
    let v = render_spec_line(s, id, t);
    let n: int = id.len() as int;
    assert(v.len() == 8 + n + 4 + t.len());
    assert forall|k: int| 0 <= k < n implies v[8 + k] == id[k] by {}
    assert forall|k: int| 8 <= k < 8 + n implies id_run_char(#[trigger] v[k]) by {
        assert(v[k] == id[k - 8]);
    }
    assert(v[8 + n] == '*');
    lemma_run_end_at(v, 8, 8 + n);
    assert(v.subrange(0, 3) =~= "- ["@);
    assert(v.subrange(4, 8) =~= "] **"@);
    assert(v.subrange(8 + n, 8 + n + 4) =~= "**: "@);
    assert(v.subrange(8, 8 + n) =~= id);
    assert(v.skip(8 + n + 4) =~= t);
}

proof fn lemma_run_end_bounds(v: Seq<char>, i: int)
    requires
        0 <= i <= v.len(),
    ensures
        i <= run_end(v, i) <= v.len(),
        forall|k: int| i <= k < run_end(v, i) ==> id_run_char(#[trigger] v[k]),
        run_end(v, i) < v.len() ==> !id_run_char(v[run_end(v, i)]),
    decreases v.len() - i,
{
    if i < v.len() && id_run_char(v[i]) {
        lemma_run_end_bounds(v, i + 1);
    }
}

fn run_end_exec(v: &Vec<char>, i: usize) -> (r: usize)
    requires
        i <= v@.len(),
    ensures
        r == run_end(v@, i as int),
        i <= r <= v@.len(),
{
    let mut j = i;
    while j < v.len() && ((v[j] >= 'A' && v[j] <= 'Z') || (v[j] >= '0' && v[j] <= '9') || v[j] == '-')
        invariant
            i <= j <= v@.len(),
            run_end(v@, i as int) == run_end(v@, j as int),
        decreases v@.len() - j,
    {
        j = j + 1;
    }
    j
}

/// Where the ID ends on a spec-shaped line, `None` when not shaped.
fn spec_line_shape_exec(v: &Vec<char>) -> (r: Option<usize>)
    ensures
        r matches Some(j) ==> spec_line_shaped(v@) && j == run_end(v@, 8) && 8 <= j && j + 4 < v@.len(),
        r is None ==> !spec_line_shaped(v@),
{
    if v.len() < 8 || !range_eq(v, 0, 3, "- [") || !(v[3] == ' ' || v[3] == 'x' || v[3] == 'D')
        || !range_eq(v, 4, 8, "] **") {
        return None;
    }
    let j = run_end_exec(v, 8);
    if j >= v.len() || v.len() - j <= 4 || !range_eq(v, j, j + 4, "**: ") {
        return None;
    }
    let w = crate::text::sub_vec(v, 8, j);
    if !crate::ids::check_spec_id_shape(&w) {
        return None;
    }
    Some(j)
}

/// One spec-shaped line, parsed.
#[derive(Debug)]
pub struct SpecLineMatch {
    pub id: SpecId,
    pub status: SpecStatus,
    pub text: String,
    /// Byte range of the spec ID within the line (without the `**`).
    pub id_byte_range: std::ops::Range<usize>,
}

/// Parse a single line and return the spec it defines, if any: `None`
/// unless the line is `- [M] **ID**: TEXT` with a valid spec ID.
pub fn find_spec_line_match(line: &str) -> (r: Option<SpecLineMatch>)
    ensures
        r is Some <==> is_spec_line(line@),
        r matches Some(m) ==> {
            &&& m.id@ == spec_line_id(line@)
            &&& m.status == marker_status(line@[3])
            &&& m.text@ == spec_line_text(line@)
            &&& m.id_byte_range.start == byte_len(line@.take(8))
            &&& m.id_byte_range.end == byte_len(line@.take(run_end(line@, 8)))
        },
{
    let v = chars_of(line);
    let j = match spec_line_shape_exec(&v) {
        Some(j) => j,
        None => return None,
    };
    let idtext = string_of(&v, 8, j);
    let id = match SpecId::parse(idtext.as_str()) {
        Ok(id) => id,
        Err(_) => return None,
    };
    let status = if v[3] == 'x' {
        SpecStatus::Implemented
    } else if v[3] == 'D' {
        SpecStatus::Deferred
    } else {
        SpecStatus::Open
    };
    let n = v.len();
    let text = string_of(&v, j + 4, n);
    assert(v@.subrange(j + 4, v@.len() as int) =~= v@.skip(j + 4));
    let offs = byte_offsets(line, &v);
    Some(SpecLineMatch { id, status, text, id_byte_range: offs[8]..offs[j] })
}

/// The lines of `content`, as strings.
pub fn content_lines(content: &str) -> (r: Vec<String>)
    ensures
        r@.len() == lines_of(content@).len(),
        forall|k: int| 0 <= k < r@.len() ==> (#[trigger] r@[k])@ == lines_of(content@)[k],
{
    let v = chars_of(content);
    let spans = line_spans(&v);
    let mut out: Vec<String> = Vec::new();
    let mut k: usize = 0;
    while k < spans.len()
        invariant
            v@ == content@,
            spans_match(v@, spans@, lines_of(v@)),
            0 <= k <= spans@.len(),
            out@.len() == k,
            forall|j: int| 0 <= j < k ==> (#[trigger] out@[j])@ == lines_of(content@)[j],
        decreases spans@.len() - k,
    {
        let (a, b) = spans[k];
        out.push(string_of(&v, a, b));
        k = k + 1;
    }
    out
}

/// Index of the first line defining `id`, or -1.
pub open spec fn first_definition(lines: Seq<Seq<char>>, id: Seq<char>, from: int) -> int
    decreases lines.len() - from,
{
    if from < 0 || from >= lines.len() {
        -1
    } else if defines_spec(lines[from], id) {
        from
    } else {
        first_definition(lines, id, from + 1)
    }
}

/// `lines` joined by `\n`, plus a final `\n` when `content` ended with one.
pub open spec fn rejoin(lines: Seq<Seq<char>>, content: Seq<char>) -> Seq<char> {
    let body = crate::paths::join_with(lines, '\n');
    if content.len() > 0 && content.last() == '\n' {
        body.push('\n')
    } else {
        body
    }
}

/// Result of replacing the first line that defines `id` with `new_line(old)`.
pub open spec fn replaced_definition(content: Seq<char>, id: Seq<char>, new_line: Seq<char>) -> Seq<char> {
    let ls = lines_of(content);
    rejoin(ls.update(first_definition(ls, id, 0), new_line), content)
}

proof fn lemma_first_definition(lines: Seq<Seq<char>>, id: Seq<char>, from: int)
    requires
        0 <= from <= lines.len(),
    ensures
        first_definition(lines, id, from) == -1 ==> forall|k: int|
            from <= k < lines.len() ==> !defines_spec(#[trigger] lines[k], id),
        first_definition(lines, id, from) != -1 ==> from <= first_definition(lines, id, from)
            < lines.len() && defines_spec(lines[first_definition(lines, id, from)], id),
    decreases lines.len() - from,
{
    if from < lines.len() && !defines_spec(lines[from], id) {
        lemma_first_definition(lines, id, from + 1);
    }
}

/// `s` holds no line feed.
pub open spec fn no_newline(s: Seq<char>) -> bool {
    forall|i: int| 0 <= i < s.len() ==> s[i] != '\n'
}

/// `s` ends with a carriage return.
pub open spec fn ends_with_cr(s: Seq<char>) -> bool {
    s.len() > 0 && s.last() == '\r'
}

/// `content` ends with a line feed.
pub open spec fn ends_with_newline(content: Seq<char>) -> bool {
    content.len() > 0 && content.last() == '\n'
}

/// Only the last line may end with a carriage return, and only when
/// `content` has no final line feed: rejoining such lines reads back
/// unchanged.
pub open spec fn cr_safe(lines: Seq<Seq<char>>, content: Seq<char>) -> bool {
    forall|j: int|
        0 <= j < lines.len() && ends_with_cr(#[trigger] lines[j]) ==> j == lines.len() - 1
            && !ends_with_newline(content)
}

proof fn lemma_lines_acc_skip(a: Seq<char>, rest: Seq<char>, cur: Seq<char>)
    requires
        no_newline(a),
    ensures
        lines_acc(a + rest, cur) == lines_acc(rest, cur + a),
    decreases a.len(),
{
    if a.len() == 0 {
        assert(a + rest =~= rest);
        assert(cur + a =~= cur);
    } else {
        assert((a + rest)[0] == a[0]);
        assert((a + rest).drop_first() =~= a.drop_first() + rest);
        lemma_lines_acc_skip(a.drop_first(), rest, cur.push(a[0]));
        assert(cur.push(a[0]) + a.drop_first() =~= cur + a);
    }
}

proof fn lemma_lines_acc_no_newline(rest: Seq<char>, cur: Seq<char>)
    requires
        no_newline(cur),
    ensures
        forall|j: int| 0 <= j < lines_acc(rest, cur).len() ==> no_newline(#[trigger] lines_acc(rest, cur)[j]),
        rest.len() > 0 && rest.last() != '\n' ==> lines_acc(rest, cur).len() > 0
            && lines_acc(rest, cur).last().len() > 0,
    decreases rest.len(),
{
    if rest.len() == 0 {
    } else if rest[0] == '\n' {
        let e: Seq<char> = Seq::empty();
        lemma_lines_acc_no_newline(rest.drop_first(), e);
        let tail = lines_acc(rest.drop_first(), e);
        let c = strip_cr(cur);
        assert(no_newline(c));
        assert forall|j: int| 0 <= j < lines_acc(rest, cur).len() implies no_newline(#[trigger] lines_acc(rest, cur)[j]) by {
            if j > 0 {
                assert(lines_acc(rest, cur)[j] == tail[j - 1]);
            }
        }
        if rest.last() != '\n' {
            assert(rest.drop_first().len() > 0);
            assert(rest.drop_first().last() == rest.last());
            assert(lines_acc(rest, cur).last() == tail.last());
        }
    } else {
        lemma_lines_acc_no_newline(rest.drop_first(), cur.push(rest[0]));
        if rest.last() != '\n' && rest.drop_first().len() > 0 {
            assert(rest.drop_first().last() == rest.last());
        }
    }
}

proof fn lemma_join_front(p: Seq<Seq<char>>, sep: char)
    requires
        p.len() >= 2,
    ensures
        crate::paths::join_with(p, sep) == p[0] + seq![sep] + crate::paths::join_with(p.drop_first(), sep),
    decreases p.len(),
{
    let q = p.drop_first();
    if p.len() == 2 {
        assert(p.drop_last().len() == 1);
        assert(q.len() == 1);
        assert(crate::paths::join_with(p.drop_last(), sep) == p[0]);
        assert(crate::paths::join_with(q, sep) == p[1]);
        assert(p[0].push(sep) + p[1] =~= p[0] + seq![sep] + p[1]);
    } else {
        lemma_join_front(p.drop_last(), sep);
        assert(p.drop_last().drop_first() =~= q.drop_last());
        assert(q.last() == p.last());
        assert(crate::paths::join_with(q, sep) == crate::paths::join_with(q.drop_last(), sep).push(sep) + q.last());
        assert(crate::paths::join_with(p.drop_last(), sep).push(sep) + p.last() =~= p[0] + seq![sep] + (
        crate::paths::join_with(q.drop_last(), sep).push(sep) + q.last()));
    }
}

proof fn lemma_read_back_terminated(ls: Seq<Seq<char>>)
    requires
        ls.len() >= 1,
        forall|j: int| 0 <= j < ls.len() ==> no_newline(#[trigger] ls[j]) && !ends_with_cr(ls[j]),
    ensures
        lines_acc(crate::paths::join_with(ls, '\n') + seq!['\n'], Seq::empty()) == ls,
    decreases ls.len(),
{
    let e: Seq<char> = Seq::empty();
    let nl: Seq<char> = seq!['\n'];
    assert(no_newline(ls[0]) && !ends_with_cr(ls[0]));
    if ls.len() == 1 {
        assert(crate::paths::join_with(ls, '\n') == ls[0]);
        lemma_lines_acc_skip(ls[0], nl, e);
        assert(e + ls[0] =~= ls[0]);
        assert(nl.drop_first() =~= e);
        assert(strip_cr(ls[0]) == ls[0]);
        assert(seq![ls[0]] + lines_acc(e, e) =~= ls);
    } else {
        let q = ls.drop_first();
        lemma_join_front(ls, '\n');
        let jq = crate::paths::join_with(q, '\n');
        assert(ls[0] + nl + jq + nl =~= ls[0] + (nl + (jq + nl)));
        lemma_lines_acc_skip(ls[0], nl + (jq + nl), e);
        assert(e + ls[0] =~= ls[0]);
        assert((nl + (jq + nl))[0] == '\n');
        assert((nl + (jq + nl)).drop_first() =~= jq + nl);
        assert forall|j: int| 0 <= j < q.len() implies no_newline(#[trigger] q[j]) && !ends_with_cr(q[j]) by {
            assert(q[j] == ls[j + 1]);
        }
        lemma_read_back_terminated(q);
        assert(strip_cr(ls[0]) == ls[0]);
        assert(seq![ls[0]] + q =~= ls);
    }
}

proof fn lemma_read_back_open(ls: Seq<Seq<char>>)
    requires
        ls.len() >= 1,
        ls.last().len() > 0,
        forall|j: int| 0 <= j < ls.len() ==> no_newline(#[trigger] ls[j]),
        forall|j: int| 0 <= j < ls.len() - 1 ==> !ends_with_cr(#[trigger] ls[j]),
    ensures
        lines_acc(crate::paths::join_with(ls, '\n'), Seq::empty()) == ls,
    decreases ls.len(),
{
    let e: Seq<char> = Seq::empty();
    let nl: Seq<char> = seq!['\n'];
    assert(no_newline(ls[0]));
    if ls.len() == 1 {
        assert(crate::paths::join_with(ls, '\n') == ls[0]);
        lemma_lines_acc_skip(ls[0], e, e);
        assert(ls[0] + e =~= ls[0]);
        assert(e + ls[0] =~= ls[0]);
        assert(seq![ls[0]] =~= ls);
    } else {
        let q = ls.drop_first();
        lemma_join_front(ls, '\n');
        let jq = crate::paths::join_with(q, '\n');
        assert(ls[0] + nl + jq =~= ls[0] + (nl + jq));
        lemma_lines_acc_skip(ls[0], nl + jq, e);
        assert(e + ls[0] =~= ls[0]);
        assert((nl + jq)[0] == '\n');
        assert((nl + jq).drop_first() =~= jq);
        assert(!ends_with_cr(ls[0]));
        assert forall|j: int| 0 <= j < q.len() implies no_newline(#[trigger] q[j]) by {
            assert(q[j] == ls[j + 1]);
        }
        assert forall|j: int| 0 <= j < q.len() - 1 implies !ends_with_cr(#[trigger] q[j]) by {
            assert(q[j] == ls[j + 1]);
        }
        lemma_read_back_open(q);
        assert(strip_cr(ls[0]) == ls[0]);
        assert(seq![ls[0]] + q =~= ls);
    }
}

proof fn lemma_join_last(ls: Seq<Seq<char>>, sep: char)
    requires
        ls.len() >= 1,
        ls.last().len() > 0,
    ensures
        crate::paths::join_with(ls, sep).len() > 0,
        crate::paths::join_with(ls, sep).last() == ls.last().last(),
{
    if ls.len() >= 2 {
        let a = crate::paths::join_with(ls.drop_last(), sep).push(sep);
        assert((a + ls.last()).last() == ls.last().last());
    }
}

/// Lines that hold no line feed and are `cr_safe` read back unchanged
/// after they are rejoined.
proof fn lemma_rejoin_read_back(ls: Seq<Seq<char>>, content: Seq<char>)
    requires
        ls.len() >= 1,
        forall|j: int| 0 <= j < ls.len() ==> no_newline(#[trigger] ls[j]),
        cr_safe(ls, content),
        !ends_with_newline(content) ==> ls.last().len() > 0,
    ensures
        lines_of(rejoin(ls, content)) == ls,
        ends_with_newline(rejoin(ls, content)) == ends_with_newline(content),
{
    if !ends_with_newline(content) {
        lemma_join_last(ls, '\n');
        assert(no_newline(ls.last()));
        assert(ls.last()[ls.last().len() - 1] != '\n');
    }
    if ends_with_newline(content) {
        assert forall|j: int| 0 <= j < ls.len() implies no_newline(#[trigger] ls[j]) && !ends_with_cr(ls[j]) by {}
        lemma_read_back_terminated(ls);
        assert(crate::paths::join_with(ls, '\n').push('\n') =~= crate::paths::join_with(ls, '\n') + seq!['\n']);
    } else {
        assert forall|j: int| 0 <= j < ls.len() - 1 implies !ends_with_cr(#[trigger] ls[j]) by {}
        lemma_read_back_open(ls);
    }
}

/// Editing a spec's status changes exactly the line that defines it, that
/// line reads back with the spec's ID, the new status and the old text,
/// and a final line feed is kept exactly when there was one.
pub proof fn law_status_update_read_back(content: Seq<char>, id: Seq<char>, s: SpecStatus)
    requires
        first_definition(lines_of(content), id, 0) != -1,
        cr_safe(lines_of(content), content),
    ensures
        ({
            let ls = lines_of(content);
            let k = first_definition(ls, id, 0);
            let line = render_spec_line(s, id, spec_line_text(ls[k]));
            let out = replaced_definition(content, id, line);
            &&& lines_of(out) == ls.update(k, line)
            &&& defines_spec(lines_of(out)[k], id)
            &&& marker_status(lines_of(out)[k][3]) == s
            &&& spec_line_text(lines_of(out)[k]) == spec_line_text(ls[k])
            &&& ends_with_newline(out) == ends_with_newline(content)
        }),
{
    let ls = lines_of(content);
    let e: Seq<char> = Seq::empty();
    lemma_first_definition(ls, id, 0);
    let k = first_definition(ls, id, 0);
    let old_line = ls[k];
    assert(defines_spec(old_line, id));
    let t = spec_line_text(old_line);
    let j = run_end(old_line, 8);
    lemma_run_end_bounds(old_line, 8);
    assert(t.len() > 0);
    law_spec_line_round_trip(s, id, t);
    let line = render_spec_line(s, id, t);
    let upd = ls.update(k, line);
    lemma_lines_acc_no_newline(content, e);
    assert(no_newline(t)) by {
        assert forall|i: int| 0 <= i < t.len() implies t[i] != '\n' by {
            assert(t[i] == old_line[j + 4 + i]);
        }
    }
    assert(no_newline(line)) by {
        reveal_strlit("- [");
        reveal_strlit("] **");
        reveal_strlit("**: ");
        assert(spec_id_shape(id));
        assert forall|i: int| 0 <= i < line.len() implies line[i] != '\n' by {
            if 8 <= i < 8 + id.len() {
                assert(line[i] == id[i - 8]);
            } else if i >= 12 + id.len() {
                assert(line[i] == t[i - 12 - id.len()]);
            }
        }
    }
    assert(line.last() == t.last());
    assert(t.last() == old_line.last());
    assert forall|q: int| 0 <= q < upd.len() implies no_newline(#[trigger] upd[q]) by {
        if q != k {
            assert(upd[q] == ls[q]);
        }
    }
    assert(cr_safe(upd, content)) by {
        assert forall|q: int| 0 <= q < upd.len() && ends_with_cr(#[trigger] upd[q]) implies q == upd.len() - 1
            && !ends_with_newline(content) by {
            if q == k {
                assert(ends_with_cr(ls[k]));
            } else {
                assert(upd[q] == ls[q]);
            }
        }
    }
    if !ends_with_newline(content) {
        assert(content.len() > 0) by {
            if content.len() == 0 {
                assert(lines_acc(content, e).len() == 0);
            }
        }
        assert(upd.last().len() > 0) by {
            if k != upd.len() - 1 {
                assert(upd.last() == ls.last());
            }
        }
    }
    lemma_rejoin_read_back(upd, content);
}

/// Editing a spec's text changes exactly the line that defines it, that
/// line reads back with the spec's ID, its old status and the new text,
/// and a final line feed is kept exactly when there was one.
pub proof fn law_text_update_read_back(content: Seq<char>, id: Seq<char>, t: Seq<char>)
    requires
        first_definition(lines_of(content), id, 0) != -1,
        t.len() > 0,
        no_newline(t),
        cr_safe(
            lines_of(content).update(
                first_definition(lines_of(content), id, 0),
                render_spec_line(
                    marker_status(lines_of(content)[first_definition(lines_of(content), id, 0)][3]),
                    id,
                    t,
                ),
            ),
            content,
        ),
    ensures
        ({
            let ls = lines_of(content);
            let k = first_definition(ls, id, 0);
            let st = marker_status(ls[k][3]);
            let line = render_spec_line(st, id, t);
            let out = replaced_definition(content, id, line);
            &&& lines_of(out) == ls.update(k, line)
            &&& defines_spec(lines_of(out)[k], id)
            &&& marker_status(lines_of(out)[k][3]) == st
            &&& spec_line_text(lines_of(out)[k]) == t
            &&& ends_with_newline(out) == ends_with_newline(content)
        }),
{
    let ls = lines_of(content);
    let e: Seq<char> = Seq::empty();
    lemma_first_definition(ls, id, 0);
    let k = first_definition(ls, id, 0);
    assert(defines_spec(ls[k], id));
    let st = marker_status(ls[k][3]);
    law_spec_line_round_trip(st, id, t);
    let line = render_spec_line(st, id, t);
    let upd = ls.update(k, line);
    lemma_lines_acc_no_newline(content, e);
    assert(no_newline(line)) by {
        reveal_strlit("- [");
        reveal_strlit("] **");
        reveal_strlit("**: ");
        assert(spec_id_shape(id));
        assert forall|i: int| 0 <= i < line.len() implies line[i] != '\n' by {
            if 8 <= i < 8 + id.len() {
                assert(line[i] == id[i - 8]);
            } else if i >= 12 + id.len() {
                assert(line[i] == t[i - 12 - id.len()]);
            }
        }
    }
    assert forall|q: int| 0 <= q < upd.len() implies no_newline(#[trigger] upd[q]) by {
        if q != k {
            assert(upd[q] == ls[q]);
        }
    }
    if !ends_with_newline(content) {
        assert(content.len() > 0) by {
            if content.len() == 0 {
                assert(lines_acc(content, e).len() == 0);
            }
        }
        assert(upd.last().len() > 0) by {
            if k != upd.len() - 1 {
                assert(upd.last() == ls.last());
            }
        }
    }
    lemma_rejoin_read_back(upd, content);
}

/// Every spec line is a rendered one: it is `render_spec_line` of its
/// status, its ID (a valid spec ID) and its non-empty text.
pub proof fn law_spec_line_is_rendered(v: Seq<char>)
    requires
        is_spec_line(v),
    ensures
        is_spec_id(spec_line_id(v)),
        spec_line_text(v).len() > 0,
        v == render_spec_line(marker_status(v[3]), spec_line_id(v), spec_line_text(v)),
{
    reveal_strlit("- [");
    reveal_strlit("] **");
    reveal_strlit("**: ");
    let j = run_end(v, 8);
    lemma_run_end_bounds(v, 8);
    assert(v.subrange(0, 3)[0] == v[0] && v.subrange(0, 3)[1] == v[1] && v.subrange(0, 3)[2] == v[2]);
    assert forall|i: int| 4 <= i < 8 implies v[i] == #[trigger] v.subrange(4, 8)[i - 4] by {}
    assert forall|i: int| j <= i < j + 4 implies v[i] == #[trigger] v.subrange(j, j + 4)[i - j] by {}
    let r = render_spec_line(marker_status(v[3]), spec_line_id(v), spec_line_text(v));
    assert(status_marker(marker_status(v[3])) == v[3]);
    assert(r =~= v);
}

/// The first line from `from` on that defines `id` is `k` when `k` does
/// and none before it does.
proof fn lemma_first_definition_is(lines: Seq<Seq<char>>, id: Seq<char>, from: int, k: int)
    requires
        0 <= from <= k < lines.len(),
        defines_spec(lines[k], id),
        forall|q: int| from <= q < k ==> !defines_spec(#[trigger] lines[q], id),
    ensures
        first_definition(lines, id, from) == k,
    decreases k - from,
{
    if from < k {
        lemma_first_definition_is(lines, id, from + 1, k);
    }
}

/// No line before the first definition defines `id`.
proof fn lemma_first_definition_before(lines: Seq<Seq<char>>, id: Seq<char>, from: int)
    requires
        0 <= from <= lines.len(),
        first_definition(lines, id, from) != -1,
    ensures
        forall|q: int| from <= q < first_definition(lines, id, from) ==> !defines_spec(#[trigger] lines[q], id),
    decreases lines.len() - from,
{
    if from < lines.len() && !defines_spec(lines[from], id) {
        lemma_first_definition_before(lines, id, from + 1);
    }
}

/// Setting a spec's status twice to the same value gives what setting it
/// once gave: the second edit finds the same line and leaves the file as
/// it is.
pub proof fn law_status_update_idempotent(content: Seq<char>, id: Seq<char>, s: SpecStatus)
    requires
        first_definition(lines_of(content), id, 0) != -1,
        cr_safe(lines_of(content), content),
    ensures
        ({
            let ls = lines_of(content);
            let k = first_definition(ls, id, 0);
            let out = replaced_definition(content, id, render_spec_line(s, id, spec_line_text(ls[k])));
            let ls2 = lines_of(out);
            &&& first_definition(ls2, id, 0) == k
            &&& replaced_definition(out, id, render_spec_line(s, id, spec_line_text(ls2[k]))) == out
        }),
{
    let ls = lines_of(content);
    lemma_first_definition(ls, id, 0);
    let k = first_definition(ls, id, 0);
    let line = render_spec_line(s, id, spec_line_text(ls[k]));
    law_status_update_read_back(content, id, s);
    let out = replaced_definition(content, id, line);
    let ls2 = lines_of(out);
    assert(ls2 == ls.update(k, line));
    lemma_first_definition_before(ls, id, 0);
    assert forall|q: int| 0 <= q < k implies !defines_spec(#[trigger] ls2[q], id) by {
        assert(ls2[q] == ls[q]);
    }
    lemma_first_definition_is(ls2, id, 0, k);
    assert(ls2.update(k, line) =~= ls2);
    assert(out == rejoin(ls.update(k, line), content));
}

/// Setting a spec back to the status it had undoes the edit, for a file
/// whose lines are already in the form the edit writes: the spec's line
/// is as `render_spec_line` writes it, and the file is its lines joined
/// by line feeds.
pub proof fn law_status_update_undo(content: Seq<char>, id: Seq<char>, s: SpecStatus)
    requires
        first_definition(lines_of(content), id, 0) != -1,
        cr_safe(lines_of(content), content),
        rejoin(lines_of(content), content) == content,
        lines_of(content)[first_definition(lines_of(content), id, 0)] == render_spec_line(
            marker_status(lines_of(content)[first_definition(lines_of(content), id, 0)][3]),
            id,
            spec_line_text(lines_of(content)[first_definition(lines_of(content), id, 0)]),
        ),
    ensures
        ({
            let ls = lines_of(content);
            let k = first_definition(ls, id, 0);
            let old_status = marker_status(ls[k][3]);
            let out = replaced_definition(content, id, render_spec_line(s, id, spec_line_text(ls[k])));
            let ls2 = lines_of(out);
            replaced_definition(out, id, render_spec_line(old_status, id, spec_line_text(ls2[first_definition(ls2, id, 0)])))
                == content
        }),
{
    let ls = lines_of(content);
    lemma_first_definition(ls, id, 0);
    let k = first_definition(ls, id, 0);
    let t = spec_line_text(ls[k]);
    let line = render_spec_line(s, id, t);
    law_status_update_read_back(content, id, s);
    let out = replaced_definition(content, id, line);
    let ls2 = lines_of(out);
    assert(ls2 == ls.update(k, line));
    lemma_first_definition_before(ls, id, 0);
    assert forall|q: int| 0 <= q < k implies !defines_spec(#[trigger] ls2[q], id) by {
        assert(ls2[q] == ls[q]);
    }
    lemma_first_definition_is(ls2, id, 0, k);
    assert(ls2.update(k, ls[k]) =~= ls);
}

/// Setting a spec's text twice to the same value gives what setting it
/// once gave.
pub proof fn law_text_update_idempotent(content: Seq<char>, id: Seq<char>, t: Seq<char>)
    requires
        first_definition(lines_of(content), id, 0) != -1,
        t.len() > 0,
        no_newline(t),
        cr_safe(
            lines_of(content).update(
                first_definition(lines_of(content), id, 0),
                render_spec_line(
                    marker_status(lines_of(content)[first_definition(lines_of(content), id, 0)][3]),
                    id,
                    t,
                ),
            ),
            content,
        ),
    ensures
        ({
            let ls = lines_of(content);
            let k = first_definition(ls, id, 0);
            let out = replaced_definition(content, id, render_spec_line(marker_status(ls[k][3]), id, t));
            let ls2 = lines_of(out);
            &&& first_definition(ls2, id, 0) == k
            &&& replaced_definition(out, id, render_spec_line(marker_status(ls2[k][3]), id, t)) == out
        }),
{
    let ls = lines_of(content);
    lemma_first_definition(ls, id, 0);
    let k = first_definition(ls, id, 0);
    let line = render_spec_line(marker_status(ls[k][3]), id, t);
    law_text_update_read_back(content, id, t);
    let out = replaced_definition(content, id, line);
    let ls2 = lines_of(out);
    assert(ls2 == ls.update(k, line));
    lemma_first_definition_before(ls, id, 0);
    assert forall|q: int| 0 <= q < k implies !defines_spec(#[trigger] ls2[q], id) by {
        assert(ls2[q] == ls[q]);
    }
    lemma_first_definition_is(ls2, id, 0, k);
    assert(ls2.update(k, line) =~= ls2);
}

/// Setting a spec's text back to what it was undoes the edit, for a file
/// whose lines are already in the form the edit writes.
pub proof fn law_text_update_undo(content: Seq<char>, id: Seq<char>, t: Seq<char>)
    requires
        first_definition(lines_of(content), id, 0) != -1,
        t.len() > 0,
        no_newline(t),
        cr_safe(
            lines_of(content).update(
                first_definition(lines_of(content), id, 0),
                render_spec_line(
                    marker_status(lines_of(content)[first_definition(lines_of(content), id, 0)][3]),
                    id,
                    t,
                ),
            ),
            content,
        ),
        rejoin(lines_of(content), content) == content,
        lines_of(content)[first_definition(lines_of(content), id, 0)] == render_spec_line(
            marker_status(lines_of(content)[first_definition(lines_of(content), id, 0)][3]),
            id,
            spec_line_text(lines_of(content)[first_definition(lines_of(content), id, 0)]),
        ),
    ensures
        ({
            let ls = lines_of(content);
            let k = first_definition(ls, id, 0);
            let old_text = spec_line_text(ls[k]);
            let out = replaced_definition(content, id, render_spec_line(marker_status(ls[k][3]), id, t));
            let ls2 = lines_of(out);
            let k2 = first_definition(ls2, id, 0);
            replaced_definition(out, id, render_spec_line(marker_status(ls2[k2][3]), id, old_text)) == content
        }),
{
    let ls = lines_of(content);
    lemma_first_definition(ls, id, 0);
    let k = first_definition(ls, id, 0);
    let line = render_spec_line(marker_status(ls[k][3]), id, t);
    law_text_update_read_back(content, id, t);
    let out = replaced_definition(content, id, line);
    let ls2 = lines_of(out);
    assert(ls2 == ls.update(k, line));
    lemma_first_definition_before(ls, id, 0);
    assert forall|q: int| 0 <= q < k implies !defines_spec(#[trigger] ls2[q], id) by {
        assert(ls2[q] == ls[q]);
    }
    lemma_first_definition_is(ls2, id, 0, k);
    assert(ls2.update(k, ls[k]) =~= ls);
}

/// Trimming the end keeps everything up to a non-white-space character.
proof fn lemma_trim_end_keeps(v: Seq<char>, i: int)
    requires
        0 <= i < v.len(),
        !is_ws(v[i]),
    ensures
        trim_end(v).len() > i,
        trim_end(v).len() <= v.len(),
        trim_end(v) == v.take(trim_end(v).len() as int),
    decreases v.len(),
{
    if v.len() > 0 && is_ws(v.last()) {
        assert(i < v.len() - 1);
        let w = v.drop_last();
        assert(w[i] == v[i]);
        lemma_trim_end_keeps(w, i);
        assert(trim_end(v) == trim_end(w));
        let n = trim_end(w).len() as int;
        assert(w.take(n) =~= v.take(n));
    } else {
        assert(v.take(v.len() as int) =~= v);
    }
}

/// A spec-shaped line is neither a frontmatter fence nor a `prefix:` line.
proof fn lemma_spec_line_not_frontmatter(v: Seq<char>)
    requires
        spec_line_shaped(v),
    ensures
        trim(v) != "---"@,
        !(v.len() >= 7 && v.subrange(0, 7) == "prefix:"@),
{
    reveal_strlit("- [");
    reveal_strlit("---");
    reveal_strlit("prefix:");
    assert(v.subrange(0, 3)[0] == v[0]);
    assert(v.subrange(0, 3)[1] == v[1]);
    assert(v.subrange(0, 3)[2] == v[2]);
    assert(v[0] == '-' && v[1] == ' ' && v[2] == '[');
    assert(trim_start(v) == v);
    lemma_trim_end_keeps(v, 2);
    let t = trim_end(v);
    assert(v.take(t.len() as int)[1] == v[1]);
    assert(t[1] == v[1]);
    if v.len() >= 7 && v.subrange(0, 7) == "prefix:"@ {
        assert(v.subrange(0, 7)[0] == v[0]);
    }
}

/// Scanner states that agree on everything but the specs found.
pub open spec fn same_but_specs(a: SpecScan, b: SpecScan) -> bool {
    &&& a.artifacts == b.artifacts
    &&& a.lld == b.lld
    &&& a.in_artifacts == b.in_artifacts
    &&& a.prefix == b.prefix
    &&& a.first == b.first
    &&& a.in_frontmatter == b.in_frontmatter
    &&& a.failed == b.failed
}

/// `e` with status `s` and text `t` when it was found on line `line`,
/// else as it is.
pub open spec fn rewritten_at(
    e: (SpecStatus, Seq<char>, Seq<char>, int),
    line: int,
    s: SpecStatus,
    t: Seq<char>,
) -> (SpecStatus, Seq<char>, Seq<char>, int) {
    if e.3 == line {
        (s, e.1, t, e.3)
    } else {
        e
    }
}

/// `b` holds the specs of `a`, the one found on `line` (if any) with
/// status `s` and text `t`.
pub open spec fn specs_rewritten(
    a: Seq<(SpecStatus, Seq<char>, Seq<char>, int)>,
    b: Seq<(SpecStatus, Seq<char>, Seq<char>, int)>,
    line: int,
    s: SpecStatus,
    t: Seq<char>,
) -> bool {
    &&& b.len() == a.len()
    &&& forall|q: int| 0 <= q < a.len() ==> b[q] == rewritten_at(#[trigger] a[q], line, s, t)
}

/// The specs found in the first `n` lines carry line numbers up to `n`.
proof fn lemma_scan_lines_bounded(ls: Seq<Seq<char>>, n: int)
    requires
        0 <= n <= ls.len(),
    ensures
        forall|q: int| 0 <= q < scan_lines(ls, n).specs.len() ==> (#[trigger] scan_lines(ls, n).specs[q]).3 <= n,
    decreases n,
{
    if n > 0 {
        lemma_scan_lines_bounded(ls, n - 1);
    }
}

/// Scanning with line `k` replaced by another spec line of the same ID
/// changes only the spec found on that line.
proof fn lemma_scan_update(ls: Seq<Seq<char>>, k: int, line: Seq<char>, s: SpecStatus, t: Seq<char>, n: int)
    requires
        0 <= k < ls.len(),
        0 <= n <= ls.len(),
        is_spec_line(ls[k]),
        is_spec_line(line),
        spec_line_id(line) == spec_line_id(ls[k]),
        spec_line_text(line) == t,
        marker_status(line[3]) == s,
    ensures
        same_but_specs(scan_lines(ls, n), scan_lines(ls.update(k, line), n)),
        specs_rewritten(scan_lines(ls, n).specs, scan_lines(ls.update(k, line), n).specs, k + 1, s, t),
    decreases n,
{
    let ls2 = ls.update(k, line);
    if n > 0 {
        lemma_scan_update(ls, k, line, s, t, n - 1);
        lemma_scan_lines_bounded(ls, n - 1);
        let a = scan_lines(ls, n - 1);
        let b = scan_lines(ls2, n - 1);
        if n - 1 == k {
            lemma_spec_line_not_frontmatter(ls[k]);
            lemma_spec_line_not_frontmatter(line);
            assert(ls2[k] == line);
            let a2 = scan_lines(ls, n);
            let b2 = scan_lines(ls2, n);
            assert forall|q: int| 0 <= q < a2.specs.len() implies b2.specs[q] == rewritten_at(#[trigger] a2.specs[q], k + 1, s, t) by {
                if q < a.specs.len() {
                    assert(a2.specs[q] == a.specs[q]);
                    assert(b2.specs[q] == b.specs[q]);
                }
            }
        } else {
            assert(ls2[n - 1] == ls[n - 1]);
            let a2 = scan_lines(ls, n);
            let b2 = scan_lines(ls2, n);
            assert forall|q: int| 0 <= q < a2.specs.len() implies b2.specs[q] == rewritten_at(#[trigger] a2.specs[q], k + 1, s, t) by {
                if q < a.specs.len() {
                    assert(a2.specs[q] == a.specs[q]);
                    assert(b2.specs[q] == b.specs[q]);
                } else {
                    assert(a2.specs[q].3 == n);
                }
            }
        }
    }
}

/// Reading a spec file back after a status edit finds the same specs,
/// artifacts, LLD and prefix (or the same error) as before, except that
/// the spec on the edited line has the new status.
pub proof fn law_status_update_parses_back(content: Seq<char>, id: Seq<char>, s: SpecStatus)
    requires
        first_definition(lines_of(content), id, 0) != -1,
        cr_safe(lines_of(content), content),
    ensures
        ({
            let ls = lines_of(content);
            let k = first_definition(ls, id, 0);
            let out = replaced_definition(content, id, render_spec_line(s, id, spec_line_text(ls[k])));
            &&& same_but_specs(scan_spec_file(content), scan_spec_file(out))
            &&& specs_rewritten(
                scan_spec_file(content).specs,
                scan_spec_file(out).specs,
                k + 1,
                s,
                spec_line_text(ls[k]),
            )
        }),
{
    let ls = lines_of(content);
    lemma_first_definition(ls, id, 0);
    let k = first_definition(ls, id, 0);
    let t = spec_line_text(ls[k]);
    let line = render_spec_line(s, id, t);
    lemma_run_end_bounds(ls[k], 8);
    law_status_update_read_back(content, id, s);
    law_spec_line_round_trip(s, id, t);
    lemma_scan_update(ls, k, line, s, t, ls.len() as int);
}

/// Reading a spec file back after a text edit finds the same specs,
/// artifacts, LLD and prefix (or the same error) as before, except that
/// the spec on the edited line has the new text.
pub proof fn law_text_update_parses_back(content: Seq<char>, id: Seq<char>, t: Seq<char>)
    requires
        first_definition(lines_of(content), id, 0) != -1,
        t.len() > 0,
        no_newline(t),
        cr_safe(
            lines_of(content).update(
                first_definition(lines_of(content), id, 0),
                render_spec_line(
                    marker_status(lines_of(content)[first_definition(lines_of(content), id, 0)][3]),
                    id,
                    t,
                ),
            ),
            content,
        ),
    ensures
        ({
            let ls = lines_of(content);
            let k = first_definition(ls, id, 0);
            let st = marker_status(ls[k][3]);
            let out = replaced_definition(content, id, render_spec_line(st, id, t));
            &&& same_but_specs(scan_spec_file(content), scan_spec_file(out))
            &&& specs_rewritten(scan_spec_file(content).specs, scan_spec_file(out).specs, k + 1, st, t)
        }),
{
    let ls = lines_of(content);
    lemma_first_definition(ls, id, 0);
    let k = first_definition(ls, id, 0);
    let st = marker_status(ls[k][3]);
    let line = render_spec_line(st, id, t);
    law_text_update_read_back(content, id, t);
    law_spec_line_round_trip(st, id, t);
    lemma_scan_update(ls, k, line, st, t, ls.len() as int);
}

/// Join `lines` by `\n` and restore the trailing newline of `content`.
fn rejoin_exec(lines: &Vec<String>, content: &str) -> (r: String)
    ensures
        r@ == rejoin(lines@.map_values(|s: String| s@), content@),
{
    let mut body = crate::paths::join_strings(lines, 0, '\n');
    assert(lines@.skip(0) =~= lines@);
    let v = chars_of(content);
    if v.len() > 0 && v[v.len() - 1] == '\n' {
        crate::text::push_char(&mut body, '\n');
    }
    body
}

/// The marker character for a status.
pub fn marker_of(s: SpecStatus) -> (c: char)
    ensures
        c == status_marker(s),
{
    match s {
        SpecStatus::Implemented => 'x',
        SpecStatus::Open => ' ',
        SpecStatus::Deferred => 'D',
    }
}

/// `- [M] **ID**: TEXT`.
pub fn render_line(s: SpecStatus, id: &str, text: &str) -> (r: String)
    ensures
        r@ == render_spec_line(s, id@, text@),
{
    let mut out = String::from_str("- [");
    crate::text::push_char(&mut out, marker_of(s));
    out.append("] **");
    out.append(id);
    out.append("**: ");
    out.append(text);
    out
}

/// Replace the first line defining `target` by `make(line)` and rejoin.
fn replace_first_definition(content: &str, target: &SpecId, new_status: Option<SpecStatus>, new_text: Option<&str>) -> (r: Option<String>)
    ensures
        ({
            let ls = lines_of(content@);
            let k = first_definition(ls, target@, 0);
            if k == -1 {
                r is None
            } else {
                let s = match new_status {
                    Some(s) => s,
                    None => marker_status(ls[k][3]),
                };
                let t = match new_text {
                    Some(t) => t@,
                    None => spec_line_text(ls[k]),
                };
                r matches Some(out) && out@ == replaced_definition(content@, target@, render_spec_line(s, target@, t))
            }
        }),
{
    let mut lines = content_lines(content);
    let ghost ls = lines_of(content@);
    proof {
        assert(lines@.map_values(|s: String| s@) =~= ls);
        lemma_first_definition(ls, target@, 0);
    }
    let mut i: usize = 0;
    while i < lines.len()
        invariant
            ls == lines_of(content@),
            lines@.len() == ls.len(),
            forall|j: int| 0 <= j < lines@.len() ==> (#[trigger] lines@[j])@ == ls[j],
            0 <= i <= lines@.len(),
            first_definition(ls, target@, 0) == first_definition(ls, target@, i as int),
        decreases lines@.len() - i,
    {
        match find_spec_line_match(lines[i].as_str()) {
            Some(m) => {
                if m.id.same(target) {
                    assert(defines_spec(ls[i as int], target@));
                    let s = match new_status {
                        Some(s) => s,
                        None => m.status,
                    };
                    let line = match new_text {
                        Some(t) => render_line(s, target.as_str(), t),
                        None => render_line(s, target.as_str(), m.text.as_str()),
                    };
                    let ghost old_lines = lines@;
                    lines.set(i, line);
                    let out = rejoin_exec(&lines, content);
                    proof {
                        assert(first_definition(ls, target@, i as int) == i);
                        let tt = match new_text {
                            Some(t) => t@,
                            None => spec_line_text(ls[i as int]),
                        };
                        assert(lines@.map_values(|s: String| s@) =~= ls.update(
                            i as int,
                            render_spec_line(s, target@, tt),
                        ));
                    }
                    return Some(out);
                } else {
                    assert(!defines_spec(ls[i as int], target@));
                }
            },
            None => {},
        }
        i = i + 1;
    }
    None
}

/// Replace the status marker on the line that defines `spec_id`.
///
/// Returns the updated content, or `None` when no line defines `spec_id`.
/// Every other line is kept; lines are rejoined with `\n`, and a final
/// newline is kept when the input had one.
pub fn update_spec_status_in_text(content: &str, spec_id: &SpecId, new_status: SpecStatus) -> (r: Option<String>)
    ensures
        ({
            let ls = lines_of(content@);
            let k = first_definition(ls, spec_id@, 0);
            if k == -1 {
                r is None
            } else {
                r matches Some(out) && out@ == replaced_definition(
                    content@,
                    spec_id@,
                    render_spec_line(new_status, spec_id@, spec_line_text(ls[k])),
                )
            }
        }),
{
    replace_first_definition(content, spec_id, Some(new_status), None)
}

/// Replace the text on the line that defines `spec_id`, keeping its status.
///
/// Returns the updated content, or `None` when no line defines `spec_id`.
pub fn update_spec_text_in_text(content: &str, spec_id: &SpecId, new_text: &str) -> (r: Option<String>)
    ensures
        ({
            let ls = lines_of(content@);
            let k = first_definition(ls, spec_id@, 0);
            if k == -1 {
                r is None
            } else {
                r matches Some(out) && out@ == replaced_definition(
                    content@,
                    spec_id@,
                    render_spec_line(marker_status(ls[k][3]), spec_id@, new_text@),
                )
            }
        }),
{
    replace_first_definition(content, spec_id, None, Some(new_text))
}

/// `**LLD**: PATH` header: after `**LLD**:` at least one white-space
/// character, then the captured path with trailing white space dropped
/// (when the rest is all white space, its last character is captured).
pub open spec fn lld_capture(v: Seq<char>) -> Option<Seq<char>> {
    if v.len() >= 8 && v.subrange(0, 8) == "**LLD**:"@ && v.len() >= 9 && is_ws(v[8]) {
        let after = v.skip(8);
        let body = trim_end(trim_start(after));
        if body.len() > 0 {
            Some(body)
        } else if after.len() >= 2 {
            Some(seq![after.last()])
        } else {
            None
        }
    } else {
        None
    }
}

/// `**Implementing artifacts**:` followed only by white space.
pub open spec fn is_impl_header(v: Seq<char>) -> bool {
    v.len() >= 27 && v.subrange(0, 27) == "**Implementing artifacts**:"@ && trim_start(v.skip(27)).len() == 0
}

/// `- ITEM` bullet: the item with trailing white space dropped (its first
/// character when the item is all white space).
pub open spec fn bullet_capture(v: Seq<char>) -> Option<Seq<char>> {
    if v.len() >= 3 && v.subrange(0, 2) == "- "@ {
        let item = v.skip(2);
        if trim_end(item).len() > 0 {
            Some(trim_end(item))
        } else {
            Some(item.take(1))
        }
    } else {
        None
    }
}

/// Scanner state while reading a spec file line by line.
pub struct SpecScan {
    /// `(status, id, text, 1-based line)` of each spec line so far.
    pub specs: Seq<(SpecStatus, Seq<char>, Seq<char>, int)>,
    pub artifacts: Seq<Seq<char>>,
    pub lld: Option<Seq<char>>,
    pub in_artifacts: bool,
    pub prefix: Option<Seq<char>>,
    pub first: bool,
    pub in_frontmatter: bool,
    /// 1-based line of the first spec-shaped line whose ID has no digit.
    pub failed: Option<int>,
}

/// Scanner state before the first line.
pub open spec fn scan_init() -> SpecScan {
    SpecScan {
        specs: Seq::empty(),
        artifacts: Seq::empty(),
        lld: None,
        in_artifacts: false,
        prefix: None,
        first: true,
        in_frontmatter: false,
        failed: None,
    }
}

/// Scanner state after reading line `idx` (0-based) with text `v`.
pub open spec fn scan_step(st: SpecScan, v: Seq<char>, idx: int) -> SpecScan {
    if st.failed is Some {
        st
    } else if st.first && trim(v) == "---"@ {
        SpecScan { first: false, in_frontmatter: true, ..st }
    } else if st.in_frontmatter {
        if trim(v) == "---"@ {
            SpecScan { first: false, in_frontmatter: false, ..st }
        } else if v.len() >= 7 && v.subrange(0, 7) == "prefix:"@ {
            SpecScan { first: false, prefix: Some(trim(v.skip(7))), ..st }
        } else {
            SpecScan { first: false, ..st }
        }
    } else if spec_line_shaped(v) {
        if !has_digit(spec_line_id(v)) {
            SpecScan { first: false, in_artifacts: false, failed: Some(idx + 1), ..st }
        } else {
            SpecScan {
                first: false,
                in_artifacts: false,
                specs: st.specs.push((marker_status(v[3]), spec_line_id(v), spec_line_text(v), idx + 1)),
                ..st
            }
        }
    } else if lld_capture(v) is Some {
        SpecScan { first: false, lld: lld_capture(v), in_artifacts: false, ..st }
    } else if is_impl_header(v) {
        SpecScan { first: false, in_artifacts: true, ..st }
    } else if st.in_artifacts && bullet_capture(v) is Some {
        SpecScan { first: false, artifacts: st.artifacts.push(bullet_capture(v).unwrap()), ..st }
    } else if st.in_artifacts && trim(v).len() > 0 {
        SpecScan { first: false, in_artifacts: false, ..st }
    } else {
        SpecScan { first: false, ..st }
    }
}

/// Scanner state after the first `n` lines.
pub open spec fn scan_lines(lines: Seq<Seq<char>>, n: int) -> SpecScan
    decreases n,
{
    if n <= 0 {
        scan_init()
    } else {
        scan_step(scan_lines(lines, n - 1), lines[n - 1], n - 1)
    }
}

/// Scanner state after the whole of `content`.
pub open spec fn scan_spec_file(content: Seq<char>) -> SpecScan {
    scan_lines(lines_of(content), lines_of(content).len() as int)
}

/// Each spec the scan of the first `n` lines found is the spec line at
/// its 1-based line number, read as that line's status, ID and text;
/// the line numbers strictly ascend; a failure names a spec-shaped line
/// whose ID has no digit.
pub open spec fn scan_sound(ls: Seq<Seq<char>>, n: int, st: SpecScan) -> bool {
    &&& forall|k: int|
        0 <= k < st.specs.len() ==> {
            let e = #[trigger] st.specs[k];
            &&& 1 <= e.3 <= n
            &&& is_spec_line(ls[e.3 - 1])
            &&& e.0 == marker_status(ls[e.3 - 1][3])
            &&& e.1 == spec_line_id(ls[e.3 - 1])
            &&& e.2 == spec_line_text(ls[e.3 - 1])
        }
    &&& forall|k: int, m: int| 0 <= k < m < st.specs.len() ==> (#[trigger] st.specs[k]).3 < (#[trigger] st.specs[m]).3
    &&& st.failed matches Some(l) ==> 1 <= l <= n && spec_line_shaped(ls[l - 1]) && !has_digit(
        spec_line_id(ls[l - 1]),
    )
}

proof fn lemma_scan_sound(ls: Seq<Seq<char>>, n: int)
    requires
        0 <= n <= ls.len(),
    ensures
        scan_sound(ls, n, scan_lines(ls, n)),
    decreases n,
{
    if n > 0 {
        lemma_scan_sound(ls, n - 1);
        let a = scan_lines(ls, n - 1);
        let b = scan_lines(ls, n);
        assert forall|k: int| 0 <= k < b.specs.len() implies {
            let e = #[trigger] b.specs[k];
            &&& 1 <= e.3 <= n
            &&& is_spec_line(ls[e.3 - 1])
            &&& e.0 == marker_status(ls[e.3 - 1][3])
            &&& e.1 == spec_line_id(ls[e.3 - 1])
            &&& e.2 == spec_line_text(ls[e.3 - 1])
        } by {
            if k < a.specs.len() {
                assert(b.specs[k] == a.specs[k]);
            }
        }
        assert forall|k: int, m: int| 0 <= k < m < b.specs.len() implies (#[trigger] b.specs[k]).3 < (
        #[trigger] b.specs[m]).3 by {
            if m < a.specs.len() {
                assert(b.specs[k] == a.specs[k] && b.specs[m] == a.specs[m]);
            } else {
                assert(b.specs[k] == a.specs[k]);
                assert(a.specs[k].3 <= n - 1);
            }
        }
    }
}

/// What a spec file reads as: each spec found is the spec line at its
/// 1-based line number, with that line's status, ID and text, in strictly
/// ascending line order; a refused file names a spec-shaped line whose
/// ID has no digit.
pub proof fn law_spec_file_scan_sound(content: Seq<char>)
    ensures
        scan_sound(lines_of(content), lines_of(content).len() as int, scan_spec_file(content)),
{
    lemma_scan_sound(lines_of(content), lines_of(content).len() as int);
}

/// Line `j` is part of the leading `---` frontmatter: the opening fence,
/// or a line read while the frontmatter is open.
pub open spec fn frontmatter_line(ls: Seq<Seq<char>>, j: int) -> bool {
    let st = scan_lines(ls, j);
    st.in_frontmatter || (st.first && trim(ls[j]) == "---"@)
}

proof fn lemma_scan_specs_grow(ls: Seq<Seq<char>>, j: int, m: int)
    requires
        0 <= j <= m,
    ensures
        scan_lines(ls, j).specs.len() <= scan_lines(ls, m).specs.len(),
        forall|k: int| 0 <= k < scan_lines(ls, j).specs.len() ==> scan_lines(ls, m).specs[k] == #[trigger] scan_lines(
            ls,
            j,
        ).specs[k],
    decreases m - j,
{
    if m > j {
        lemma_scan_specs_grow(ls, j, m - 1);
    }
}

proof fn lemma_scan_unfailed_before(ls: Seq<Seq<char>>, j: int, m: int)
    requires
        0 <= j <= m,
        scan_lines(ls, m).failed is None,
    ensures
        scan_lines(ls, j).failed is None,
{
    if scan_lines(ls, j).failed is Some {
        lemma_scan_failed_sticks(ls, j, m);
    }
}

proof fn lemma_scan_artifacts_grow(ls: Seq<Seq<char>>, j: int, m: int)
    requires
        0 <= j <= m,
    ensures
        scan_lines(ls, j).artifacts.len() <= scan_lines(ls, m).artifacts.len(),
        forall|k: int|
            0 <= k < scan_lines(ls, j).artifacts.len() ==> scan_lines(ls, m).artifacts[k]
                == #[trigger] scan_lines(ls, j).artifacts[k],
    decreases m - j,
{
    if m > j {
        lemma_scan_artifacts_grow(ls, j, m - 1);
    }
}

/// A line whose first character is not white space does not trim to
/// nothing.
proof fn lemma_nonblank_start(v: Seq<char>)
    requires
        v.len() > 0,
        !is_ws(v[0]),
    ensures
        trim(v).len() > 0,
{
    assert(trim_start(v) == v);
    lemma_trim_empty(v);
}

proof fn lemma_artifact_lines(ls: Seq<Seq<char>>, h: int, m: int, n: int)
    requires
        0 <= h < m <= n <= ls.len(),
        scan_lines(ls, h).failed is None,
        !frontmatter_line(ls, h),
        ls[h].len() >= 27 && ls[h].take(27) == "**Implementing artifacts**:"@ && trim_start(ls[h].skip(27)).len() == 0,
        forall|q: int| h < q < m ==> trim(#[trigger] ls[q]).len() == 0,
        forall|q: int|
            m <= q < n ==> (#[trigger] ls[q]).len() >= 3 && ls[q][0] == '-' && ls[q][1] == ' ' && ls[q][2] != '['
                && trim_end(ls[q].skip(2)).len() > 0,
    ensures
        scan_lines(ls, n).failed is None,
        !scan_lines(ls, n).first,
        !scan_lines(ls, n).in_frontmatter,
        scan_lines(ls, n).in_artifacts,
        scan_lines(ls, n).artifacts.len() == scan_lines(ls, h).artifacts.len() + (n - m),
        forall|k: int| 0 <= k < scan_lines(ls, h).artifacts.len() ==> scan_lines(ls, n).artifacts[k]
            == #[trigger] scan_lines(ls, h).artifacts[k],
        forall|q: int|
            m <= q < n ==> scan_lines(ls, n).artifacts[scan_lines(ls, h).artifacts.len() + q - m] == trim_end(
                (#[trigger] ls[q]).skip(2),
            ),
    decreases n,
{
    reveal_strlit("**Implementing artifacts**:");
    reveal_strlit("- [");
    reveal_strlit("**LLD**:");
    reveal_strlit("- ");
    if n == h + 1 {
        let v = ls[h];
        let st = scan_lines(ls, h);
        assert(v[0] == v.take(27)[0]);
        assert(v[2] == v.take(27)[2]);
        assert(v[0] == '*');
        assert(!spec_line_shaped(v)) by {
            if v.len() >= 8 && v.subrange(0, 3) == "- ["@ {
                assert(v.subrange(0, 3)[0] == v[0]);
            }
        }
        assert(lld_capture(v) is None) by {
            if v.len() >= 8 && v.subrange(0, 8) == "**LLD**:"@ {
                assert(v.subrange(0, 8)[2] == v[2]);
            }
        }
        assert(v.subrange(0, 27) == v.take(27));
        assert(is_impl_header(v));
    } else if n > h + 1 {
        if n - 1 >= m {
            lemma_artifact_lines(ls, h, m, n - 1);
        } else {
            lemma_artifact_lines(ls, h, n - 1, n - 1);
        }
        let v = ls[n - 1];
        let st = scan_lines(ls, n - 1);
        if n - 1 < m {
            // a blank line leaves the list open
            assert(trim(v).len() == 0);
            if v.len() > 0 && !is_ws(v[0]) {
                lemma_nonblank_start(v);
            }
            assert(!spec_line_shaped(v)) by {
                if v.len() >= 8 && v.subrange(0, 3) == "- ["@ {
                    assert(v.subrange(0, 3)[0] == v[0]);
                }
            }
            assert(lld_capture(v) is None) by {
                if v.len() >= 8 && v.subrange(0, 8) == "**LLD**:"@ {
                    assert(v.subrange(0, 8)[0] == v[0]);
                }
            }
            assert(!is_impl_header(v)) by {
                if v.len() >= 27 && v.subrange(0, 27) == "**Implementing artifacts**:"@ {
                    assert(v.subrange(0, 27)[0] == v[0]);
                }
            }
            assert(bullet_capture(v) is None) by {
                if v.len() >= 3 && v.subrange(0, 2) == "- "@ {
                    assert(v.subrange(0, 2)[0] == v[0]);
                }
            }
        } else {
            // a bullet adds its item
            assert(!spec_line_shaped(v)) by {
                if v.len() >= 8 && v.subrange(0, 3) == "- ["@ {
                    assert(v.subrange(0, 3)[2] == v[2]);
                }
            }
            assert(lld_capture(v) is None) by {
                if v.len() >= 8 && v.subrange(0, 8) == "**LLD**:"@ {
                    assert(v.subrange(0, 8)[0] == v[0]);
                }
            }
            assert(!is_impl_header(v)) by {
                if v.len() >= 27 && v.subrange(0, 27) == "**Implementing artifacts**:"@ {
                    assert(v.subrange(0, 27)[0] == v[0]);
                }
            }
            assert(v.subrange(0, 2) =~= "- "@);
            assert(bullet_capture(v) == Some(trim_end(v.skip(2))));
        }
    }
}

/// Inside an `**Implementing artifacts**:` list, blank lines keep the
/// list open: after the header line, any number of white-space-only
/// lines, then `- ITEM` bullets (not `- [`), each item with trailing
/// white space dropped is an implementing artifact, in order.
pub proof fn law_artifacts_after_blank_lines(content: Seq<char>, h: int, m: int, n: int)
    requires
        0 <= h < m <= n <= lines_of(content).len(),
        scan_lines(lines_of(content), h).failed is None,
        !frontmatter_line(lines_of(content), h),
        lines_of(content)[h].len() >= 27 && lines_of(content)[h].take(27) == "**Implementing artifacts**:"@
            && trim_start(lines_of(content)[h].skip(27)).len() == 0,
        forall|q: int| h < q < m ==> trim(#[trigger] lines_of(content)[q]).len() == 0,
        forall|q: int|
            m <= q < n ==> (#[trigger] lines_of(content)[q]).len() >= 3 && lines_of(content)[q][0] == '-'
                && lines_of(content)[q][1] == ' ' && lines_of(content)[q][2] != '[' && trim_end(
                lines_of(content)[q].skip(2),
            ).len() > 0,
    ensures
        ({
            let ls = lines_of(content);
            let before = scan_lines(ls, h).artifacts.len();
            let arts = scan_spec_file(content).artifacts;
            forall|q: int| m <= q < n ==> arts[before + q - m] == trim_end((#[trigger] ls[q]).skip(2))
        }),
{
    let ls = lines_of(content);
    lemma_artifact_lines(ls, h, m, n);
    lemma_scan_artifacts_grow(ls, n, ls.len() as int);
    let before = scan_lines(ls, h).artifacts.len();
    assert forall|q: int| m <= q < n implies scan_spec_file(content).artifacts[before + q - m] == trim_end(
        (#[trigger] ls[q]).skip(2),
    ) by {
        assert(scan_lines(ls, n).artifacts[before + q - m] == trim_end(ls[q].skip(2)));
    }
}

/// The `prefix:` value of the last line among lines `1..k` that starts
/// with `prefix:`, trimmed; `None` when none does.
pub open spec fn last_prefix(ls: Seq<Seq<char>>, k: int) -> Option<Seq<char>>
    decreases k,
{
    if k <= 1 {
        None
    } else if ls[k - 1].len() >= 7 && ls[k - 1].take(7) == "prefix:"@ {
        Some(trim(ls[k - 1].skip(7)))
    } else {
        last_prefix(ls, k - 1)
    }
}

proof fn lemma_frontmatter_open(ls: Seq<Seq<char>>, k: int)
    requires
        1 <= k < ls.len(),
        trim(ls[0]) == "---"@,
        forall|q: int| 1 <= q < k ==> trim(#[trigger] ls[q]) != "---"@,
    ensures
        scan_lines(ls, k).in_frontmatter,
        !scan_lines(ls, k).first,
        scan_lines(ls, k).failed is None,
        scan_lines(ls, k).prefix == last_prefix(ls, k),
        scan_lines(ls, k).specs.len() == 0,
    decreases k,
{
    if k > 1 {
        lemma_frontmatter_open(ls, k - 1);
        let v = ls[k - 1];
        if v.len() >= 7 && v.subrange(0, 7) == "prefix:"@ {
            assert(v.take(7) == v.subrange(0, 7));
        } else if v.len() >= 7 && v.take(7) == "prefix:"@ {
            assert(v.take(7) == v.subrange(0, 7));
        }
    } else {
        assert(scan_lines(ls, 0) == scan_init());
        assert(scan_lines(ls, 1) == scan_step(scan_init(), ls[0], 0));
    }
}

proof fn lemma_prefix_stays(ls: Seq<Seq<char>>, k: int, m: int)
    requires
        1 <= k <= m <= ls.len(),
        !scan_lines(ls, k).first,
        !scan_lines(ls, k).in_frontmatter,
    ensures
        scan_lines(ls, m).prefix == scan_lines(ls, k).prefix,
        !scan_lines(ls, m).first,
        !scan_lines(ls, m).in_frontmatter,
    decreases m - k,
{
    if m > k {
        lemma_prefix_stays(ls, k, m - 1);
    }
}

/// The spec-ID prefix comes from the leading `---` frontmatter only: when
/// the file opens with a `---` line that a later `---` line (line `c`)
/// closes, the prefix is the trimmed value of the last `prefix:` line in
/// between, or none; `prefix:` lines after the frontmatter do not count.
pub proof fn law_frontmatter_prefix(content: Seq<char>, c: int)
    requires
        1 <= c < lines_of(content).len(),
        trim(lines_of(content)[0]) == "---"@,
        trim(lines_of(content)[c]) == "---"@,
        forall|q: int| 1 <= q < c ==> trim(#[trigger] lines_of(content)[q]) != "---"@,
    ensures
        scan_spec_file(content).prefix == last_prefix(lines_of(content), c),
{
    let ls = lines_of(content);
    lemma_frontmatter_open(ls, c);
    lemma_prefix_stays(ls, c + 1, ls.len() as int);
}

/// A non-blank line that is not a `- ` bullet or an artifacts header ends
/// an implementing-artifacts list: reading it and the line after it adds
/// no artifact, whatever that next line is.
pub proof fn law_artifact_list_ends(content: Seq<char>, q: int)
    requires
        0 <= q,
        q + 2 <= lines_of(content).len(),
        scan_lines(lines_of(content), q).failed is None,
        !frontmatter_line(lines_of(content), q),
        trim(lines_of(content)[q]).len() > 0,
        !(lines_of(content)[q].len() >= 2 && lines_of(content)[q][0] == '-' && lines_of(content)[q][1] == ' '),
        !(lines_of(content)[q].len() >= 27 && lines_of(content)[q].take(27) == "**Implementing artifacts**:"@),
    ensures
        scan_lines(lines_of(content), q + 2).artifacts == scan_lines(lines_of(content), q).artifacts,
        !scan_lines(lines_of(content), q + 1).in_artifacts,
{
    reveal_strlit("- [");
    reveal_strlit("- ");
    let ls = lines_of(content);
    let v = ls[q];
    assert(!spec_line_shaped(v)) by {
        if v.len() >= 8 && v.subrange(0, 3) == "- ["@ {
            assert(v.subrange(0, 3)[0] == v[0] && v.subrange(0, 3)[1] == v[1]);
        }
    }
    assert(!is_impl_header(v)) by {
        if v.len() >= 27 && v.subrange(0, 27) == "**Implementing artifacts**:"@ {
            assert(v.subrange(0, 27) == v.take(27));
        }
    }
    assert(bullet_capture(v) is None) by {
        if v.len() >= 3 && v.subrange(0, 2) == "- "@ {
            assert(v.subrange(0, 2)[0] == v[0] && v.subrange(0, 2)[1] == v[1]);
        }
    }
}

proof fn lemma_lld_stays(ls: Seq<Seq<char>>, k: int, m: int)
    requires
        0 <= k <= m <= ls.len(),
        forall|q: int| k <= q < m ==> !((#[trigger] ls[q]).len() >= 8 && ls[q].take(8) == "**LLD**:"@),
    ensures
        scan_lines(ls, m).lld == scan_lines(ls, k).lld,
    decreases m - k,
{
    if m > k {
        lemma_lld_stays(ls, k, m - 1);
        let v = ls[m - 1];
        if v.len() >= 8 && v.subrange(0, 8) == "**LLD**:"@ {
            assert(v.take(8) == v.subrange(0, 8));
        }
    }
}

/// The LLD a spec file names is on its last `**LLD**:` line outside the
/// frontmatter: a white-space character after the colon, then the path,
/// trimmed.
pub proof fn law_lld_header(content: Seq<char>, q: int)
    requires
        0 <= q < lines_of(content).len(),
        scan_lines(lines_of(content), q).failed is None,
        !frontmatter_line(lines_of(content), q),
        lines_of(content)[q].len() >= 9 && lines_of(content)[q].take(8) == "**LLD**:"@ && is_ws(
            lines_of(content)[q][8],
        ),
        trim(lines_of(content)[q].skip(8)).len() > 0,
        forall|p: int|
            q < p < lines_of(content).len() ==> !((#[trigger] lines_of(content)[p]).len() >= 8 && lines_of(
                content,
            )[p].take(8) == "**LLD**:"@),
    ensures
        scan_spec_file(content).lld == Some(trim(lines_of(content)[q].skip(8))),
{
    reveal_strlit("- [");
    reveal_strlit("**LLD**:");
    let ls = lines_of(content);
    let v = ls[q];
    assert(v.subrange(0, 8) == v.take(8));
    assert(v[0] == v.take(8)[0]);
    assert(!spec_line_shaped(v)) by {
        if v.len() >= 8 && v.subrange(0, 3) == "- ["@ {
            assert(v.subrange(0, 3)[0] == v[0]);
        }
    }
    assert(lld_capture(v) == Some(trim(v.skip(8))));
    lemma_lld_stays(ls, q + 1, ls.len() as int);
}

/// Unless the file is refused, every spec line outside the frontmatter
/// is found, at its 1-based line number.
pub proof fn law_spec_file_scan_complete(content: Seq<char>)
    ensures
        ({
            let ls = lines_of(content);
            let st = scan_spec_file(content);
            st.failed is None ==> forall|j: int|
                0 <= j < ls.len() && is_spec_line(#[trigger] ls[j]) && !frontmatter_line(ls, j) ==> exists|k: int|
                    0 <= k < st.specs.len() && (#[trigger] st.specs[k]).3 == j + 1
        }),
{
    let ls = lines_of(content);
    let n = ls.len() as int;
    let st = scan_spec_file(content);
    if st.failed is None {
        assert forall|j: int| 0 <= j < ls.len() && is_spec_line(#[trigger] ls[j]) && !frontmatter_line(ls, j) implies exists|k: int|
            0 <= k < st.specs.len() && (#[trigger] st.specs[k]).3 == j + 1 by {
            lemma_scan_unfailed_before(ls, j, n);
            let a = scan_lines(ls, j);
            let b = scan_lines(ls, j + 1);
            assert(b == scan_step(a, ls[j], j));
            assert(b.specs == a.specs.push((marker_status(ls[j][3]), spec_line_id(ls[j]), spec_line_text(ls[j]), j + 1)));
            lemma_scan_specs_grow(ls, j + 1, n);
            let k = a.specs.len() as int;
            assert(b.specs[k].3 == j + 1);
            assert(st.specs[k] == b.specs[k]);
        }
    }
}

/// Once the scan has failed, it stays failed at that line.
proof fn lemma_scan_failed_sticks(ls: Seq<Seq<char>>, k: int, m: int)
    requires
        0 <= k <= m,
        scan_lines(ls, k).failed is Some,
    ensures
        scan_lines(ls, m).failed == scan_lines(ls, k).failed,
    decreases m - k,
{
    if m > k {
        lemma_scan_failed_sticks(ls, k, m - 1);
    }
}

/// The collected fields hold exactly what the scan found.
pub open spec fn scan_fields_match(
    specs: Seq<SpecLine>,
    artifacts: Seq<String>,
    lld: Option<String>,
    prefix: Option<String>,
    st: SpecScan,
) -> bool {
    &&& specs.len() == st.specs.len()
    &&& forall|k: int|
        0 <= k < st.specs.len() ==> {
            let (s, id, text, line) = st.specs[k];
            &&& (#[trigger] specs[k]).status == s
            &&& specs[k].id@ == id
            &&& specs[k].text@ == text
            &&& specs[k].line == line
        }
    &&& artifacts.len() == st.artifacts.len()
    &&& forall|k: int| 0 <= k < st.artifacts.len() ==> (#[trigger] artifacts[k])@ == st.artifacts[k]
    &&& lld.is_some() == st.lld.is_some()
    &&& (lld matches Some(l) ==> l@ == st.lld.unwrap())
    &&& prefix.is_some() == st.prefix.is_some()
    &&& (prefix matches Some(p) ==> p@ == st.prefix.unwrap())
}

/// `f` holds exactly what the scan found, for a file at `path`.
pub open spec fn spec_file_matches(f: SpecFile, st: SpecScan, path: Seq<char>) -> bool {
    &&& f.path@ == path
    &&& scan_fields_match(f.specs@, f.implementing_artifacts@, f.lld, f.prefix, st)
}

fn trimmed_eq(v: &Vec<char>, lit: &str) -> (r: bool)
    ensures
        r == (trim(v@) == lit@),
{
    let (a, b) = trim_range(v, 0, v.len());
    assert(v@.subrange(0, v@.len() as int) =~= v@);
    range_eq(v, a, b, lit)
}

fn lld_capture_exec(v: &Vec<char>) -> (r: Option<String>)
    ensures
        r matches Some(s) ==> lld_capture(v@) == Some(s@),
        r is None ==> lld_capture(v@) is None,
{
    let n = v.len();
    if n < 9 || !range_eq(v, 0, 8, "**LLD**:") || !char_is_ws(v[8]) {
        return None;
    }
    let (a, b) = trim_range(v, 8, n);
    assert(v@.subrange(8, n as int) =~= v@.skip(8));
    if a < b {
        return Some(string_of(v, a, b));
    }
    if n - 8 >= 2 {
        let r = string_of(v, n - 1, n);
        assert(v@.subrange(n - 1, n as int) =~= seq![v@.skip(8).last()]);
        return Some(r);
    }
    None
}

fn is_impl_header_exec(v: &Vec<char>) -> (r: bool)
    ensures
        r == is_impl_header(v@),
{
    let n = v.len();
    if n < 27 || !range_eq(v, 0, 27, "**Implementing artifacts**:") {
        return false;
    }
    let (a, b) = trim_range(v, 27, n);
    assert(v@.subrange(27, n as int) =~= v@.skip(27));
    proof {
        lemma_trim_empty(v@.skip(27));
    }
    a == b
}

/// `trim` is empty exactly when `trim_start` is, and a non-empty
/// `trim_start` starts with a non-white-space character.
proof fn lemma_trim_empty(s: Seq<char>)
    ensures
        (trim(s).len() == 0) == (trim_start(s).len() == 0),
        trim_start(s).len() > 0 ==> !is_ws(trim_start(s)[0]),
    decreases s.len(),
{
    if s.len() > 0 && is_ws(s[0]) {
        lemma_trim_empty(s.drop_first());
    } else if s.len() > 0 {
        lemma_trim_end_keeps_first(s);
    }
}

/// Trimming the end keeps a non-white-space first character.
proof fn lemma_trim_end_keeps_first(s: Seq<char>)
    requires
        s.len() > 0,
        !is_ws(s[0]),
    ensures
        trim_end(s).len() > 0,
        trim_end(s)[0] == s[0],
    decreases s.len(),
{
    if is_ws(s.last()) {
        assert(s.len() > 1);
        lemma_trim_end_keeps_first(s.drop_last());
    }
}

fn bullet_capture_exec(v: &Vec<char>) -> (r: Option<String>)
    ensures
        r matches Some(s) ==> bullet_capture(v@) == Some(s@),
        r is None ==> bullet_capture(v@) is None,
{
    let n = v.len();
    if n < 3 || !range_eq(v, 0, 2, "- ") {
        return None;
    }
    let mut b = n;
    while b > 2 && char_is_ws(v[b - 1])
        invariant
            2 <= b <= n == v@.len(),
            trim_end(v@.skip(2)) == trim_end(v@.subrange(2, b as int)),
        decreases b,
    {
        assert(v@.subrange(2, b as int).drop_last() =~= v@.subrange(2, b - 1));
        b = b - 1;
    }
    assert(v@.subrange(2, n as int) =~= v@.skip(2));
    if b > 2 {
        assert(trim_end(v@.subrange(2, b as int)) == v@.subrange(2, b as int));
        return Some(string_of(v, 2, b));
    }
    assert(trim_end(v@.subrange(2, 2)).len() == 0);
    assert(v@.subrange(2, 3) =~= v@.skip(2).take(1));
    Some(string_of(v, 2, 3))
}

/// Parse an EARS spec file from an in-memory string.
///
/// Collects spec lines (`- [M] **ID**: TEXT`), the `**LLD**:` header, the
/// bullets under `**Implementing artifacts**:` and the `prefix:` of a YAML
/// frontmatter. Returns `Markdown` (with the 1-based line) at the first
/// spec-shaped line whose ID has no digit.
pub fn parse_spec_file(content: &str, source_path: &str) -> (r: Result<SpecFile, LidError>)
    ensures
        r is Ok <==> scan_spec_file(content@).failed is None,
        r matches Ok(f) ==> spec_file_matches(f, scan_spec_file(content@), source_path@),
        r matches Err(e) ==> e matches LidError::Markdown { path, line, .. } && path@ == source_path@
            && scan_spec_file(content@).failed == Some(line as int),
{
    let lines = content_lines(content);
    let ghost ls = lines_of(content@);
    let mut specs: Vec<SpecLine> = Vec::new();
    let mut artifacts: Vec<String> = Vec::new();
    let mut lld: Option<String> = None;
    let mut in_artifacts = false;
    let mut prefix: Option<String> = None;
    let mut first = true;
    let mut in_frontmatter = false;
    let mut i: usize = 0;
    while i < lines.len()
        invariant
            ls == lines_of(content@),
            lines@.len() == ls.len(),
            forall|j: int| 0 <= j < lines@.len() ==> (#[trigger] lines@[j])@ == ls[j],
            0 <= i <= lines@.len(),
            scan_lines(ls, i as int).failed is None,
            ({
                let st = scan_lines(ls, i as int);
                &&& st.in_artifacts == in_artifacts
                &&& st.first == first
                &&& st.in_frontmatter == in_frontmatter
                &&& scan_fields_match(specs@, artifacts@, lld, prefix, st)
            }),
        decreases lines@.len() - i,
    {
        let v = chars_of(lines[i].as_str());
        let ghost st = scan_lines(ls, i as int);
        assert(scan_lines(ls, i + 1) == scan_step(st, v@, i as int));
        let is_first = first;
        first = false;
        if is_first && trimmed_eq(&v, "---") {
            in_frontmatter = true;
        } else if in_frontmatter {
            if trimmed_eq(&v, "---") {
                in_frontmatter = false;
            } else if v.len() >= 7 && range_eq(&v, 0, 7, "prefix:") {
                let (a, b) = trim_range(&v, 7, v.len());
                assert(v@.subrange(7, v@.len() as int) =~= v@.skip(7));
                prefix = Some(string_of(&v, a, b));
            }
        } else {
            match spec_line_shape_exec(&v) {
                Some(j) => {
                    in_artifacts = false;
                    let idtext = string_of(&v, 8, j);
                    match SpecId::parse(idtext.as_str()) {
                        Ok(id) => {
                            let status = if v[3] == 'x' {
                                SpecStatus::Implemented
                            } else if v[3] == 'D' {
                                SpecStatus::Deferred
                            } else {
                                SpecStatus::Open
                            };
                            let n = v.len();
                            let text = string_of(&v, j + 4, n);
                            assert(v@.subrange(j + 4, n as int) =~= v@.skip(j + 4));
                            let ghost old_specs = specs@;
                            specs.push(SpecLine { id, status, text, line: i + 1 });
                            proof {
                                let st2 = scan_lines(ls, i + 1);
                                assert forall|k: int| 0 <= k < st2.specs.len() implies {
                                    let (s, id2, text2, line) = st2.specs[k];
                                    &&& (#[trigger] specs@[k]).status == s
                                    &&& specs@[k].id@ == id2
                                    &&& specs@[k].text@ == text2
                                    &&& specs@[k].line == line
                                } by {
                                    if k < old_specs.len() {
                                        assert(specs@[k] == old_specs[k]);
                                    }
                                }
                            }
                        },
                        Err(e) => {
                            proof {
                                assert(idtext@ == spec_line_id(v@));
                                assert(scan_lines(ls, i + 1).failed == Some(i + 1));
                                lemma_scan_failed_sticks(ls, i + 1, ls.len() as int);
                            }
                            return Err(
                                LidError::Markdown {
                                    path: source_path.to_owned(),
                                    line: i + 1,
                                    source: Box::new(e),
                                },
                            );
                        },
                    }
                },
                None => {
                    match lld_capture_exec(&v) {
                        Some(l) => {
                            lld = Some(l);
                            in_artifacts = false;
                        },
                        None => {
                            if is_impl_header_exec(&v) {
                                in_artifacts = true;
                            } else if in_artifacts {
                                match bullet_capture_exec(&v) {
                                    Some(item) => {
                                        let ghost old_a = artifacts@;
                                        artifacts.push(item);
                                        proof {
                                            let st2 = scan_lines(ls, i + 1);
                                            assert forall|k: int|
                                                0 <= k < st2.artifacts.len() implies (
                                            #[trigger] artifacts@[k])@ == st2.artifacts[k] by {
                                                if k < old_a.len() {
                                                    assert(artifacts@[k] == old_a[k]);
                                                }
                                            }
                                        }
                                    },
                                    None => {
                                        let (a, b) = trim_range(&v, 0, v.len());
                                        assert(v@.subrange(0, v@.len() as int) =~= v@);
                                        if a < b {
                                            in_artifacts = false;
                                        }
                                    },
                                }
                            }
                        },
                    }
                },
            }
        }
        i = i + 1;
    }
    Ok(
        SpecFile {
            path: source_path.to_owned(),
            specs,
            implementing_artifacts: artifacts,
            lld,
            prefix,
        },
    )
}

/// The first line starting with `# `, from index `from`; -1 when none.
pub open spec fn first_h1(lines: Seq<Seq<char>>, from: int) -> int
    decreases lines.len() - from,
{
    if from < 0 || from >= lines.len() {
        -1
    } else if lines[from].len() >= 2 && lines[from].subrange(0, 2) == "# "@ {
        from
    } else {
        first_h1(lines, from + 1)
    }
}

/// Title of a decision doc: the first `# ` line's rest, trimmed; empty
/// when no line starts with `# `.
pub open spec fn decision_title(content: Seq<char>) -> Seq<char> {
    let ls = lines_of(content);
    let k = first_h1(ls, 0);
    if k == -1 {
        Seq::empty()
    } else {
        trim(ls[k].skip(2))
    }
}

/// Parse a decision document: its title is the first H1 heading.
pub fn parse_decision_doc(content: &str, source_path: &str, scope: DecisionScope) -> (r: DecisionDoc)
    ensures
        r.path@ == source_path@,
        r.scope == scope,
        r.title@ == decision_title(content@),
{
    let lines = content_lines(content);
    let ghost ls = lines_of(content@);
    let mut i: usize = 0;
    while i < lines.len()
        invariant
            ls == lines_of(content@),
            lines@.len() == ls.len(),
            forall|j: int| 0 <= j < lines@.len() ==> (#[trigger] lines@[j])@ == ls[j],
            0 <= i <= lines@.len(),
            first_h1(ls, 0) == first_h1(ls, i as int),
        decreases lines@.len() - i,
    {
        let v = chars_of(lines[i].as_str());
        if v.len() >= 2 && range_eq(&v, 0, 2, "# ") {
            let (a, b) = trim_range(&v, 2, v.len());
            assert(v@.subrange(2, v@.len() as int) =~= v@.skip(2));
            return DecisionDoc { path: source_path.to_owned(), scope, title: string_of(&v, a, b) };
        }
        i = i + 1;
    }
    DecisionDoc { path: source_path.to_owned(), scope, title: String::new() }
}

} // verus!
