//! Completion in two places:
//!
//! 1. after `@spec ` (or a comma in a multi-ID citation): every spec ID
//!    starting with what has been typed, sorted by ID;
//! 2. on a `### ` line inside the `## References` block of an arrow doc:
//!    the five subsection names.
//!
//! Elsewhere there is nothing to offer (`None`).

use vstd::prelude::*;

use crate::checks::{flat, lemma_flat_all, lemma_flat_take};
use crate::lsp::{line_of, Pos};
use crate::model::{SpecFile, SpecLine, SpecStatus};
use crate::order::{insert_by, lemma_insert_by_at, lemma_sort_by, lex_lt, ordered_by, sort_by, str_lt};
use crate::parse::markdown::content_lines;
use crate::paths::{extension, join_path, path_extension, path_strip_prefix, strip_prefix, join};
use crate::text::{byte_len, byte_offsets, cat, char_is_ws, chars_of, is_ws, lines_of, range_eq, string_of, trim, trim_range};

verus! {

/// What a completion entry names.
#[derive(Debug, Clone, Copy, PartialEq, Eq, Structural)]
pub enum CompletionKind {
    /// A section name.
    Keyword,
    /// A spec ID.
    Reference,
}

/// One completion entry; `documentation` is markdown.
#[derive(Debug, Clone)]
pub struct CompletionEntry {
    pub label: String,
    pub kind: CompletionKind,
    pub detail: String,
    pub documentation: String,
}

/// A completion entry as plain values.
pub struct EntryView {
    pub label: Seq<char>,
    pub kind: CompletionKind,
    pub detail: Seq<char>,
    pub documentation: Seq<char>,
}

/// The entry's plain values.
pub open spec fn entry_view(e: CompletionEntry) -> EntryView {
    EntryView { label: e.label@, kind: e.kind, detail: e.detail@, documentation: e.documentation@ }
}

/// The entries' plain values.
pub open spec fn entry_views(es: Seq<CompletionEntry>) -> Seq<EntryView> {
    es.map_values(|e: CompletionEntry| entry_view(e))
}

/// The sort key of an entry: its label.
pub open spec fn label_key() -> spec_fn(EntryView) -> Seq<char> {
    |e: EntryView| e.label
}

/// The five `### {Kind}` names, with their descriptions.
pub open spec fn section_names() -> Seq<(Seq<char>, Seq<char>)> {
    seq![
        ("HLD"@, "High-level design — links to the architecture doc"@),
        ("LLD"@, "Low-level design — links to the implementation intent doc"@),
        ("EARS"@, "EARS spec file — links to the behavioural requirements"@),
        ("Tests"@, "Test and eval fixtures"@),
        ("Code"@, "Source files and skill prompts"@),
    ]
}

/// The section-name entries.
pub open spec fn section_entries() -> Seq<EntryView> {
    section_names().map_values(
        |nd: (Seq<char>, Seq<char>)|
            EntryView { label: nd.0, kind: CompletionKind::Keyword, detail: "### "@ + nd.0, documentation: nd.1 },
    )
}

fn section_entry(name: &str, doc: &str) -> (r: CompletionEntry)
    ensures
        entry_view(r) == (EntryView {
            label: name@,
            kind: CompletionKind::Keyword,
            detail: "### "@ + name@,
            documentation: doc@,
        }),
{
    CompletionEntry {
        label: name.to_owned(),
        kind: CompletionKind::Keyword,
        detail: cat("### ", name),
        documentation: doc.to_owned(),
    }
}

/// The five `### {Kind}` section names as completion entries.
pub fn section_heading_items() -> (r: Vec<CompletionEntry>)
    ensures
        entry_views(r@) == section_entries(),
{
    let mut out: Vec<CompletionEntry> = Vec::new();
    out.push(section_entry("HLD", "High-level design — links to the architecture doc"));
    out.push(section_entry("LLD", "Low-level design — links to the implementation intent doc"));
    out.push(section_entry("EARS", "EARS spec file — links to the behavioural requirements"));
    out.push(section_entry("Tests", "Test and eval fixtures"));
    out.push(section_entry("Code", "Source files and skill prompts"));
    assert(entry_views(out@) =~= section_entries());
    out
}

/// Completion wording of a spec status.
pub open spec fn completion_status(s: SpecStatus) -> Seq<char> {
    match s {
        SpecStatus::Implemented => "[x] implemented"@,
        SpecStatus::Open => "[ ] open"@,
        SpecStatus::Deferred => "[D] deferred"@,
    }
}

/// The completion entry for a spec line.
pub open spec fn spec_entry(l: SpecLine) -> EntryView {
    EntryView {
        label: l.id@,
        kind: CompletionKind::Reference,
        detail: completion_status(l.status),
        documentation: "**`"@ + l.id@ + "`** — *"@ + completion_status(l.status) + "*\n\n> "@ + l.text@,
    }
}

/// The completion entry for a spec line.
pub fn make_completion_item(spec: &SpecLine) -> (r: CompletionEntry)
    ensures
        entry_view(r) == spec_entry(*spec),
{
    let status = match spec.status {
        SpecStatus::Implemented => "[x] implemented",
        SpecStatus::Open => "[ ] open",
        SpecStatus::Deferred => "[D] deferred",
    };
    let mut doc = cat("**`", spec.id.as_str());
    doc.append("`** — *");
    doc.append(status);
    doc.append("*\n\n> ");
    doc.append(spec.text.as_str());
    CompletionEntry {
        label: spec.id.as_str().to_owned(),
        kind: CompletionKind::Reference,
        detail: status.to_owned(),
        documentation: doc,
    }
}

/// Last index `i` with `@spec` at `p[i..i + 5]`, searching below `n`; -1 when none.
pub open spec fn last_at_spec(p: Seq<char>, n: int) -> int
    decreases n,
{
    if n <= 0 {
        -1
    } else if n - 1 + 5 <= p.len() && p.subrange(n - 1, n - 1 + 5) == "@spec"@ {
        n - 1
    } else {
        last_at_spec(p, n - 1)
    }
}

/// A character allowed between `@spec` and the cursor.
pub open spec fn citation_list_char(c: char) -> bool {
    is_ws(c) || c == ',' || ('A' <= c && c <= 'Z') || ('0' <= c && c <= '9') || c == '-'
}

/// A character that would continue the word `@spec`.
pub open spec fn word_continuation(c: char) -> bool {
    ('A' <= c && c <= 'Z') || ('a' <= c && c <= 'z') || ('0' <= c && c <= '9') || c == '_'
}

/// Index just after the last white space or comma of `s` below `n`; 0 when none.
pub open spec fn after_last_sep(s: Seq<char>, n: int) -> int
    decreases n,
{
    if n <= 0 {
        0
    } else if is_ws(s[n - 1]) || s[n - 1] == ',' {
        n
    } else {
        after_last_sep(s, n - 1)
    }
}

/// When the text before the cursor ends inside an `@spec` citation list,
/// the part of an ID typed so far (possibly empty).
pub open spec fn at_spec_typed(p: Seq<char>) -> Option<Seq<char>> {
    let i = last_at_spec(p, p.len() as int);
    if i == -1 {
        None
    } else {
        let after = p.skip(i + 5);
        if after.len() > 0 && word_continuation(after[0]) {
            None
        } else if !(forall|k: int| 0 <= k < after.len() ==> citation_list_char(#[trigger] after[k])) {
            None
        } else {
            Some(after.skip(after_last_sep(after, after.len() as int)))
        }
    }
}

/// The typed part of a spec ID when `prefix_line` (the line up to the
/// cursor) ends inside an `@spec` citation.
pub fn at_spec_prefix(prefix_line: &str) -> (r: Option<String>)
    ensures
        r matches Some(t) ==> at_spec_typed(prefix_line@) == Some(t@),
        r is None ==> at_spec_typed(prefix_line@) is None,
{
    let v = chars_of(prefix_line);
    let n = v.len();
    let mut i = n;
    while i > 0 && !(n >= 4 && i <= n - 4 && range_eq(&v, i - 1, i + 4, "@spec"))
        invariant
            0 <= i <= n == v@.len(),
            v@ == prefix_line@,
            last_at_spec(v@, n as int) == last_at_spec(v@, i as int),
        decreases i,
    {
        i = i - 1;
    }
    if i == 0 {
        return None;
    }
    let s = i - 1 + 5;
    let ghost after = v@.skip(s as int);
    if s < n && (('A' <= v[s] && v[s] <= 'Z') || ('a' <= v[s] && v[s] <= 'z') || ('0' <= v[s] && v[s] <= '9')
        || v[s] == '_') {
        assert(after[0] == v@[s as int]);
        return None;
    }
    assert(last_at_spec(prefix_line@, prefix_line@.len() as int) == s - 5);
    assert(after.len() > 0 ==> !word_continuation(after[0]));
    let mut k = s;
    while k < n
        invariant
            s <= k <= n == v@.len(),
            v@ == prefix_line@,
            last_at_spec(prefix_line@, prefix_line@.len() as int) == s - 5,
            after.len() > 0 ==> !word_continuation(after[0]),
            after == v@.skip(s as int),
            forall|q: int| 0 <= q < k - s ==> citation_list_char(#[trigger] after[q]),
        decreases n - k,
    {
        let c = v[k];
        assert(after[k - s] == c);
        if !(char_is_ws(c) || c == ',' || ('A' <= c && c <= 'Z') || ('0' <= c && c <= '9') || c == '-') {
            return None;
        }
        k = k + 1;
    }
    let mut b = n;
    while b > s && !(char_is_ws(v[b - 1]) || v[b - 1] == ',')
        invariant
            s <= b <= n == v@.len(),
            v@ == prefix_line@,
            last_at_spec(prefix_line@, prefix_line@.len() as int) == s - 5,
            after.len() > 0 ==> !word_continuation(after[0]),
            forall|q: int| 0 <= q < after.len() ==> citation_list_char(#[trigger] after[q]),
            after == v@.skip(s as int),
            after_last_sep(after, after.len() as int) == after_last_sep(after, b - s),
        decreases b,
    {
        assert(after[b - s - 1] == v@[b - 1]);
        b = b - 1;
    }
    if b > s {
        assert(after[b - s - 1] == v@[b - 1]);
    }
    assert(after.skip(b - s) =~= v@.subrange(b as int, n as int));
    Some(string_of(&v, b, n))
}

/// Index of the nearest line before `k` that starts with `## `; -1 when none.
pub open spec fn nearest_h2(lines: Seq<Seq<char>>, k: int) -> int
    decreases k,
{
    if k <= 0 || k > lines.len() {
        -1
    } else if lines[k - 1].len() >= 3 && lines[k - 1].subrange(0, 3) == "## "@ {
        k - 1
    } else {
        nearest_h2(lines, k - 1)
    }
}

/// Line `line_idx` lies under a `## References` heading: the nearest `## `
/// heading above it reads `References`.
pub open spec fn under_references(text: Seq<char>, line_idx: int) -> bool {
    let ls = lines_of(text);
    let h = nearest_h2(ls, if line_idx < ls.len() {
        line_idx
    } else {
        ls.len() as int
    });
    h != -1 && trim(ls[h].skip(3)) == "References"@
}

/// The line starts with `## `.
pub open spec fn is_h2_line(l: Seq<char>) -> bool {
    l.len() >= 3 && l.subrange(0, 3) == "## "@
}

proof fn lemma_nearest_h2(lines: Seq<Seq<char>>, k: int)
    requires
        0 <= k <= lines.len(),
    ensures
        nearest_h2(lines, k) == -1 ==> forall|q: int| 0 <= q < k ==> !is_h2_line(#[trigger] lines[q]),
        nearest_h2(lines, k) != -1 ==> {
            let h = nearest_h2(lines, k);
            &&& 0 <= h < k
            &&& is_h2_line(lines[h])
            &&& forall|q: int| h < q < k ==> !is_h2_line(#[trigger] lines[q])
        },
    decreases k,
{
    if k > 0 && !is_h2_line(lines[k - 1]) {
        lemma_nearest_h2(lines, k - 1);
    }
}

/// A line lies under `## References` exactly when, among the lines
/// before it, the last one that starts with `## ` exists and is headed
/// `References` (after trimming).
pub proof fn law_under_references(text: Seq<char>, line_idx: int)
    requires
        line_idx >= 0,
    ensures
        ({
            let ls = lines_of(text);
            let n = if line_idx < ls.len() {
                line_idx
            } else {
                ls.len() as int
            };
            under_references(text, line_idx) <==> exists|h: int|
                0 <= h < n && is_h2_line(#[trigger] ls[h]) && trim(ls[h].skip(3)) == "References"@ && forall|q: int|
                    h < q < n ==> !is_h2_line(#[trigger] ls[q])
        }),
{
    let ls = lines_of(text);
    let n = if line_idx < ls.len() {
        line_idx
    } else {
        ls.len() as int
    };
    lemma_nearest_h2(ls, n);
    let h0 = nearest_h2(ls, n);
    if exists|h: int|
        0 <= h < n && is_h2_line(#[trigger] ls[h]) && trim(ls[h].skip(3)) == "References"@ && forall|q: int|
            h < q < n ==> !is_h2_line(#[trigger] ls[q]) {
        let h = choose|h: int|
            0 <= h < n && is_h2_line(#[trigger] ls[h]) && trim(ls[h].skip(3)) == "References"@ && forall|q: int|
                h < q < n ==> !is_h2_line(#[trigger] ls[q]);
        if h0 == -1 {
            assert(!is_h2_line(ls[h]));
        } else if h0 < h {
            assert(!is_h2_line(ls[h]));
        } else if h < h0 {
            assert(!is_h2_line(ls[h0]));
        }
    }
}

/// Whether line `line_idx` of `text` lies under `## References`.
pub fn in_references_block(text: &str, line_idx: usize) -> (r: bool)
    ensures
        r == under_references(text@, line_idx as int),
{
    let lines = content_lines(text);
    let ghost ls = lines_of(text@);
    let mut k = if line_idx < lines.len() {
        line_idx
    } else {
        lines.len()
    };
    let ghost start = k;
    while k > 0
        invariant
            0 <= k <= lines@.len(),
            lines@.len() == ls.len(),
            ls == lines_of(text@),
            forall|j: int| 0 <= j < lines@.len() ==> (#[trigger] lines@[j])@ == ls[j],
            nearest_h2(ls, start as int) == nearest_h2(ls, k as int),
            start == if line_idx < ls.len() {
                line_idx as int
            } else {
                ls.len() as int
            },
        decreases k,
    {
        let v = chars_of(lines[k - 1].as_str());
        if v.len() >= 3 && range_eq(&v, 0, 3, "## ") {
            let (a, b) = trim_range(&v, 3, v.len());
            assert(v@.subrange(3, v@.len() as int) =~= v@.skip(3));
            return range_eq(&v, a, b, "References");
        }
        k = k - 1;
    }
    false
}

/// Text up to byte `b` of `line`, when `b` falls on a character boundary.
pub open spec fn prefix_to_byte(line: Seq<char>, b: int) -> Option<Seq<char>> {
    if exists|k: int| 0 <= k <= line.len() && byte_len(line.take(k)) == b {
        Some(line.take(choose|k: int| 0 <= k <= line.len() && byte_len(line.take(k)) == b))
    } else {
        None
    }
}

/// The cursor column, capped at the line's length in bytes.
pub open spec fn capped_cursor(line: Seq<char>, pos: Pos) -> int {
    if pos.character as int <= byte_len(line) {
        pos.character as int
    } else {
        byte_len(line) as int
    }
}

/// The cursor falls on a character boundary of its line (or past the text).
pub open spec fn cursor_on_char(text: Seq<char>, pos: Pos) -> bool {
    match line_of(text, pos) {
        None => true,
        Some(line) => prefix_to_byte(line, capped_cursor(line, pos)) is Some,
    }
}

/// `path` is a markdown file under `<root>/docs/arrows`.
pub open spec fn arrow_doc_path(root: Seq<char>, path: Seq<char>) -> bool {
    strip_prefix(path, join_path(join_path(root, "docs"@), "arrows"@)) is Some && extension(path) == Some("md"@)
}

/// The entries offered at the cursor, given whether the buffer is an arrow doc.
pub open spec fn completions_spec(files: Seq<SpecFile>, arrow_doc: bool, text: Seq<char>, pos: Pos) -> Option<Seq<EntryView>> {
    match line_of(text, pos) {
        None => None,
        Some(line) => {
            let p = prefix_to_byte(line, capped_cursor(line, pos)).unwrap();
            if arrow_doc && p.len() >= 4 && p.take(4) == "### "@ && under_references(text, pos.line as int) {
                Some(section_entries())
            } else {
                match at_spec_typed(p) {
                    None => None,
                    Some(t) => Some(sort_by(matching_specs(files, t), label_key())),
                }
            }
        },
    }
}

/// Spec-ID completions come sorted by label, and sorting neither drops
/// nor repeats an entry.
pub proof fn law_completions_sorted_by_label(files: Seq<SpecFile>, t: Seq<char>)
    ensures
        ordered_by(sort_by(matching_specs(files, t), label_key()), label_key()),
        sort_by(matching_specs(files, t), label_key()).to_multiset() == matching_specs(files, t).to_multiset(),
{
    lemma_sort_by(matching_specs(files, t), label_key());
}

/// The entries of every spec line whose ID starts with `t`, file by file.
pub open spec fn matching_specs(files: Seq<SpecFile>, t: Seq<char>) -> Seq<EntryView> {
    flat(Seq::new(
        files.len(),
        |i: int|
            flat(Seq::new(
                files[i].specs@.len(),
                |j: int|
                    if files[i].specs@[j].id@.len() >= t.len() && files[i].specs@[j].id@.take(t.len() as int) == t {
                        seq![spec_entry(files[i].specs@[j])]
                    } else {
                        Seq::empty()
                    },
            )),
    ))
}

/// Whether the cursor falls on a character boundary of its line.
pub fn cursor_on_boundary(text: &str, position: Pos) -> (r: bool)
    ensures
        r == cursor_on_char(text@, position),
{
    let line = match crate::lsp::line_at(text, position.line) {
        Some(l) => l,
        None => return true,
    };
    let v = chars_of(line.as_str());
    let offs = byte_offsets(line.as_str(), &v);
    let total = offs[v.len()];
    assert(v@.take(v@.len() as int) =~= v@);
    let c = if (position.character as usize) <= total {
        position.character as usize
    } else {
        total
    };
    assert(line_of(text@, position) == Some(line@));
    let mut k: usize = 0;
    while k < offs.len()
        invariant
            0 <= k <= v@.len() + 1,
            v@ == line@,
            line_of(text@, position) == Some(line@),
            c == capped_cursor(line@, position),
            offs@.len() == v@.len() + 1,
            forall|q: int| 0 <= q <= v@.len() ==> #[trigger] offs@[q] == byte_len(v@.take(q)),
            forall|q: int| 0 <= q < k ==> byte_len(v@.take(q)) != c,
        decreases v@.len() + 1 - k,
    {
        if offs[k] == c {
            assert(offs@[k as int] == byte_len(v@.take(k as int)));
            assert(byte_len(line@.take(k as int)) == c);
            return true;
        }
        k = k + 1;
    }
    false
}

/// Sort entries by label, stably.
pub fn sort_entries(es: Vec<CompletionEntry>) -> (r: Vec<CompletionEntry>)
    ensures
        entry_views(r@) == sort_by(entry_views(es@), label_key()),
{
    let ghost src = entry_views(es@);
    let mut out: Vec<CompletionEntry> = Vec::new();
    let mut es = es;
    let mut k: usize = 0;
    while k < es.len()
        invariant
            0 <= k <= es@.len(),
            src == entry_views(es@),
            entry_views(out@) == sort_by(src.take(k as int), label_key()),
        decreases es@.len() - k,
    {
        let x = es[k].clone_entry();
        let mut p: usize = 0;
        while p < out.len() && !str_lt(x.label.as_str(), out[p].label.as_str())
            invariant
                0 <= p <= out@.len(),
                forall|q: int| 0 <= q < p ==> !lex_lt(x.label@, (#[trigger] out@[q]).label@),
            decreases out@.len() - p,
        {
            p = p + 1;
        }
        let ghost before = entry_views(out@);
        proof {
            assert forall|q: int| 0 <= q < p implies !lex_lt(
                (label_key())(entry_view(x)),
                (label_key())(#[trigger] before[q]),
            ) by {
                assert(before[q] == entry_view(out@[q]));
            }
            if p < out@.len() {
                assert(before[p as int] == entry_view(out@[p as int]));
            }
            lemma_insert_by_at(before, entry_view(x), label_key(), p as int);
            assert(src.take(k + 1).drop_last() =~= src.take(k as int));
        }
        out.insert(p, x);
        assert(entry_views(out@) =~= before.insert(p as int, src[k as int]));
        k = k + 1;
    }
    assert(src.take(k as int) =~= src);
    out
}

impl CompletionEntry {
    /// A copy of this entry.
    pub fn clone_entry(&self) -> (r: CompletionEntry)
        ensures
            entry_view(r) == entry_view(*self),
    {
        CompletionEntry {
            label: self.label.clone(),
            kind: self.kind,
            detail: self.detail.clone(),
            documentation: self.documentation.clone(),
        }
    }
}

fn starts_with_str(s: &str, t: &str) -> (r: bool)
    ensures
        r == (s@.len() >= t@.len() && s@.take(t@.len() as int) == t@),
{
    let v = chars_of(s);
    let w = chars_of(t);
    if v.len() < w.len() {
        return false;
    }
    let mut k: usize = 0;
    while k < w.len()
        invariant
            0 <= k <= w@.len() <= v@.len(),
            v@ == s@,
            w@ == t@,
            forall|q: int| 0 <= q < k ==> v@[q] == w@[q],
        decreases w@.len() - k,
    {
        if v[k] != w[k] {
            assert(s@.take(t@.len() as int)[k as int] != t@[k as int]);
            return false;
        }
        k = k + 1;
    }
    assert(s@.take(t@.len() as int) =~= t@);
    true
}

/// The entries of every spec line whose ID starts with `t`.
fn matching_entries(files: &Vec<SpecFile>, t: &str) -> (r: Vec<CompletionEntry>)
    ensures
        entry_views(r@) == matching_specs(files@, t@),
{
    let ghost blocks = Seq::new(
        files@.len(),
        |i: int|
            flat(Seq::new(
                files@[i].specs@.len(),
                |j: int|
                    if files@[i].specs@[j].id@.len() >= t@.len() && files@[i].specs@[j].id@.take(t@.len() as int) == t@ {
                        seq![spec_entry(files@[i].specs@[j])]
                    } else {
                        Seq::empty()
                    },
            )),
    );
    let mut out: Vec<CompletionEntry> = Vec::new();
    let mut i: usize = 0;
    while i < files.len()
        invariant
            0 <= i <= files@.len(),
            blocks == Seq::new(
                files@.len(),
                |i: int|
                    flat(Seq::new(
                        files@[i].specs@.len(),
                        |j: int|
                            if files@[i].specs@[j].id@.len() >= t@.len() && files@[i].specs@[j].id@.take(t@.len() as int)
                                == t@ {
                                seq![spec_entry(files@[i].specs@[j])]
                            } else {
                                Seq::empty()
                            },
                    )),
            ),
            entry_views(out@) == flat(blocks.take(i as int)),
        decreases files@.len() - i,
    {
        proof {
            lemma_flat_take(blocks, i as int);
        }
        let f = &files[i];
        let ghost inner = Seq::new(
            f.specs@.len(),
            |j: int|
                if f.specs@[j].id@.len() >= t@.len() && f.specs@[j].id@.take(t@.len() as int) == t@ {
                    seq![spec_entry(f.specs@[j])]
                } else {
                    Seq::<EntryView>::empty()
                },
        );
        assert(flat(inner) == blocks[i as int]);
        let ghost head = entry_views(out@);
        let mut j: usize = 0;
        while j < f.specs.len()
            invariant
                0 <= j <= f.specs@.len(),
                inner == Seq::new(
                    f.specs@.len(),
                    |j: int|
                        if f.specs@[j].id@.len() >= t@.len() && f.specs@[j].id@.take(t@.len() as int) == t@ {
                            seq![spec_entry(f.specs@[j])]
                        } else {
                            Seq::<EntryView>::empty()
                        },
                ),
                entry_views(out@) == head + flat(inner.take(j as int)),
            decreases f.specs@.len() - j,
        {
            proof {
                lemma_flat_take(inner, j as int);
            }
            let ghost before = entry_views(out@);
            if starts_with_str(f.specs[j].id.as_str(), t) {
                let e = make_completion_item(&f.specs[j]);
                out.push(e);
                assert(entry_views(out@) =~= before.push(entry_view(e)));
            }
            assert(head + flat(inner.take(j as int)) + inner[j as int] =~= head + flat(inner.take(j + 1)));
            j = j + 1;
        }
        proof {
            lemma_flat_all(inner);
        }
        i = i + 1;
    }
    proof {
        lemma_flat_all(blocks);
    }
    out
}

/// `Url::parse(uri)` then `Url::to_file_path`, as text; `None` when either
/// step fails.
///
/// Nothing is claimed of the result: it depends on the platform's path
/// conventions and on percent-decoding, and `to_file_path` does not look
/// at the scheme (a `http:` URL with an empty host converts too).
#[verifier::external_body]
fn uri_to_path(uri: &str) -> (r: Option<String>) {
    let url = tower_lsp::lsp_types::Url::parse(uri).ok()?;
    url.to_file_path().ok().map(|p| p.to_string_lossy().into_owned())
}

/// Whether `path` is a markdown file under `<root>/docs/arrows`.
pub fn is_arrow_doc_path(root: &str, path: &str) -> (r: bool)
    ensures
        r == arrow_doc_path(root@, path@),
{
    let d1 = join(root, "docs");
    let dir = join(d1.as_str(), "arrows");
    if path_strip_prefix(path, dir.as_str()).is_none() {
        return false;
    }
    match path_extension(path) {
        Some(e) => crate::text::str_eq(e.as_str(), "md"),
        None => false,
    }
}

/// Whether the document at `uri` is an arrow doc of the repository: the
/// file path that `uri` converts to, if any, is one (`is_arrow_doc_path`).
///
/// Nothing is stated of the result: the conversion from URI to path
/// depends on the platform (see `uri_to_path`).
pub fn is_arrow_doc(root: &str, uri: &str) -> (r: bool) {
    match uri_to_path(uri) {
        Some(p) => is_arrow_doc_path(root, p.as_str()),
        None => false,
    }
}

/// The completion entries at the cursor, given whether the buffer is an
/// arrow doc.
pub fn completions_for(files: &Vec<SpecFile>, arrow_doc: bool, text: &str, position: Pos) -> (r: Option<Vec<CompletionEntry>>)
    requires
        cursor_on_char(text@, position),
    ensures
        r matches Some(v) ==> completions_spec(files@, arrow_doc, text@, position) == Some(entry_views(v@)),
        r is None ==> completions_spec(files@, arrow_doc, text@, position) is None,
{
    let line = match crate::lsp::line_at(text, position.line) {
        Some(l) => l,
        None => return None,
    };
    let v = chars_of(line.as_str());
    let offs = byte_offsets(line.as_str(), &v);
    let total = offs[v.len()];
    assert(v@.take(v@.len() as int) =~= v@);
    let c = if (position.character as usize) <= total {
        position.character as usize
    } else {
        total
    };
    let mut k: usize = 0;
    while k < offs.len() && offs[k] != c
        invariant
            0 <= k <= v@.len() + 1,
            offs@.len() == v@.len() + 1,
            forall|q: int| 0 <= q <= v@.len() ==> #[trigger] offs@[q] == byte_len(v@.take(q)),
            forall|q: int| 0 <= q < k ==> byte_len(v@.take(q)) != c,
        decreases v@.len() + 1 - k,
    {
        k = k + 1;
    }
    if k > v.len() {
        return None;
    }
    assert(offs@[k as int] == byte_len(v@.take(k as int)));
    assert(byte_len(line@.take(k as int)) == c);
    let ghost p = prefix_to_byte(line@, c as int).unwrap();
    proof {
        let kk = choose|q: int| 0 <= q <= line@.len() && byte_len(line@.take(q)) == c;
        if kk != k {
            crate::text::lemma_byte_len_strict(v@, kk, k as int);
        }
        assert(p == v@.take(k as int));
    }
    let prefix = string_of(&v, 0, k);
    assert(v@.subrange(0, k as int) =~= p);
    if k >= 4 {
        assert(p.take(4) =~= v@.subrange(0, 4));
    }
    if arrow_doc && k >= 4 && range_eq(&v, 0, 4, "### ") && in_references_block(text, position.line as usize) {
        return Some(section_heading_items());
    }
    let typed = match at_spec_prefix(prefix.as_str()) {
        Some(t) => t,
        None => return None,
    };
    let items = matching_entries(files, typed.as_str());
    Some(sort_entries(items))
}

/// Completion at the cursor of the document at `uri`.
pub fn completions_at_position(repo: &crate::repo::LidRepo, uri: &str, text: &str, position: Pos) -> (r: Option<Vec<CompletionEntry>>)
    requires
        cursor_on_char(text@, position),
    ensures
        exists|arrow_doc: bool|
            #![trigger completions_spec(repo.specs@, arrow_doc, text@, position)]
            match r {
                Some(v) => completions_spec(repo.specs@, arrow_doc, text@, position) == Some(entry_views(v@)),
                None => completions_spec(repo.specs@, arrow_doc, text@, position) is None,
            },
{
    let arrow = is_arrow_doc(repo.root.as_str(), uri);
    let r = completions_for(&repo.specs, arrow, text, position);
    assert(completions_spec(repo.specs@, arrow, text@, position) == completions_spec(repo.specs@, arrow, text@, position));
    r
}

} // verus!
