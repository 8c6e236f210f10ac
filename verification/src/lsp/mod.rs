//! Editor queries for the language server: what sits under the cursor,
//! where a spec is defined and cited, hover text, completion,
//! diagnostics, renames and workspace symbols.
//!
//! Each query is a function from the repository, a buffer's text and a
//! cursor position to plain values; the server turns those into protocol
//! messages. Columns are byte offsets within the line.


pub mod completion;
pub mod diagnostics;
pub mod references;
pub mod rename;
pub mod symbols;

use vstd::prelude::*;

use crate::ids::SpecId;
use crate::model::{SpecCitation, SpecFile, SpecLine, SpecStatus};
use crate::parse::markdown::{
    content_lines, find_spec_line_match, is_spec_line, marker_status, run_end, spec_line_id,
    spec_line_text,
};
use crate::parse::source::{find_citations_in_line, line_citation_spans, LineCitation};
use crate::paths::{display_relative, relative_to};
use crate::text::{byte_len, cat, decimal, lines_of, usize_string};

verus! {

/// A zero-based line and column.
#[derive(Debug, Clone, Copy, PartialEq, Eq, Structural)]
pub struct Pos {
    pub line: u32,
    pub character: u32,
}

/// A range between two positions.
#[derive(Debug, Clone, Copy, PartialEq, Eq, Structural)]
pub struct Span {
    pub start: Pos,
    pub end: Pos,
}

/// A range within the document at `uri`.
#[derive(Debug, Clone)]
pub struct FileLocation {
    pub uri: String,
    pub range: Span,
}

/// `n` as a `u32`, saturating at `u32::MAX`.
pub open spec fn sat32(n: int) -> u32 {
    if n <= u32::MAX {
        n as u32
    } else {
        u32::MAX
    }
}

/// `n` as a `u32`, saturating at `u32::MAX`.
pub fn saturate_u32(n: usize) -> (r: u32)
    ensures
        r == sat32(n as int),
{
    if n <= 4294967295usize {
        n as u32
    } else {
        4294967295u32
    }
}

/// The span of bytes `start..end` on `line`.
pub open spec fn byte_span(line: u32, start: int, end: int) -> Span {
    Span { start: Pos { line, character: sat32(start) }, end: Pos { line, character: sat32(end) } }
}

/// The span of bytes `start..end` on `line`, columns saturating.
pub fn byte_range_to_lsp_range(line: u32, start: usize, end: usize) -> (r: Span)
    ensures
        r == byte_span(line, start as int, end as int),
{
    Span {
        start: Pos { line, character: saturate_u32(start) },
        end: Pos { line, character: saturate_u32(end) },
    }
}

/// The whole of the 1-based line `line`: from column 0 of it to column 0
/// of the next; a line past `u32::MAX` counts as the first.
pub open spec fn line_span(line: int) -> Span {
    let z = if line <= 0 {
        0
    } else {
        line - 1
    };
    let t: u32 = if z <= u32::MAX {
        z as u32
    } else {
        0
    };
    let e: u32 = if t == u32::MAX {
        u32::MAX
    } else {
        (t + 1) as u32
    };
    Span { start: Pos { line: t, character: 0 }, end: Pos { line: e, character: 0 } }
}

/// The whole of the 1-based line `line`.
pub fn whole_line(line: usize) -> (r: Span)
    ensures
        r == line_span(line as int),
{
    let z = if line == 0 {
        0
    } else {
        line - 1
    };
    let t: u32 = if z <= 4294967295usize {
        z as u32
    } else {
        0
    };
    let e: u32 = if t == 4294967295u32 {
        t
    } else {
        t + 1
    };
    Span { start: Pos { line: t, character: 0 }, end: Pos { line: e, character: 0 } }
}

/// Whether `u` begins with the `file://` scheme and authority marker.
pub open spec fn file_scheme(u: Seq<char>) -> bool {
    u.len() >= 7 && u.take(7) == "file://"@
}

/// `Url::from_file_path` of `path`, as text; `None` when the path cannot
/// be written as a `file://` URL.
///
/// Claimed: a URL it gives starts with `file://` (the serialization that
/// `from_file_path` builds on). The rest is not stated: it depends on the
/// platform's notion of an absolute path and on percent-encoding.
#[verifier::external_body]
pub(crate) fn file_uri(path: &str) -> (r: Option<String>)
    ensures
        r matches Some(u) ==> file_scheme(u@),
{
    tower_lsp::lsp_types::Url::from_file_path(path).ok().map(|u| u.to_string())
}

/// The citations of a line as `(ID, first byte, end byte)`.
pub open spec fn line_cites(line: Seq<char>) -> Seq<(Seq<char>, int, int)> {
    line_citation_spans(line).map_values(
        |ab: (int, int)| (line.subrange(ab.0, ab.1), byte_len(line.take(ab.0)) as int, byte_len(line.take(ab.1)) as int),
    )
}

/// `cs` describes the citations found on `line`.
pub open spec fn cites_of(cs: Seq<LineCitation>, line: Seq<char>) -> bool {
    &&& cs.len() == line_cites(line).len()
    &&& forall|k: int|
        0 <= k < cs.len() ==> {
            let (id, a, b) = line_cites(line)[k];
            &&& (#[trigger] cs[k]).id@ == id
            &&& cs[k].byte_range.start == a
            &&& cs[k].byte_range.end == b
        }
}

/// Index of the first citation from `k` on whose ID span holds byte `c`; -1
/// when none.
pub open spec fn first_cover(cs: Seq<(Seq<char>, int, int)>, c: int, k: int) -> int
    decreases cs.len() - k,
{
    if k < 0 || k >= cs.len() {
        -1
    } else if cs[k].1 <= c <= cs[k].2 {
        k
    } else {
        first_cover(cs, c, k + 1)
    }
}

/// The citation whose ID span holds byte `c` of `line`, if any.
pub open spec fn cite_at(line: Seq<char>, c: int) -> Option<(Seq<char>, int, int)> {
    let k = first_cover(line_cites(line), c, 0);
    if k == -1 {
        None
    } else {
        Some(line_cites(line)[k])
    }
}

/// First byte of the ID of a spec line.
pub open spec fn def_start(line: Seq<char>) -> int {
    byte_len(line.take(8)) as int
}

/// End byte of the ID of a spec line.
pub open spec fn def_end(line: Seq<char>) -> int {
    byte_len(line.take(run_end(line, 8))) as int
}

/// `line` defines a spec and byte `c` lies on its ID.
pub open spec fn def_at(line: Seq<char>, c: int) -> bool {
    is_spec_line(line) && def_start(line) <= c <= def_end(line)
}

/// The spec ID under byte `c` of `line`: a citation's, else the ID of the
/// spec the line defines.
pub open spec fn id_at(line: Seq<char>, c: int) -> Option<Seq<char>> {
    match cite_at(line, c) {
        Some(t) => Some(t.0),
        None => if def_at(line, c) {
            Some(spec_line_id(line))
        } else {
            None
        },
    }
}

/// The line of `text` at `pos`, if there is one.
pub open spec fn line_of(text: Seq<char>, pos: Pos) -> Option<Seq<char>> {
    let ls = lines_of(text);
    if (pos.line as int) < ls.len() {
        Some(ls[pos.line as int])
    } else {
        None
    }
}

/// The spec ID under the cursor, if any.
pub open spec fn id_at_position(text: Seq<char>, pos: Pos) -> Option<Seq<char>> {
    match line_of(text, pos) {
        Some(line) => id_at(line, pos.character as int),
        None => None,
    }
}

/// The line at index `line` of `text`, if there is one.
pub fn line_at(text: &str, line: u32) -> (r: Option<String>)
    ensures
        r matches Some(s) ==> line_of(text@, Pos { line, character: 0 }) == Some(s@),
        r is None ==> line_of(text@, Pos { line, character: 0 }) is None,
{
    let lines = content_lines(text);
    let idx = line as usize;
    if idx < lines.len() {
        Some(lines[idx].clone())
    } else {
        None
    }
}

/// The line of `text` at `pos`.
fn line_at_pos(text: &str, pos: Pos) -> (r: Option<String>)
    ensures
        r matches Some(s) ==> line_of(text@, pos) == Some(s@),
        r is None ==> line_of(text@, pos) is None,
{
    line_at(text, pos.line)
}

/// Index of the first citation whose ID span holds byte `c`.
fn cover_index(cs: &Vec<LineCitation>, line: Ghost<Seq<char>>, c: usize) -> (r: Option<usize>)
    requires
        cites_of(cs@, line@),
    ensures
        r matches Some(k) ==> first_cover(line_cites(line@), c as int, 0) == k && k < cs@.len(),
        r is None ==> first_cover(line_cites(line@), c as int, 0) == -1,
{
    let mut k: usize = 0;
    while k < cs.len()
        invariant
            0 <= k <= cs@.len(),
            cites_of(cs@, line@),
            first_cover(line_cites(line@), c as int, 0) == first_cover(line_cites(line@), c as int, k as int),
        decreases cs@.len() - k,
    {
        if cs[k].byte_range.start <= c && c <= cs[k].byte_range.end {
            return Some(k);
        }
        k = k + 1;
    }
    None
}

/// The citation on `line` whose ID span holds byte `c`.
fn citation_under(line: &str, c: usize) -> (r: Option<LineCitation>)
    ensures
        r matches Some(lc) ==> cite_at(line@, c as int) == Some((lc.id@, lc.byte_range.start as int, lc.byte_range.end as int)),
        r is None ==> cite_at(line@, c as int) is None,
{
    let mut cs = find_citations_in_line(line);
    assert(cites_of(cs@, line@));
    match cover_index(&cs, Ghost(line@), c) {
        Some(k) => {
            let lc = cs.remove(k);
            Some(lc)
        },
        None => None,
    }
}

/// Locate the spec ID at the cursor: inside a `@spec` citation, or inside
/// the `**ID**` span of a spec-file line.
pub fn spec_id_at_cursor(text: &str, position: Pos) -> (r: Option<SpecId>)
    ensures
        r matches Some(id) ==> id_at_position(text@, position) == Some(id@),
        r is None ==> id_at_position(text@, position) is None,
{
    let line = match line_at_pos(text, position) {
        Some(l) => l,
        None => return None,
    };
    let c = position.character as usize;
    match citation_under(line.as_str(), c) {
        Some(lc) => return Some(lc.id),
        None => {},
    }
    match find_spec_line_match(line.as_str()) {
        Some(m) => {
            if m.id_byte_range.start <= c && c <= m.id_byte_range.end {
                Some(m.id)
            } else {
                None
            }
        },
        None => None,
    }
}

/// Index of the first line of `lines` from `j` on with ID `id`; -1 when none.
pub open spec fn line_with(lines: Seq<SpecLine>, id: Seq<char>, j: int) -> int
    decreases lines.len() - j,
{
    if j < 0 || j >= lines.len() {
        -1
    } else if lines[j].id@ == id {
        j
    } else {
        line_with(lines, id, j + 1)
    }
}

/// The first spec file (from `i` on) defining `id`, with the line in it.
pub open spec fn definition_of(files: Seq<SpecFile>, id: Seq<char>, i: int) -> Option<(int, int)>
    decreases files.len() - i,
{
    if i < 0 || i >= files.len() {
        None
    } else if line_with(files[i].specs@, id, 0) != -1 {
        Some((i, line_with(files[i].specs@, id, 0)))
    } else {
        definition_of(files, id, i + 1)
    }
}

/// Where `id` is defined: the first spec file holding it, and its line there.
pub fn find_definition(files: &Vec<SpecFile>, id: &SpecId) -> (r: Option<(usize, usize)>)
    ensures
        r matches Some(d) ==> definition_of(files@, id@, 0) == Some((d.0 as int, d.1 as int)) && d.0
            < files@.len() && d.1 < files@[d.0 as int].specs@.len(),
        r is None ==> definition_of(files@, id@, 0) is None,
{
    let mut i: usize = 0;
    while i < files.len()
        invariant
            0 <= i <= files@.len(),
            definition_of(files@, id@, 0) == definition_of(files@, id@, i as int),
        decreases files@.len() - i,
    {
        let lines = &files[i].specs;
        let mut j: usize = 0;
        while j < lines.len()
            invariant
                0 <= i < files@.len(),
                lines@ == files@[i as int].specs@,
                0 <= j <= lines@.len(),
                definition_of(files@, id@, 0) == definition_of(files@, id@, i as int),
                line_with(lines@, id@, 0) == line_with(lines@, id@, j as int),
            decreases lines@.len() - j,
        {
            if lines[j].id.same(id) {
                return Some((i, j));
            }
            j = j + 1;
        }
        i = i + 1;
    }
    None
}

/// The definition site targeted from the cursor: a citation under the
/// cursor, and the first file and line defining its ID.
pub open spec fn definition_target(files: Seq<SpecFile>, text: Seq<char>, pos: Pos) -> Option<(Seq<char>, usize)> {
    match line_of(text, pos) {
        None => None,
        Some(line) => match cite_at(line, pos.character as int) {
            None => None,
            Some(t) => match definition_of(files, t.0, 0) {
                None => None,
                Some(d) => Some((files[d.0].path@, files[d.0].specs@[d.1].line)),
            },
        },
    }
}

/// The file and 1-based line that define the spec cited under the cursor.
pub fn definition_site(repo_specs: &Vec<SpecFile>, text: &str, position: Pos) -> (r: Option<(String, usize)>)
    ensures
        r matches Some(t) ==> definition_target(repo_specs@, text@, position) == Some((t.0@, t.1)),
        r is None ==> definition_target(repo_specs@, text@, position) is None,
{
    let line = match line_at_pos(text, position) {
        Some(l) => l,
        None => return None,
    };
    let c = position.character as usize;
    let lc = match citation_under(line.as_str(), c) {
        Some(lc) => lc,
        None => return None,
    };
    match find_definition(repo_specs, &lc.id) {
        Some((i, j)) => Some((repo_specs[i].path.clone(), repo_specs[i].specs[j].line)),
        None => None,
    }
}

/// Go to definition: the whole defining line of the spec cited under the
/// cursor; `None` when there is none or its file has no `file://` URL.
pub fn definition_at_position(repo_specs: &Vec<SpecFile>, text: &str, position: Pos) -> (r: Option<FileLocation>)
    ensures
        r matches Some(loc) ==> definition_target(repo_specs@, text@, position) matches Some(t) && loc.range
            == line_span(t.1 as int),
        definition_target(repo_specs@, text@, position) is None ==> r is None,
        r matches Some(loc) ==> file_scheme(loc.uri@),
{
    let (path, line) = match definition_site(repo_specs, text, position) {
        Some(t) => t,
        None => return None,
    };
    match file_uri(path.as_str()) {
        Some(uri) => Some(FileLocation { uri, range: whole_line(line) }),
        None => None,
    }
}

/// Hover wording of a spec status.
pub open spec fn status_label_text(s: SpecStatus) -> Seq<char> {
    match s {
        SpecStatus::Implemented => "`[x]` implemented"@,
        SpecStatus::Open => "`[ ]` open"@,
        SpecStatus::Deferred => "`[D]` deferred"@,
    }
}

/// Hover wording of a spec status.
pub fn status_label(s: SpecStatus) -> (r: &'static str)
    ensures
        r@ == status_label_text(s),
{
    match s {
        SpecStatus::Implemented => "`[x]` implemented",
        SpecStatus::Open => "`[ ]` open",
        SpecStatus::Deferred => "`[D]` deferred",
    }
}

/// Markdown text with the span it describes.
#[derive(Debug, Clone)]
pub struct HoverInfo {
    pub markdown: String,
    pub range: Span,
}

/// Hover body for a citation of the spec defined by `line` in the file at `path`.
pub open spec fn citation_markdown(root: Seq<char>, id: Seq<char>, line: SpecLine, path: Seq<char>) -> Seq<char> {
    "**`"@ + id + "`** — "@ + status_label_text(line.status) + "\n\n> "@ + line.text@ + "\n\nDefined at `"@
        + relative_to(path, root) + ":"@ + decimal(line.line as nat) + "`"@
}

/// Hover body for a citation.
pub fn render_citation_markdown(root: &str, id: &SpecId, line: &SpecLine, path: &str) -> (r: String)
    ensures
        r@ == citation_markdown(root@, id@, *line, path@),
{
    let mut out = cat("**`", id.as_str());
    out.append("`** — ");
    out.append(status_label(line.status));
    out.append("\n\n> ");
    out.append(line.text.as_str());
    out.append("\n\nDefined at `");
    let rel = display_relative(path, root);
    out.append(rel.as_str());
    out.append(":");
    let n = usize_string(line.line);
    out.append(n.as_str());
    out.append("`");
    out
}

/// The citations of `id`, in order.
pub open spec fn citations_of(cites: Seq<SpecCitation>, id: Seq<char>) -> Seq<SpecCitation> {
    cites.filter(|c: SpecCitation| c.id@ == id)
}

/// One `\n- `path:line`` entry per citation.
pub open spec fn cited_list(root: Seq<char>, cs: Seq<SpecCitation>) -> Seq<char>
    decreases cs.len(),
{
    if cs.len() == 0 {
        Seq::empty()
    } else {
        cited_list(root, cs.drop_last()) + "\n- `"@ + relative_to(cs.last().file@, root) + ":"@ + decimal(
            cs.last().line as nat,
        ) + "`"@
    }
}

/// Hover body on a spec definition line with status `s` and text `text`,
/// cited by `cs`.
pub open spec fn definition_markdown(root: Seq<char>, id: Seq<char>, s: SpecStatus, text: Seq<char>, cs: Seq<SpecCitation>) -> Seq<char> {
    let head = "**`"@ + id + "`** — "@ + status_label_text(s) + "\n\n> "@ + text;
    if cs.len() == 0 {
        head + "\n\nNo `@spec` citations found in source."@
    } else {
        head + "\n\nCited in "@ + decimal(cs.len()) + " place"@ + (if cs.len() != 1 {
            "s"@
        } else {
            Seq::empty()
        }) + ":"@ + cited_list(root, cs)
    }
}

/// Hover body on a spec definition line.
pub fn render_definition_markdown(
    root: &str,
    id: &SpecId,
    status: SpecStatus,
    text: &str,
    cs: &Vec<SpecCitation>,
) -> (r: String)
    ensures
        r@ == definition_markdown(root@, id@, status, text@, cs@),
{
    let mut out = cat("**`", id.as_str());
    out.append("`** — ");
    out.append(status_label(status));
    out.append("\n\n> ");
    out.append(text);
    if cs.len() == 0 {
        out.append("\n\nNo `@spec` citations found in source.");
        return out;
    }
    out.append("\n\nCited in ");
    let n = usize_string(cs.len());
    out.append(n.as_str());
    out.append(" place");
    if cs.len() != 1 {
        out.append("s");
    }
    out.append(":");
    let ghost head = out@;
    let mut k: usize = 0;
    while k < cs.len()
        invariant
            0 <= k <= cs@.len(),
            out@ == head + cited_list(root@, cs@.take(k as int)),
        decreases cs@.len() - k,
    {
        let c = &cs[k];
        out.append("\n- `");
        let rel = display_relative(c.file.as_str(), root);
        out.append(rel.as_str());
        out.append(":");
        let n = usize_string(c.line);
        out.append(n.as_str());
        out.append("`");
        assert(cs@.take(k + 1).drop_last() =~= cs@.take(k as int));
        k = k + 1;
    }
    assert(cs@.take(k as int) =~= cs@);
    if cs.len() == 1 {
        assert(out@ =~= definition_markdown(root@, id@, status, text@, cs@));
    } else {
        assert(out@ =~= definition_markdown(root@, id@, status, text@, cs@));
    }
    out
}

/// The hover on a citation under the cursor.
pub open spec fn citation_hover_spec(root: Seq<char>, files: Seq<SpecFile>, text: Seq<char>, pos: Pos) -> Option<(Seq<char>, Span)> {
    match line_of(text, pos) {
        None => None,
        Some(line) => match cite_at(line, pos.character as int) {
            None => None,
            Some(t) => match definition_of(files, t.0, 0) {
                None => None,
                Some(d) => Some(
                    (
                        citation_markdown(root, t.0, files[d.0].specs@[d.1], files[d.0].path@),
                        byte_span(pos.line, t.1, t.2),
                    ),
                ),
            },
        },
    }
}

/// The hover on a spec definition under the cursor.
pub open spec fn definition_hover_spec(root: Seq<char>, cites: Seq<SpecCitation>, text: Seq<char>, pos: Pos) -> Option<(Seq<char>, Span)> {
    match line_of(text, pos) {
        None => None,
        Some(line) => if def_at(line, pos.character as int) {
            let id = spec_line_id(line);
            Some(
                (
                    definition_markdown(
                        root,
                        id,
                        marker_status(line[3]),
                        spec_line_text(line),
                        citations_of(cites, id),
                    ),
                    byte_span(pos.line, def_start(line), def_end(line)),
                ),
            )
        } else {
            None
        },
    }
}

/// The hover at the cursor: on a citation, else on a spec definition.
pub open spec fn hover_spec(root: Seq<char>, files: Seq<SpecFile>, cites: Seq<SpecCitation>, text: Seq<char>, pos: Pos) -> Option<(Seq<char>, Span)> {
    match citation_hover_spec(root, files, text, pos) {
        Some(h) => Some(h),
        None => definition_hover_spec(root, cites, text, pos),
    }
}

/// A hover with markdown `body` over bytes `start..end` of `line`.
pub fn make_hover(body: String, line: u32, start: usize, end: usize) -> (r: HoverInfo)
    ensures
        r.markdown@ == body@,
        r.range == byte_span(line, start as int, end as int),
{
    HoverInfo { markdown: body, range: byte_range_to_lsp_range(line, start, end) }
}

/// Hover when the cursor sits on `@spec SPEC-ID`.
pub fn citation_hover(repo: &crate::repo::LidRepo, text: &str, position: Pos) -> (r: Option<HoverInfo>)
    ensures
        r matches Some(h) ==> citation_hover_spec(repo.root@, repo.specs@, text@, position) == Some(
            (h.markdown@, h.range),
        ),
        r is None ==> citation_hover_spec(repo.root@, repo.specs@, text@, position) is None,
{
    let line = match line_at_pos(text, position) {
        Some(l) => l,
        None => return None,
    };
    let c = position.character as usize;
    let lc = match citation_under(line.as_str(), c) {
        Some(lc) => lc,
        None => return None,
    };
    match find_definition(&repo.specs, &lc.id) {
        Some((i, j)) => {
            let f = &repo.specs[i];
            let body = render_citation_markdown(repo.root.as_str(), &lc.id, &f.specs[j], f.path.as_str());
            Some(make_hover(body, position.line, lc.byte_range.start, lc.byte_range.end))
        },
        None => None,
    }
}

/// The citations of `id`, in order.
pub fn citations_for(cites: &Vec<SpecCitation>, id: &SpecId) -> (r: Vec<SpecCitation>)
    ensures
        r@.len() == citations_of(cites@, id@).len(),
        forall|k: int|
            0 <= k < r@.len() ==> (#[trigger] r@[k]).file@ == citations_of(cites@, id@)[k].file@ && r@[k].line
                == citations_of(cites@, id@)[k].line,
{
    let mut out: Vec<SpecCitation> = Vec::new();
    let mut k: usize = 0;
    while k < cites.len()
        invariant
            0 <= k <= cites@.len(),
            out@.len() == citations_of(cites@.take(k as int), id@).len(),
            forall|q: int|
                0 <= q < out@.len() ==> (#[trigger] out@[q]).file@ == citations_of(cites@.take(k as int), id@)[q].file@
                    && out@[q].line == citations_of(cites@.take(k as int), id@)[q].line,
        decreases cites@.len() - k,
    {
        let ghost pre = cites@.take(k as int);
        assert(cites@.take(k + 1) =~= pre.push(cites@[k as int]));
        proof {
            pre.lemma_filter_push(cites@[k as int], |c: SpecCitation| c.id@ == id@);
        }
        let c = &cites[k];
        if c.id.same(id) {
            out.push(SpecCitation { id: c.id.clone(), file: c.file.clone(), line: c.line, kind: c.kind });
        }
        k = k + 1;
    }
    assert(cites@.take(k as int) =~= cites@);
    out
}

/// Hover when the cursor sits on `**SPEC-ID**` in a spec line.
pub fn definition_hover(repo: &crate::repo::LidRepo, text: &str, position: Pos) -> (r: Option<HoverInfo>)
    ensures
        r matches Some(h) ==> definition_hover_spec(repo.root@, repo.citations@, text@, position) == Some(
            (h.markdown@, h.range),
        ),
        r is None ==> definition_hover_spec(repo.root@, repo.citations@, text@, position) is None,
{
    let line = match line_at_pos(text, position) {
        Some(l) => l,
        None => return None,
    };
    let c = position.character as usize;
    let m = match find_spec_line_match(line.as_str()) {
        Some(m) => m,
        None => return None,
    };
    if c < m.id_byte_range.start || c > m.id_byte_range.end {
        return None;
    }
    let cs = citations_for(&repo.citations, &m.id);
    let body = render_definition_markdown(repo.root.as_str(), &m.id, m.status, m.text.as_str(), &cs);
    proof {
        let want = citations_of(repo.citations@, m.id@);
        assert forall|k: int| 0 <= k < cs@.len() implies cs@[k].file@ == want[k].file@ && cs@[k].line == want[k].line by {}
        assert(cited_list(repo.root@, cs@) == cited_list(repo.root@, want)) by {
            lemma_cited_list_same(repo.root@, cs@, want);
        }
    }
    Some(make_hover(body, position.line, m.id_byte_range.start, m.id_byte_range.end))
}

proof fn lemma_cited_list_same(root: Seq<char>, a: Seq<SpecCitation>, b: Seq<SpecCitation>)
    requires
        a.len() == b.len(),
        forall|k: int| 0 <= k < a.len() ==> (#[trigger] a[k]).file@ == b[k].file@ && a[k].line == b[k].line,
    ensures
        cited_list(root, a) == cited_list(root, b),
    decreases a.len(),
{
    if a.len() > 0 {
        lemma_cited_list_same(root, a.drop_last(), b.drop_last());
    }
}

/// Hover at the cursor: a citation's spec first, else a definition's citations.
pub fn hover_at_position(repo: &crate::repo::LidRepo, text: &str, position: Pos) -> (r: Option<HoverInfo>)
    ensures
        r matches Some(h) ==> hover_spec(repo.root@, repo.specs@, repo.citations@, text@, position) == Some(
            (h.markdown@, h.range),
        ),
        r is None ==> hover_spec(repo.root@, repo.specs@, repo.citations@, text@, position) is None,
{
    match citation_hover(repo, text, position) {
        Some(h) => Some(h),
        None => definition_hover(repo, text, position),
    }
}

} // verus!
