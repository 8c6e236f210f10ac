//! Diagnostics for an open buffer.
//!
//! * Source and test buffers: each `@spec` citation of an ID that no spec
//!   file defines is an error (`reverse-orphan`).
//! * Spec-file buffers: an `[x]` spec line that nothing cites is an error
//!   (`coverage`); an `[ ]` or `[D]` line that is cited is a warning
//!   (`spec-status`). The range is the ID inside `**…**`.

use vstd::prelude::*;

use crate::checks::reverse_orphan::{defined_in, is_defined};
use crate::checks::{flat, lemma_flat_all, lemma_flat_forall, lemma_flat_len_at_most_one, lemma_flat_len_count, lemma_flat_take};
use crate::lsp::{byte_range_to_lsp_range, byte_span, cites_of, def_end, def_start, line_cites, sat32, saturate_u32, Span};
use crate::model::{SpecCitation, SpecStatus};
use crate::parse::markdown::{content_lines, find_spec_line_match, is_spec_line, marker_status, spec_line_id};
use crate::parse::source::find_citations_in_line;
use crate::repo::LidRepo;
use crate::text::{cat, decimal, lines_of, usize_string};

verus! {

/// How serious a diagnostic is.
#[derive(Debug, Clone, Copy, PartialEq, Eq, Structural)]
pub enum DiagSeverity {
    Error,
    Warning,
}

/// One diagnostic on the buffer.
#[derive(Debug, Clone)]
pub struct Diag {
    pub range: Span,
    pub severity: DiagSeverity,
    pub code: String,
    pub source: String,
    pub message: String,
}

/// A diagnostic as plain values.
pub struct DiagView {
    pub range: Span,
    pub severity: DiagSeverity,
    pub code: Seq<char>,
    pub source: Seq<char>,
    pub message: Seq<char>,
}

/// The diagnostic's plain values.
pub open spec fn diag_view(d: Diag) -> DiagView {
    DiagView { range: d.range, severity: d.severity, code: d.code@, source: d.source@, message: d.message@ }
}

/// The diagnostics' plain values.
pub open spec fn diag_views(ds: Seq<Diag>) -> Seq<DiagView> {
    ds.map_values(|d: Diag| diag_view(d))
}

/// Diagnostics for the citations on line `idx` (text `line`).
pub open spec fn orphan_line_diags(repo: LidRepo, idx: int, line: Seq<char>) -> Seq<DiagView> {
    let cs = line_cites(line);
    flat(Seq::new(
        cs.len(),
        |k: int|
            if defined_in(repo.specs@, cs[k].0) {
                Seq::empty()
            } else {
                seq![
                    DiagView {
                        range: byte_span(sat32(idx), cs[k].1, cs[k].2),
                        severity: DiagSeverity::Error,
                        code: "reverse-orphan"@,
                        source: "lid-lsp"@,
                        message: "`@spec "@ + cs[k].0 + "` references a spec ID that is not defined in any spec file"@,
                    },
                ]
            },
    ))
}

/// Diagnostics of a source buffer: undefined cited spec IDs, line by line.
pub open spec fn buffer_diags(repo: LidRepo, text: Seq<char>) -> Seq<DiagView> {
    let ls = lines_of(text);
    flat(Seq::new(ls.len(), |i: int| orphan_line_diags(repo, i, ls[i])))
}

/// How many citations name `id`.
pub open spec fn cite_count(cites: Seq<SpecCitation>, id: Seq<char>) -> nat
    decreases cites.len(),
{
    if cites.len() == 0 {
        0
    } else {
        cite_count(cites.drop_last(), id) + if cites.last().id@ == id {
            1nat
        } else {
            0nat
        }
    }
}

/// Diagnostics for line `idx` (text `line`) of a spec-file buffer.
pub open spec fn spec_line_diags(repo: LidRepo, idx: int, line: Seq<char>) -> Seq<DiagView> {
    if !is_spec_line(line) {
        Seq::empty()
    } else {
        let id = spec_line_id(line);
        let n = cite_count(repo.citations@, id);
        let range = byte_span(sat32(idx), def_start(line), def_end(line));
        let s = marker_status(line[3]);
        if s == SpecStatus::Implemented && n == 0 {
            seq![
                DiagView {
                    range,
                    severity: DiagSeverity::Error,
                    code: "coverage"@,
                    source: "lid-lsp"@,
                    message: "`"@ + id
                        + "` is marked implemented (`[x]`) but has no `@spec` citations in any source or test file"@,
                },
            ]
        } else if s != SpecStatus::Implemented && n > 0 {
            seq![
                DiagView {
                    range,
                    severity: DiagSeverity::Warning,
                    code: "spec-status"@,
                    source: "lid-lsp"@,
                    message: "`"@ + id + "` is marked `"@ + (if s == SpecStatus::Open {
                        "[ ]"@
                    } else {
                        "[D]"@
                    }) + "` but has "@ + decimal(n) + " `@spec` citation"@ + (if n == 1 {
                        Seq::empty()
                    } else {
                        "s"@
                    }) + " — mark it `[x]` or remove the annotations"@,
                },
            ]
        } else {
            Seq::empty()
        }
    }
}

/// Diagnostics of a spec-file buffer, line by line.
pub open spec fn spec_buffer_diags(repo: LidRepo, text: Seq<char>) -> Seq<DiagView> {
    let ls = lines_of(text);
    flat(Seq::new(ls.len(), |i: int| spec_line_diags(repo, i, ls[i])))
}

/// A spec-file buffer gets at most one diagnostic per line: an error
/// coded `coverage` or a warning coded `spec-status`, from `lid-lsp`.
pub proof fn law_spec_buffer_one_diag_per_line(repo: LidRepo, text: Seq<char>)
    ensures
        spec_buffer_diags(repo, text).len() <= lines_of(text).len(),
        forall|k: int|
            0 <= k < spec_buffer_diags(repo, text).len() ==> {
                let d = #[trigger] spec_buffer_diags(repo, text)[k];
                &&& d.source == "lid-lsp"@
                &&& (d.severity == DiagSeverity::Error && d.code == "coverage"@) || (d.severity
                    == DiagSeverity::Warning && d.code == "spec-status"@)
            },
{
    let ls = lines_of(text);
    let bs = Seq::new(ls.len(), |i: int| spec_line_diags(repo, i, ls[i]));
    let p = |d: DiagView|
        d.source == "lid-lsp"@ && ((d.severity == DiagSeverity::Error && d.code == "coverage"@) || (d.severity
            == DiagSeverity::Warning && d.code == "spec-status"@));
    assert forall|i: int| 0 <= i < bs.len() implies (#[trigger] bs[i]).len() <= 1 by {
        assert(bs[i] == spec_line_diags(repo, i, ls[i]));
    }
    lemma_flat_len_at_most_one(bs);
    assert forall|i: int, k: int| 0 <= i < bs.len() && 0 <= k < bs[i].len() implies p(#[trigger] bs[i][k]) by {
        assert(bs[i] == spec_line_diags(repo, i, ls[i]));
    }
    lemma_flat_forall(bs, p);
}

/// A spec line gets a diagnostic: marked implemented with no citation,
/// or open or deferred with some.
pub open spec fn spec_line_flagged(repo: LidRepo, line: Seq<char>) -> bool {
    &&& is_spec_line(line)
    &&& {
        let n = cite_count(repo.citations@, spec_line_id(line));
        let s = marker_status(line[3]);
        (s == SpecStatus::Implemented && n == 0) || (s != SpecStatus::Implemented && n > 0)
    }
}

/// A spec-file buffer gets exactly one diagnostic per flagged spec line,
/// in line order: on line `i` it spans the spec ID, and it is a
/// `coverage` error for an implemented spec, a `spec-status` warning
/// otherwise. Other lines get none.
pub proof fn law_spec_buffer_diag_count(repo: LidRepo, text: Seq<char>)
    ensures
        spec_buffer_diags(repo, text).len() == lines_of(text).filter(|l: Seq<char>| spec_line_flagged(repo, l)).len(),
        forall|i: int|
            0 <= i < lines_of(text).len() ==> (#[trigger] spec_line_diags(repo, i, lines_of(text)[i])).len() == (
            if spec_line_flagged(repo, lines_of(text)[i]) {
                1nat
            } else {
                0nat
            }),
        forall|i: int|
            #![trigger spec_line_diags(repo, i, lines_of(text)[i])]
            0 <= i < lines_of(text).len() && spec_line_flagged(repo, lines_of(text)[i]) ==> {
                let l = lines_of(text)[i];
                let d = spec_line_diags(repo, i, l)[0];
                &&& d.range == byte_span(sat32(i), def_start(l), def_end(l))
                &&& marker_status(l[3]) == SpecStatus::Implemented ==> d.severity == DiagSeverity::Error && d.code
                    == "coverage"@
                &&& marker_status(l[3]) != SpecStatus::Implemented ==> d.severity == DiagSeverity::Warning && d.code
                    == "spec-status"@
            },
{
    let ls = lines_of(text);
    let bs = Seq::new(ls.len(), |i: int| spec_line_diags(repo, i, ls[i]));
    assert forall|j: int| 0 <= j < ls.len() implies (#[trigger] bs[j]).len() == (if spec_line_flagged(repo, ls[j]) {
        1nat
    } else {
        0nat
    }) by {
        assert(bs[j] == spec_line_diags(repo, j, ls[j]));
    }
    lemma_flat_len_count(ls, bs, |l: Seq<char>| spec_line_flagged(repo, l));
}

fn orphan_line_exec(repo: &LidRepo, idx: usize, line: &str) -> (r: Vec<Diag>)
    ensures
        diag_views(r@) == orphan_line_diags(*repo, idx as int, line@),
{
    let cs = find_citations_in_line(line);
    assert(cites_of(cs@, line@));
    let ghost lc = line_cites(line@);
    let ghost blocks = Seq::new(
        lc.len(),
        |k: int|
            if defined_in(repo.specs@, lc[k].0) {
                Seq::empty()
            } else {
                seq![
                    DiagView {
                        range: byte_span(sat32(idx as int), lc[k].1, lc[k].2),
                        severity: DiagSeverity::Error,
                        code: "reverse-orphan"@,
                        source: "lid-lsp"@,
                        message: "`@spec "@ + lc[k].0 + "` references a spec ID that is not defined in any spec file"@,
                    },
                ]
            },
    );
    let line_num = saturate_u32(idx);
    let mut out: Vec<Diag> = Vec::new();
    let mut k: usize = 0;
    while k < cs.len()
        invariant
            0 <= k <= cs@.len(),
            cites_of(cs@, line@),
            lc == line_cites(line@),
            line_num == sat32(idx as int),
            blocks == Seq::new(
                lc.len(),
                |k: int|
                    if defined_in(repo.specs@, lc[k].0) {
                        Seq::empty()
                    } else {
                        seq![
                            DiagView {
                                range: byte_span(sat32(idx as int), lc[k].1, lc[k].2),
                                severity: DiagSeverity::Error,
                                code: "reverse-orphan"@,
                                source: "lid-lsp"@,
                                message: "`@spec "@ + lc[k].0
                                    + "` references a spec ID that is not defined in any spec file"@,
                            },
                        ]
                    },
            ),
            diag_views(out@) == flat(blocks.take(k as int)),
        decreases cs@.len() - k,
    {
        proof {
            lemma_flat_take(blocks, k as int);
        }
        let c = &cs[k];
        let ghost before = diag_views(out@);
        if !is_defined(&repo.specs, &c.id) {
            let mut msg = cat("`@spec ", c.id.as_str());
            msg.append("` references a spec ID that is not defined in any spec file");
            let d = Diag {
                range: byte_range_to_lsp_range(line_num, c.byte_range.start, c.byte_range.end),
                severity: DiagSeverity::Error,
                code: String::from_str("reverse-orphan"),
                source: String::from_str("lid-lsp"),
                message: msg,
            };
            out.push(d);
            assert(diag_views(out@) =~= before.push(diag_view(d)));
        }
        assert(before + blocks[k as int] =~= diag_views(out@));
        k = k + 1;
    }
    proof {
        lemma_flat_all(blocks);
    }
    out
}

/// Diagnostics for a source buffer: every `@spec` citation of an ID that
/// no spec file defines.
pub fn diagnostics_for_buffer(repo: &LidRepo, text: &str) -> (r: Vec<Diag>)
    ensures
        diag_views(r@) == buffer_diags(*repo, text@),
{
    let lines = content_lines(text);
    let ghost ls = lines_of(text@);
    let ghost blocks = Seq::new(ls.len(), |i: int| orphan_line_diags(*repo, i, ls[i]));
    let mut out: Vec<Diag> = Vec::new();
    let mut i: usize = 0;
    while i < lines.len()
        invariant
            0 <= i <= lines@.len(),
            ls == lines_of(text@),
            lines@.len() == ls.len(),
            forall|j: int| 0 <= j < lines@.len() ==> (#[trigger] lines@[j])@ == ls[j],
            blocks == Seq::new(ls.len(), |i: int| orphan_line_diags(*repo, i, ls[i])),
            diag_views(out@) == flat(blocks.take(i as int)),
        decreases lines@.len() - i,
    {
        proof {
            lemma_flat_take(blocks, i as int);
        }
        let more = orphan_line_exec(repo, i, lines[i].as_str());
        let ghost before = diag_views(out@);
        let mut more = more;
        out.append(&mut more);
        assert(diag_views(out@) =~= before + blocks[i as int]);
        i = i + 1;
    }
    proof {
        lemma_flat_all(blocks);
    }
    out
}

fn count_citations(cites: &Vec<SpecCitation>, id: &crate::ids::SpecId) -> (r: usize)
    ensures
        r == cite_count(cites@, id@),
{
    let mut n: usize = 0;
    let mut k: usize = 0;
    while k < cites.len()
        invariant
            0 <= k <= cites@.len(),
            n == cite_count(cites@.take(k as int), id@),
            n <= k,
        decreases cites@.len() - k,
    {
        assert(cites@.take(k + 1).drop_last() =~= cites@.take(k as int));
        if cites[k].id.same(id) {
            n = n + 1;
        }
        k = k + 1;
    }
    assert(cites@.take(k as int) =~= cites@);
    n
}

fn spec_line_exec(repo: &LidRepo, idx: usize, line: &str) -> (r: Vec<Diag>)
    ensures
        diag_views(r@) == spec_line_diags(*repo, idx as int, line@),
{
    let mut out: Vec<Diag> = Vec::new();
    let m = match find_spec_line_match(line) {
        Some(m) => m,
        None => return out,
    };
    let n = count_citations(&repo.citations, &m.id);
    let range = byte_range_to_lsp_range(saturate_u32(idx), m.id_byte_range.start, m.id_byte_range.end);
    match m.status {
        SpecStatus::Implemented => {
            if n == 0 {
                let mut msg = cat("`", m.id.as_str());
                msg.append("` is marked implemented (`[x]`) but has no `@spec` citations in any source or test file");
                out.push(
                    Diag {
                        range,
                        severity: DiagSeverity::Error,
                        code: String::from_str("coverage"),
                        source: String::from_str("lid-lsp"),
                        message: msg,
                    },
                );
            }
        },
        _ => {
            if n > 0 {
                let marker = if m.status == SpecStatus::Open {
                    "[ ]"
                } else {
                    "[D]"
                };
                let mut msg = cat("`", m.id.as_str());
                msg.append("` is marked `");
                msg.append(marker);
                msg.append("` but has ");
                let k = usize_string(n);
                msg.append(k.as_str());
                msg.append(" `@spec` citation");
                if n != 1 {
                    msg.append("s");
                }
                msg.append(" — mark it `[x]` or remove the annotations");
                out.push(
                    Diag {
                        range,
                        severity: DiagSeverity::Warning,
                        code: String::from_str("spec-status"),
                        source: String::from_str("lid-lsp"),
                        message: msg,
                    },
                );
            }
        },
    }
    assert(diag_views(out@) =~= spec_line_diags(*repo, idx as int, line@));
    out
}

/// Diagnostics for a spec-file buffer: `[x]` lines nothing cites, and
/// `[ ]` / `[D]` lines something cites.
pub fn diagnostics_for_spec_buffer(repo: &LidRepo, text: &str) -> (r: Vec<Diag>)
    ensures
        diag_views(r@) == spec_buffer_diags(*repo, text@),
{
    let lines = content_lines(text);
    let ghost ls = lines_of(text@);
    let ghost blocks = Seq::new(ls.len(), |i: int| spec_line_diags(*repo, i, ls[i]));
    let mut out: Vec<Diag> = Vec::new();
    let mut i: usize = 0;
    while i < lines.len()
        invariant
            0 <= i <= lines@.len(),
            ls == lines_of(text@),
            lines@.len() == ls.len(),
            forall|j: int| 0 <= j < lines@.len() ==> (#[trigger] lines@[j])@ == ls[j],
            blocks == Seq::new(ls.len(), |i: int| spec_line_diags(*repo, i, ls[i])),
            diag_views(out@) == flat(blocks.take(i as int)),
        decreases lines@.len() - i,
    {
        proof {
            lemma_flat_take(blocks, i as int);
        }
        let mut more = spec_line_exec(repo, i, lines[i].as_str());
        let ghost before = diag_views(out@);
        out.append(&mut more);
        assert(diag_views(out@) =~= before + blocks[i as int]);
        i = i + 1;
    }
    proof {
        lemma_flat_all(blocks);
    }
    out
}

} // verus!
