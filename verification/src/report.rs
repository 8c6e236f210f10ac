//! Reports of findings: the terminal report and the JSON summary counts.
//!
//! The terminal report groups findings by severity (errors, then warnings,
//! then info), orders each group by check and then by location, and ends
//! with the number of findings:
//!
//! ```text
//! ERRORS (1)
//!   src/auth.rs:42  [reverse-orphan]
//!     `@spec AUTH-999` references a spec ID that is not defined …
//!     → either add `AUTH-999` to a spec file, …
//!
//! 1 finding(s)
//! ```
//!
//! Colour comes from owo-colors; without colour the text is plain.

use vstd::prelude::*;

use owo_colors::{OwoColorize, Style};

use crate::checks::{check_id_name, views, CheckId, Finding, FindingView, Severity, severity_name};
use crate::lsp::rename::path_lt;
use crate::lsp::rename::path_less;
use crate::paths::{display_relative, path_eq, relative_to, same_path};
use crate::text::{cat, decimal, usize_string};

verus! {

/// Rendering options.
#[derive(Debug, Clone, Copy)]
pub struct RenderOptions {
    /// Whether to colour the output.
    pub color: bool,
}

/// A part of the report that gets its own colour.
#[derive(Debug, Clone, Copy, PartialEq, Eq, Structural)]
pub enum Paint {
    ErrorHeader,
    WarningHeader,
    InfoHeader,
    CheckLabel,
    LocationLabel,
    Remediation,
}

/// `text` between the ANSI escape that selects the graphic-rendition
/// `codes` and the one that resets them.
pub open spec fn ansi(codes: Seq<char>, text: Seq<char>) -> Seq<char> {
    seq!['\u{1b}', '['] + codes + seq!['m'] + text + seq!['\u{1b}', '[', '0', 'm']
}

/// The graphic-rendition codes of each part of the report: errors red
/// and bold, warnings yellow and bold, info blue and bold, check labels
/// dimmed, locations cyan, remediations green.
pub open spec fn paint_codes(paint: Paint) -> Seq<char> {
    match paint {
        Paint::ErrorHeader => seq!['3', '1', ';', '1'],
        Paint::WarningHeader => seq!['3', '3', ';', '1'],
        Paint::InfoHeader => seq!['3', '4', ';', '1'],
        Paint::CheckLabel => seq!['2'],
        Paint::LocationLabel => seq!['3', '6'],
        Paint::Remediation => seq!['3', '2'],
    }
}

/// owo-colors: `text.style(Style::new().red().bold())`, displayed. Its
/// `Display` writes the style's prefix `ESC[31;1m`, the text, and the
/// reset `ESC[0m`.
#[verifier::external_body]
fn style_red_bold(text: &str) -> (r: String)
    ensures
        r@ == ansi(seq!['3', '1', ';', '1'], text@),
{
    text.style(Style::new().red().bold()).to_string()
}

/// owo-colors: `text.style(Style::new().yellow().bold())`, displayed:
/// `ESC[33;1m`, the text, `ESC[0m`.
#[verifier::external_body]
fn style_yellow_bold(text: &str) -> (r: String)
    ensures
        r@ == ansi(seq!['3', '3', ';', '1'], text@),
{
    text.style(Style::new().yellow().bold()).to_string()
}

/// owo-colors: `text.style(Style::new().blue().bold())`, displayed:
/// `ESC[34;1m`, the text, `ESC[0m`.
#[verifier::external_body]
fn style_blue_bold(text: &str) -> (r: String)
    ensures
        r@ == ansi(seq!['3', '4', ';', '1'], text@),
{
    text.style(Style::new().blue().bold()).to_string()
}

/// owo-colors: `text.style(Style::new().dimmed())`, displayed: `ESC[2m`,
/// the text, `ESC[0m`.
#[verifier::external_body]
fn style_dimmed(text: &str) -> (r: String)
    ensures
        r@ == ansi(seq!['2'], text@),
{
    text.style(Style::new().dimmed()).to_string()
}

/// owo-colors: `text.style(Style::new().cyan())`, displayed: `ESC[36m`,
/// the text, `ESC[0m`.
#[verifier::external_body]
fn style_cyan(text: &str) -> (r: String)
    ensures
        r@ == ansi(seq!['3', '6'], text@),
{
    text.style(Style::new().cyan()).to_string()
}

/// owo-colors: `text.style(Style::new().green())`, displayed: `ESC[32m`,
/// the text, `ESC[0m`.
#[verifier::external_body]
fn style_green(text: &str) -> (r: String)
    ensures
        r@ == ansi(seq!['3', '2'], text@),
{
    text.style(Style::new().green()).to_string()
}

/// `text` coloured with `paint` when `color`, else as it is.
pub open spec fn painted(text: Seq<char>, paint: Paint, color: bool) -> Seq<char> {
    if color {
        ansi(paint_codes(paint), text)
    } else {
        text
    }
}

/// `text` coloured with `paint` when `color`, else as it is.
pub fn paint(text: &str, style: Paint, color: bool) -> (r: String)
    ensures
        r@ == painted(text@, style, color),
{
    if !color {
        return text.to_owned();
    }
    match style {
        Paint::ErrorHeader => style_red_bold(text),
        Paint::WarningHeader => style_yellow_bold(text),
        Paint::InfoHeader => style_blue_bold(text),
        Paint::CheckLabel => style_dimmed(text),
        Paint::LocationLabel => style_cyan(text),
        Paint::Remediation => style_green(text),
    }
}

/// The header word of a severity group.
pub open spec fn severity_label_text(s: Severity) -> Seq<char> {
    match s {
        Severity::Error => "ERRORS"@,
        Severity::Warning => "WARNINGS"@,
        Severity::Info => "INFO"@,
    }
}

/// The header word of a severity group.
pub fn severity_label(s: Severity) -> (r: &'static str)
    ensures
        r@ == severity_label_text(s),
{
    match s {
        Severity::Error => "ERRORS",
        Severity::Warning => "WARNINGS",
        Severity::Info => "INFO",
    }
}

/// The colour of a severity group's header.
pub open spec fn header_paint(s: Severity) -> Paint {
    match s {
        Severity::Error => Paint::ErrorHeader,
        Severity::Warning => Paint::WarningHeader,
        Severity::Info => Paint::InfoHeader,
    }
}

/// The label of a check in the report.
pub fn check_id_label(id: CheckId) -> (r: &'static str)
    ensures
        r@ == check_id_name(id),
{
    id.as_str()
}

/// The rank of a check in `CheckId`'s order.
pub open spec fn check_rank(c: CheckId) -> int {
    match c {
        CheckId::Schema => 0,
        CheckId::ReferenceCoherence => 1,
        CheckId::Coverage => 2,
        CheckId::Orphan => 3,
        CheckId::ReverseOrphan => 4,
        CheckId::SpecIdFormat => 5,
        CheckId::SpecStatusCounts => 6,
        CheckId::LldDecisions => 7,
        CheckId::Dag => 8,
        CheckId::ImplementingArtifacts => 9,
        CheckId::PathCoherentPrefix => 10,
        CheckId::ArrowDocStructure => 11,
        CheckId::DecisionsStructure => 12,
    }
}

fn check_rank_exec(c: CheckId) -> (r: u8)
    ensures
        r == check_rank(c),
{
    match c {
        CheckId::Schema => 0,
        CheckId::ReferenceCoherence => 1,
        CheckId::Coverage => 2,
        CheckId::Orphan => 3,
        CheckId::ReverseOrphan => 4,
        CheckId::SpecIdFormat => 5,
        CheckId::SpecStatusCounts => 6,
        CheckId::LldDecisions => 7,
        CheckId::Dag => 8,
        CheckId::ImplementingArtifacts => 9,
        CheckId::PathCoherentPrefix => 10,
        CheckId::ArrowDocStructure => 11,
        CheckId::DecisionsStructure => 12,
    }
}

/// The order of optional `(path, line)` locations: none first, then by
/// path, then by line (none first).
pub open spec fn loc_lt(a: Option<(Seq<char>, Option<usize>)>, b: Option<(Seq<char>, Option<usize>)>) -> bool {
    match (a, b) {
        (None, None) => false,
        (None, Some(_)) => true,
        (Some(_), None) => false,
        (Some((p, l)), Some((q, m))) => if same_path(p, q) {
            match (l, m) {
                (None, Some(_)) => true,
                (Some(x), Some(y)) => x < y,
                _ => false,
            }
        } else {
            path_lt(p, q)
        },
    }
}

/// `a` goes before `b` within a severity group: by check, then location.
pub open spec fn finding_lt(a: FindingView, b: FindingView) -> bool {
    check_rank(a.check) < check_rank(b.check) || (a.check == b.check && loc_lt(a.location, b.location))
}

/// `x` placed into `s` before the first finding it goes before.
pub open spec fn insert_finding(s: Seq<FindingView>, x: FindingView) -> Seq<FindingView>
    decreases s.len(),
{
    if s.len() == 0 {
        seq![x]
    } else if finding_lt(x, s[0]) {
        seq![x] + s
    } else {
        seq![s[0]] + insert_finding(s.drop_first(), x)
    }
}

/// `s` ordered by check and location, stably.
pub open spec fn sort_findings(s: Seq<FindingView>) -> Seq<FindingView>
    decreases s.len(),
{
    if s.len() == 0 {
        Seq::empty()
    } else {
        insert_finding(sort_findings(s.drop_last()), s.last())
    }
}

proof fn lemma_insert_finding_at(s: Seq<FindingView>, x: FindingView, p: int)
    requires
        0 <= p <= s.len(),
        forall|k: int| 0 <= k < p ==> !finding_lt(x, #[trigger] s[k]),
        p < s.len() ==> finding_lt(x, s[p]),
    ensures
        insert_finding(s, x) == s.insert(p, x),
    decreases p,
{
    if p == 0 {
        assert(s.insert(0, x) =~= seq![x] + s);
    } else {
        assert(!finding_lt(x, s[0]));
        lemma_insert_finding_at(s.drop_first(), x, p - 1);
        assert(seq![s[0]] + s.drop_first().insert(p - 1, x) =~= s.insert(p, x));
    }
}

/// Inserting keeps the findings and adds `x`.
proof fn lemma_insert_finding_multiset(s: Seq<FindingView>, x: FindingView)
    ensures
        insert_finding(s, x).to_multiset() == s.to_multiset().insert(x),
    decreases s.len(),
{
    broadcast use vstd::seq_lib::group_to_multiset_ensures;
    broadcast use vstd::multiset::group_multiset_axioms;

    if s.len() == 0 {
        assert(seq![x] =~= s.insert(0, x));
    } else if finding_lt(x, s[0]) {
        assert(seq![x] + s =~= s.insert(0, x));
    } else {
        let t = insert_finding(s.drop_first(), x);
        lemma_insert_finding_multiset(s.drop_first(), x);
        assert(seq![s[0]] + t =~= t.insert(0, s[0]));
        assert(s =~= s.drop_first().insert(0, s[0]));
        assert(t.insert(0, s[0]).to_multiset() =~= s.to_multiset().insert(x));
    }
}

/// Sorting keeps exactly the findings it is given.
proof fn lemma_sort_findings_multiset(s: Seq<FindingView>)
    ensures
        sort_findings(s).to_multiset() == s.to_multiset(),
    decreases s.len(),
{
    broadcast use vstd::seq_lib::group_to_multiset_ensures;

    if s.len() > 0 {
        lemma_sort_findings_multiset(s.drop_last());
        lemma_insert_finding_multiset(sort_findings(s.drop_last()), s.last());
        assert(s =~= s.drop_last().push(s.last()));
    }
}

/// The findings of the three severities together are all the findings.
proof fn lemma_severity_split(fs: Seq<FindingView>)
    ensures
        of_severity(fs, Severity::Error).to_multiset().add(of_severity(fs, Severity::Warning).to_multiset()).add(
            of_severity(fs, Severity::Info).to_multiset(),
        ) =~= fs.to_multiset(),
    decreases fs.len(),
{
    broadcast use vstd::seq_lib::group_to_multiset_ensures;
    broadcast use vstd::multiset::group_multiset_axioms;

    if fs.len() == 0 {
        reveal_with_fuel(Seq::filter, 1);
        assert(of_severity(fs, Severity::Error) =~= fs);
        assert(of_severity(fs, Severity::Warning) =~= fs);
        assert(of_severity(fs, Severity::Info) =~= fs);
    } else {
        let p = fs.drop_last();
        let x = fs.last();
        lemma_severity_split(p);
        assert(fs =~= p.push(x));
        p.lemma_filter_push(x, |f: FindingView| f.severity == Severity::Error);
        p.lemma_filter_push(x, |f: FindingView| f.severity == Severity::Warning);
        p.lemma_filter_push(x, |f: FindingView| f.severity == Severity::Info);
    }
}

proof fn lemma_loc_lt_irreflexive(a: Option<(Seq<char>, Option<usize>)>)
    ensures
        !loc_lt(a, a),
{
}

proof fn lemma_loc_lt_transitive(
    a: Option<(Seq<char>, Option<usize>)>,
    b: Option<(Seq<char>, Option<usize>)>,
    c: Option<(Seq<char>, Option<usize>)>,
)
    requires
        loc_lt(a, b),
        loc_lt(b, c),
    ensures
        loc_lt(a, c),
{
    if a is Some && b is Some && c is Some {
        let p = a.unwrap().0;
        let q = b.unwrap().0;
        let r = c.unwrap().0;
        if !same_path(p, q) && !same_path(q, r) {
            crate::lsp::rename::lemma_path_lt_transitive(p, q, r);
            if same_path(p, r) {
                assert(path_lt(q, r) == path_lt(q, p));
                crate::lsp::rename::lemma_path_lt_transitive(p, q, p);
                crate::lsp::rename::lemma_path_lt_irreflexive(p);
            }
        } else if !same_path(p, q) {
            assert(path_lt(p, r) == path_lt(p, q));
        } else if !same_path(q, r) {
            assert(path_lt(p, r) == path_lt(q, r));
        }
    }
}

/// No finding goes before itself.
proof fn lemma_finding_lt_irreflexive(a: FindingView)
    ensures
        !finding_lt(a, a),
{
    lemma_loc_lt_irreflexive(a.location);
}

/// `finding_lt` is transitive.
proof fn lemma_finding_lt_transitive(a: FindingView, b: FindingView, c: FindingView)
    requires
        finding_lt(a, b),
        finding_lt(b, c),
    ensures
        finding_lt(a, c),
{
    if a.check == b.check && b.check == c.check {
        lemma_loc_lt_transitive(a.location, b.location, c.location);
    }
}

/// No finding of `s` goes before one that comes earlier.
pub open spec fn findings_ordered(s: Seq<FindingView>) -> bool {
    forall|i: int, j: int| 0 <= i < j < s.len() ==> !finding_lt(#[trigger] s[j], #[trigger] s[i])
}

proof fn lemma_insert_finding_ordered(s: Seq<FindingView>, x: FindingView)
    requires
        findings_ordered(s),
    ensures
        findings_ordered(insert_finding(s, x)),
    decreases s.len(),
{
    broadcast use vstd::seq_lib::group_to_multiset_ensures;
    broadcast use vstd::multiset::group_multiset_axioms;

    let t = insert_finding(s, x);
    if s.len() == 0 {
    } else if finding_lt(x, s[0]) {
        assert forall|i: int, j: int| 0 <= i < j < t.len() implies !finding_lt(#[trigger] t[j], #[trigger] t[i]) by {
            if i == 0 {
                assert(t[j] == s[j - 1]);
                if finding_lt(s[j - 1], x) {
                    lemma_finding_lt_transitive(s[j - 1], x, s[0]);
                    if j - 1 == 0 {
                        lemma_finding_lt_irreflexive(s[0]);
                    }
                }
            } else {
                assert(t[i] == s[i - 1] && t[j] == s[j - 1]);
            }
        }
    } else {
        let rest = s.drop_first();
        let u = insert_finding(rest, x);
        lemma_insert_finding_ordered(rest, x);
        lemma_insert_finding_multiset(rest, x);
        assert forall|i: int, j: int| 0 <= i < j < t.len() implies !finding_lt(#[trigger] t[j], #[trigger] t[i]) by {
            assert(t[j] == u[j - 1]);
            if i == 0 {
                let e = u[j - 1];
                assert(u.contains(e));
                assert(u.to_multiset().count(e) > 0);
                if e != x {
                    assert(rest.to_multiset().count(e) > 0);
                    assert(rest.contains(e));
                    let k = choose|k: int| 0 <= k < rest.len() && rest[k] == e;
                    assert(s[k + 1] == e);
                }
            } else {
                assert(t[i] == u[i - 1]);
            }
        }
    }
}

proof fn lemma_sort_findings_ordered(s: Seq<FindingView>)
    ensures
        findings_ordered(sort_findings(s)),
    decreases s.len(),
{
    if s.len() > 0 {
        lemma_sort_findings_ordered(s.drop_last());
        lemma_insert_finding_ordered(sort_findings(s.drop_last()), s.last());
    }
}

/// Each section of the terminal report is ordered by check and then by
/// location: no finding is listed after one it goes before.
pub proof fn law_report_sections_ordered(fs: Seq<FindingView>, s: Severity)
    ensures
        findings_ordered(sort_findings(of_severity(fs, s))),
{
    lemma_sort_findings_ordered(of_severity(fs, s));
}

/// The findings the terminal report lists, section by section.
pub open spec fn report_items(fs: Seq<FindingView>) -> Seq<FindingView> {
    sort_findings(of_severity(fs, Severity::Error)) + sort_findings(of_severity(fs, Severity::Warning))
        + sort_findings(of_severity(fs, Severity::Info))
}

/// The terminal report lists every finding exactly once: its sections'
/// findings, taken together, are the findings it was given, so the
/// section counts add up to the total on its last line.
pub proof fn law_report_lists_each_finding_once(fs: Seq<FindingView>)
    ensures
        report_items(fs).to_multiset() == fs.to_multiset(),
        report_items(fs).len() == fs.len(),
{
    broadcast use vstd::seq_lib::group_to_multiset_ensures;
    broadcast use vstd::seq_lib::lemma_multiset_commutative;

    let e = sort_findings(of_severity(fs, Severity::Error));
    let w = sort_findings(of_severity(fs, Severity::Warning));
    let i = sort_findings(of_severity(fs, Severity::Info));
    lemma_sort_findings_multiset(of_severity(fs, Severity::Error));
    lemma_sort_findings_multiset(of_severity(fs, Severity::Warning));
    lemma_sort_findings_multiset(of_severity(fs, Severity::Info));
    lemma_severity_split(fs);
    assert((e + w).to_multiset() =~= e.to_multiset().add(w.to_multiset()));
    assert((e + w + i).to_multiset() =~= (e + w).to_multiset().add(i.to_multiset()));
    assert(report_items(fs).len() == report_items(fs).to_multiset().len());
    assert(fs.len() == fs.to_multiset().len());
}

fn loc_less(a: &Option<crate::checks::Location>, b: &Option<crate::checks::Location>) -> (r: bool)
    ensures
        r == loc_lt(
            match *a {
                Some(l) => Some((l.path@, l.line)),
                None => None,
            },
            match *b {
                Some(l) => Some((l.path@, l.line)),
                None => None,
            },
        ),
{
    match (a, b) {
        (None, None) => false,
        (None, Some(_)) => true,
        (Some(_), None) => false,
        (Some(x), Some(y)) => {
            if path_eq(x.path.as_str(), y.path.as_str()) {
                match (x.line, y.line) {
                    (None, Some(_)) => true,
                    (Some(i), Some(j)) => i < j,
                    _ => false,
                }
            } else {
                path_less(x.path.as_str(), y.path.as_str())
            }
        },
    }
}

fn finding_less(a: &Finding, b: &Finding) -> (r: bool)
    ensures
        r == finding_lt(a@, b@),
{
    let ra = check_rank_exec(a.check);
    let rb = check_rank_exec(b.check);
    ra < rb || (a.check == b.check && loc_less(&a.location, &b.location))
}

/// Findings ordered by check and then location, stably.
pub fn sort_findings_exec(fs: &Vec<Finding>) -> (r: Vec<Finding>)
    ensures
        views(r@) == sort_findings(views(fs@)),
{
    let ghost src = views(fs@);
    let mut out: Vec<Finding> = Vec::new();
    let mut k: usize = 0;
    while k < fs.len()
        invariant
            0 <= k <= fs@.len(),
            src == views(fs@),
            views(out@) == sort_findings(src.take(k as int)),
        decreases fs@.len() - k,
    {
        let x = fs[k].clone_finding();
        let mut p: usize = 0;
        while p < out.len() && !finding_less(&x, &out[p])
            invariant
                0 <= p <= out@.len(),
                forall|q: int| 0 <= q < p ==> !finding_lt(x@, (#[trigger] out@[q])@),
            decreases out@.len() - p,
        {
            p = p + 1;
        }
        let ghost before = views(out@);
        proof {
            assert forall|q: int| 0 <= q < p implies !finding_lt(x@, #[trigger] before[q]) by {
                assert(before[q] == out@[q]@);
            }
            if p < out@.len() {
                assert(before[p as int] == out@[p as int]@);
            }
            lemma_insert_finding_at(before, x@, p as int);
            assert(src.take(k + 1).drop_last() =~= src.take(k as int));
        }
        out.insert(p, x);
        assert(views(out@) =~= before.insert(p as int, src[k as int]));
        k = k + 1;
    }
    assert(src.take(k as int) =~= src);
    out
}

/// The findings of one severity, in order.
pub open spec fn of_severity(fs: Seq<FindingView>, s: Severity) -> Seq<FindingView> {
    fs.filter(|f: FindingView| f.severity == s)
}

/// The location text of a finding: its path shown relative to the root,
/// with `:line` when it has a line.
pub open spec fn location_text(root: Seq<char>, loc: (Seq<char>, Option<usize>)) -> Seq<char> {
    match loc.1 {
        Some(n) => relative_to(loc.0, root) + ":"@ + decimal(n as nat),
        None => relative_to(loc.0, root),
    }
}

/// The lines of one finding in the report.
pub open spec fn finding_text(root: Seq<char>, f: FindingView, color: bool) -> Seq<char> {
    let check = painted("["@ + check_id_name(f.check) + "]"@, Paint::CheckLabel, color);
    let head = match f.location {
        Some(loc) => "  "@ + painted(location_text(root, loc), Paint::LocationLabel, color) + "  "@ + check + "\n"@,
        None => "  "@ + check + "\n"@,
    };
    let body = head + "    "@ + f.message + "\n"@;
    match f.remediation {
        Some(rem) => body + "    "@ + painted("→ "@ + rem, Paint::Remediation, color) + "\n"@,
        None => body,
    }
}

/// The report text of findings, one after the other.
pub open spec fn findings_text(root: Seq<char>, fs: Seq<FindingView>, color: bool) -> Seq<char>
    decreases fs.len(),
{
    if fs.len() == 0 {
        Seq::empty()
    } else {
        findings_text(root, fs.drop_last(), color) + finding_text(root, fs.last(), color)
    }
}

/// The section of one severity: empty when it has no findings.
pub open spec fn severity_section(root: Seq<char>, fs: Seq<FindingView>, s: Severity, color: bool) -> Seq<char> {
    let items = sort_findings(of_severity(fs, s));
    if items.len() == 0 {
        Seq::empty()
    } else {
        painted(severity_label_text(s) + " ("@ + decimal(items.len()) + ")"@, header_paint(s), color) + "\n"@
            + findings_text(root, items, color) + "\n"@
    }
}

/// The whole terminal report.
pub open spec fn report_text(root: Seq<char>, fs: Seq<FindingView>, color: bool) -> Seq<char> {
    if fs.len() == 0 {
        "no findings\n"@
    } else {
        severity_section(root, fs, Severity::Error, color) + severity_section(root, fs, Severity::Warning, color)
            + severity_section(root, fs, Severity::Info, color) + decimal(fs.len()) + " finding(s)\n"@
    }
}

/// Append the lines of one finding to `out`.
pub fn write_finding(out: &mut String, root: &str, f: &Finding, color: bool)
    ensures
        final(out)@ == old(out)@ + finding_text(root@, f@, color),
{
    let mut check = String::from_str("[");
    check.append(check_id_label(f.check));
    check.append("]");
    proof {
        reveal_strlit("[");
    }
    assert(check@ =~= "["@ + check_id_name(f.check) + "]"@);
    let check = paint(check.as_str(), Paint::CheckLabel, color);
    match &f.location {
        Some(l) => {
            let mut loc = display_relative(l.path.as_str(), root);
            match l.line {
                Some(n) => {
                    loc.append(":");
                    let d = usize_string(n);
                    loc.append(d.as_str());
                },
                None => {},
            }
            let loc = paint(loc.as_str(), Paint::LocationLabel, color);
            out.append("  ");
            out.append(loc.as_str());
            out.append("  ");
            out.append(check.as_str());
            out.append("\n");
        },
        None => {
            out.append("  ");
            out.append(check.as_str());
            out.append("\n");
        },
    }
    out.append("    ");
    out.append(f.message.as_str());
    out.append("\n");
    match &f.remediation {
        Some(rem) => {
            let r = cat("→ ", rem.as_str());
            let r = paint(r.as_str(), Paint::Remediation, color);
            out.append("    ");
            out.append(r.as_str());
            out.append("\n");
        },
        None => {},
    }
    assert(out@ =~= old(out)@ + finding_text(root@, f@, color));
}

/// The findings of severity `s`, in order.
fn findings_of(fs: &Vec<Finding>, s: Severity) -> (r: Vec<Finding>)
    ensures
        views(r@) == of_severity(views(fs@), s),
{
    let ghost src = views(fs@);
    let mut out: Vec<Finding> = Vec::new();
    let mut k: usize = 0;
    while k < fs.len()
        invariant
            0 <= k <= fs@.len(),
            src == views(fs@),
            views(out@) == of_severity(src.take(k as int), s),
        decreases fs@.len() - k,
    {
        let ghost pre = src.take(k as int);
        proof {
            assert(src.take(k + 1) =~= pre.push(src[k as int]));
            pre.lemma_filter_push(src[k as int], |f: FindingView| f.severity == s);
        }
        if fs[k].severity == s {
            let ghost before = views(out@);
            let x = fs[k].clone_finding();
            out.push(x);
            assert(views(out@) =~= before.push(x@));
        }
        k = k + 1;
    }
    assert(src.take(k as int) =~= src);
    out
}

fn write_section(out: &mut String, root: &str, fs: &Vec<Finding>, s: Severity, color: bool)
    ensures
        final(out)@ == old(out)@ + severity_section(root@, views(fs@), s, color),
{
    let group = findings_of(fs, s);
    let items = sort_findings_exec(&group);
    if items.len() == 0 {
        assert(out@ =~= old(out)@ + severity_section(root@, views(fs@), s, color));
        return;
    }
    let mut header = String::from_str(severity_label(s));
    header.append(" (");
    let n = usize_string(items.len());
    header.append(n.as_str());
    header.append(")");
    let h = paint(header.as_str(), header_paint_exec(s), color);
    out.append(h.as_str());
    out.append("\n");
    let ghost start = out@;
    let mut k: usize = 0;
    while k < items.len()
        invariant
            0 <= k <= items@.len(),
            out@ == start + findings_text(root@, views(items@).take(k as int), color),
        decreases items@.len() - k,
    {
        write_finding(out, root, &items[k], color);
        assert(views(items@).take(k + 1).drop_last() =~= views(items@).take(k as int));
        k = k + 1;
    }
    assert(views(items@).take(k as int) =~= views(items@));
    out.append("\n");
    assert(out@ =~= old(out)@ + severity_section(root@, views(fs@), s, color));
}

fn header_paint_exec(s: Severity) -> (r: Paint)
    ensures
        r == header_paint(s),
{
    match s {
        Severity::Error => Paint::ErrorHeader,
        Severity::Warning => Paint::WarningHeader,
        Severity::Info => Paint::InfoHeader,
    }
}

/// Render findings as the terminal report; with none, `no findings`.
pub fn render(root: &str, findings: &Vec<Finding>, opts: RenderOptions) -> (r: String)
    ensures
        r@ == report_text(root@, views(findings@), opts.color),
{
    if findings.len() == 0 {
        return String::from_str("no findings\n");
    }
    let mut out = String::new();
    write_section(&mut out, root, findings, Severity::Error, opts.color);
    write_section(&mut out, root, findings, Severity::Warning, opts.color);
    write_section(&mut out, root, findings, Severity::Info, opts.color);
    let n = usize_string(findings.len());
    out.append(n.as_str());
    out.append(" finding(s)\n");
    assert(out@ =~= report_text(root@, views(findings@), opts.color));
    out
}

/// Counts for the JSON report.
#[derive(Debug)]
pub struct Summary {
    pub findings: usize,
    /// `(severity, count)` for each severity that occurs, by name.
    pub by_severity: Vec<(String, usize)>,
    /// `(check, count)` for each check that occurs, by name.
    pub by_check: Vec<(String, usize)>,
}

/// The severities in the order of their names.
pub open spec fn severities_by_name() -> Seq<Severity> {
    seq![Severity::Error, Severity::Info, Severity::Warning]
}

/// The checks in the order of their names.
pub open spec fn checks_by_name() -> Seq<CheckId> {
    seq![
        CheckId::ArrowDocStructure,
        CheckId::Coverage,
        CheckId::Dag,
        CheckId::DecisionsStructure,
        CheckId::ImplementingArtifacts,
        CheckId::LldDecisions,
        CheckId::Orphan,
        CheckId::PathCoherentPrefix,
        CheckId::ReferenceCoherence,
        CheckId::ReverseOrphan,
        CheckId::Schema,
        CheckId::SpecIdFormat,
        CheckId::SpecStatusCounts,
    ]
}

/// How many findings have severity `s`.
pub open spec fn severity_count(fs: Seq<FindingView>, s: Severity) -> nat {
    fs.filter(|f: FindingView| f.severity == s).len()
}

/// How many findings come from check `c`.
pub open spec fn check_count(fs: Seq<FindingView>, c: CheckId) -> nat {
    fs.filter(|f: FindingView| f.check == c).len()
}

/// `(name, count)` for each severity that occurs, by name.
pub open spec fn severity_counts(fs: Seq<FindingView>) -> Seq<(Seq<char>, nat)> {
    flat_pairs(
        severities_by_name().map_values(
            |s: Severity|
                if severity_count(fs, s) > 0 {
                    seq![(severity_name(s), severity_count(fs, s))]
                } else {
                    Seq::empty()
                },
        ),
    )
}

/// `(name, count)` for each check that occurs, by name.
pub open spec fn check_counts(fs: Seq<FindingView>) -> Seq<(Seq<char>, nat)> {
    flat_pairs(
        checks_by_name().map_values(
            |c: CheckId|
                if check_count(fs, c) > 0 {
                    seq![(check_id_name(c), check_count(fs, c))]
                } else {
                    Seq::empty()
                },
        ),
    )
}

/// Concatenation of blocks of pairs.
pub open spec fn flat_pairs(s: Seq<Seq<(Seq<char>, nat)>>) -> Seq<(Seq<char>, nat)> {
    crate::checks::flat(s)
}

/// Plain views of `(name, count)` pairs.
pub open spec fn count_views(v: Seq<(String, usize)>) -> Seq<(Seq<char>, nat)> {
    v.map_values(|p: (String, usize)| (p.0@, p.1 as nat))
}

/// The sum of the counts of `(name, count)` pairs.
pub open spec fn count_total(v: Seq<(Seq<char>, nat)>) -> nat
    decreases v.len(),
{
    if v.len() == 0 {
        0
    } else {
        count_total(v.drop_last()) + v.last().1
    }
}

pub(crate) proof fn lemma_count_total_concat(a: Seq<(Seq<char>, nat)>, b: Seq<(Seq<char>, nat)>)
    ensures
        count_total(a + b) == count_total(a) + count_total(b),
    decreases b.len(),
{
    if b.len() > 0 {
        lemma_count_total_concat(a, b.drop_last());
        assert((a + b).drop_last() =~= a + b.drop_last());
    } else {
        assert(a + b =~= a);
    }
}

/// A one-pair block for a positive count, else none, totals the count.
pub(crate) proof fn lemma_block_total(name: Seq<char>, c: nat)
    ensures
        count_total(
            if c > 0 {
                seq![(name, c)]
            } else {
                Seq::empty()
            },
        ) == c,
{
    let e = Seq::<(Seq<char>, nat)>::empty();
    let one = seq![(name, c)];
    assert(one.drop_last() =~= e);
    assert(count_total(e) == 0);
    assert(count_total(one) == count_total(e) + c);
}

/// Each finding has exactly one severity.
proof fn lemma_severity_count_split(fs: Seq<FindingView>)
    ensures
        severity_count(fs, Severity::Error) + severity_count(fs, Severity::Info) + severity_count(fs, Severity::Warning)
            == fs.len(),
    decreases fs.len(),
{
    if fs.len() == 0 {
        reveal_with_fuel(Seq::filter, 1);
    } else {
        let p = fs.drop_last();
        let x = fs.last();
        lemma_severity_count_split(p);
        assert(fs =~= p.push(x));
        p.lemma_filter_push(x, |f: FindingView| f.severity == Severity::Error);
        p.lemma_filter_push(x, |f: FindingView| f.severity == Severity::Warning);
        p.lemma_filter_push(x, |f: FindingView| f.severity == Severity::Info);
    }
}

/// The counts of the checks among the first `k` names.
pub open spec fn checks_sum(fs: Seq<FindingView>, k: int) -> nat
    decreases k,
{
    if k <= 0 {
        0
    } else {
        checks_sum(fs, k - 1) + check_count(fs, checks_by_name()[k - 1])
    }
}

/// How often `c` occurs among the first `k` check names.
pub open spec fn check_occurrences(c: CheckId, k: int) -> nat
    decreases k,
{
    if k <= 0 {
        0
    } else {
        check_occurrences(c, k - 1) + if checks_by_name()[k - 1] == c {
            1nat
        } else {
            0nat
        }
    }
}

proof fn lemma_checks_sum_push(p: Seq<FindingView>, x: FindingView, k: int)
    requires
        0 <= k <= 13,
    ensures
        checks_sum(p.push(x), k) == checks_sum(p, k) + check_occurrences(x.check, k),
    decreases k,
{
    if k > 0 {
        lemma_checks_sum_push(p, x, k - 1);
        p.lemma_filter_push(x, |f: FindingView| f.check == checks_by_name()[k - 1]);
    }
}

proof fn lemma_each_check_named_once(c: CheckId)
    ensures
        check_occurrences(c, 13) == 1,
{
    reveal_with_fuel(check_occurrences, 14);
    match c {
        CheckId::ArrowDocStructure => {},
        CheckId::Coverage => {},
        CheckId::Dag => {},
        CheckId::DecisionsStructure => {},
        CheckId::ImplementingArtifacts => {},
        CheckId::LldDecisions => {},
        CheckId::Orphan => {},
        CheckId::PathCoherentPrefix => {},
        CheckId::ReferenceCoherence => {},
        CheckId::ReverseOrphan => {},
        CheckId::Schema => {},
        CheckId::SpecIdFormat => {},
        CheckId::SpecStatusCounts => {},
    }
}

/// Each finding comes from exactly one check.
proof fn lemma_check_count_split(fs: Seq<FindingView>)
    ensures
        checks_sum(fs, 13) == fs.len(),
    decreases fs.len(),
{
    if fs.len() == 0 {
        assert forall|k: int| 0 <= k <= 13 implies checks_sum(fs, k) == 0 by {
            lemma_checks_sum_empty(fs, k);
        }
    } else {
        let p = fs.drop_last();
        let x = fs.last();
        lemma_check_count_split(p);
        assert(fs =~= p.push(x));
        lemma_checks_sum_push(p, x, 13);
        lemma_each_check_named_once(x.check);
    }
}

proof fn lemma_checks_sum_empty(fs: Seq<FindingView>, k: int)
    requires
        fs.len() == 0,
    ensures
        checks_sum(fs, k) == 0,
    decreases k,
{
    reveal_with_fuel(Seq::filter, 1);
    if k > 0 {
        lemma_checks_sum_empty(fs, k - 1);
    }
}

proof fn lemma_check_counts_total(fs: Seq<FindingView>, k: int)
    requires
        0 <= k <= 13,
    ensures
        count_total(
            flat_pairs(
                checks_by_name().map_values(
                    |c: CheckId|
                        if check_count(fs, c) > 0 {
                            seq![(check_id_name(c), check_count(fs, c))]
                        } else {
                            Seq::empty()
                        },
                ).take(k),
            ),
        ) == checks_sum(fs, k),
    decreases k,
{
    let bs = checks_by_name().map_values(
        |c: CheckId|
            if check_count(fs, c) > 0 {
                seq![(check_id_name(c), check_count(fs, c))]
            } else {
                Seq::empty()
            },
    );
    if k == 0 {
        assert(bs.take(0) =~= Seq::<Seq<(Seq<char>, nat)>>::empty());
    } else {
        lemma_check_counts_total(fs, k - 1);
        crate::checks::lemma_flat_take(bs, k - 1);
        lemma_count_total_concat(crate::checks::flat(bs.take(k - 1)), bs[k - 1]);
        let c = checks_by_name()[k - 1];
        lemma_block_total(check_id_name(c), check_count(fs, c));
    }
}

/// The JSON summary's counts add up: its per-severity counts, and its
/// per-check counts, each sum to its number of findings.
pub proof fn law_summary_counts_add_up(fs: Seq<FindingView>)
    ensures
        count_total(severity_counts(fs)) == fs.len(),
        count_total(check_counts(fs)) == fs.len(),
{
    let bs = severities_by_name().map_values(
        |s: Severity|
            if severity_count(fs, s) > 0 {
                seq![(severity_name(s), severity_count(fs, s))]
            } else {
                Seq::empty()
            },
    );
    lemma_severity_count_split(fs);
    lemma_block_total(severity_name(Severity::Error), severity_count(fs, Severity::Error));
    lemma_block_total(severity_name(Severity::Info), severity_count(fs, Severity::Info));
    lemma_block_total(severity_name(Severity::Warning), severity_count(fs, Severity::Warning));
    assert(bs.drop_last().drop_last().drop_last() =~= Seq::<Seq<(Seq<char>, nat)>>::empty());
    lemma_count_total_concat(crate::checks::flat(bs.drop_last().drop_last().drop_last()), bs[0]);
    assert(bs.drop_last().drop_last().last() == bs[0]);
    lemma_count_total_concat(crate::checks::flat(bs.drop_last().drop_last()), bs[1]);
    assert(bs.drop_last().last() == bs[1]);
    lemma_count_total_concat(crate::checks::flat(bs.drop_last()), bs[2]);
    lemma_check_counts_total(fs, 13);
    lemma_check_count_split(fs);
    let cs = checks_by_name().map_values(
        |c: CheckId|
            if check_count(fs, c) > 0 {
                seq![(check_id_name(c), check_count(fs, c))]
            } else {
                Seq::empty()
            },
    );
    assert(cs.take(13) =~= cs);
}

fn count_severity(fs: &Vec<Finding>, s: Severity) -> (r: usize)
    ensures
        r == severity_count(views(fs@), s),
{
    let g = findings_of(fs, s);
    assert(views(g@).len() == g@.len());
    g.len()
}

fn count_check(fs: &Vec<Finding>, c: CheckId) -> (r: usize)
    ensures
        r == check_count(views(fs@), c),
{
    let ghost src = views(fs@);
    let mut n: usize = 0;
    let mut k: usize = 0;
    while k < fs.len()
        invariant
            0 <= k <= fs@.len(),
            src == views(fs@),
            n == src.take(k as int).filter(|f: FindingView| f.check == c).len(),
            n <= k,
        decreases fs@.len() - k,
    {
        let ghost pre = src.take(k as int);
        proof {
            assert(src.take(k + 1) =~= pre.push(src[k as int]));
            pre.lemma_filter_push(src[k as int], |f: FindingView| f.check == c);
        }
        if fs[k].check == c {
            n = n + 1;
        }
        k = k + 1;
    }
    assert(src.take(k as int) =~= src);
    n
}

/// The counts of the JSON report's summary.
pub fn build_summary(findings: &Vec<Finding>) -> (r: Summary)
    ensures
        r.findings == findings@.len(),
        count_views(r.by_severity@) == severity_counts(views(findings@)),
        count_views(r.by_check@) == check_counts(views(findings@)),
{
    let ghost fs = views(findings@);
    let sevs: [Severity; 3] = [Severity::Error, Severity::Info, Severity::Warning];
    assert(sevs@ == severities_by_name());
    let ghost sb = severities_by_name().map_values(
        |s: Severity|
            if severity_count(fs, s) > 0 {
                seq![(severity_name(s), severity_count(fs, s))]
            } else {
                Seq::empty()
            },
    );
    let mut by_severity: Vec<(String, usize)> = Vec::new();
    let mut i: usize = 0;
    while i < 3
        invariant
            0 <= i <= 3,
            sevs@ == severities_by_name(),
            fs == views(findings@),
            sb == severities_by_name().map_values(
                |s: Severity|
                    if severity_count(fs, s) > 0 {
                        seq![(severity_name(s), severity_count(fs, s))]
                    } else {
                        Seq::empty()
                    },
            ),
            count_views(by_severity@) == crate::checks::flat(sb.take(i as int)),
        decreases 3 - i,
    {
        proof {
            crate::checks::lemma_flat_take(sb, i as int);
        }
        let s = sevs[i];
        let n = count_severity(findings, s);
        let ghost before = count_views(by_severity@);
        if n > 0 {
            by_severity.push((s.as_str().to_owned(), n));
        }
        assert(count_views(by_severity@) =~= before + sb[i as int]);
        i = i + 1;
    }
    proof {
        crate::checks::lemma_flat_all(sb);
    }
    let ids: [CheckId; 13] = [
        CheckId::ArrowDocStructure,
        CheckId::Coverage,
        CheckId::Dag,
        CheckId::DecisionsStructure,
        CheckId::ImplementingArtifacts,
        CheckId::LldDecisions,
        CheckId::Orphan,
        CheckId::PathCoherentPrefix,
        CheckId::ReferenceCoherence,
        CheckId::ReverseOrphan,
        CheckId::Schema,
        CheckId::SpecIdFormat,
        CheckId::SpecStatusCounts,
    ];
    assert(ids@ == checks_by_name());
    let ghost cb = checks_by_name().map_values(
        |c: CheckId|
            if check_count(fs, c) > 0 {
                seq![(check_id_name(c), check_count(fs, c))]
            } else {
                Seq::empty()
            },
    );
    let mut by_check: Vec<(String, usize)> = Vec::new();
    let mut j: usize = 0;
    while j < 13
        invariant
            0 <= j <= 13,
            ids@ == checks_by_name(),
            fs == views(findings@),
            cb == checks_by_name().map_values(
                |c: CheckId|
                    if check_count(fs, c) > 0 {
                        seq![(check_id_name(c), check_count(fs, c))]
                    } else {
                        Seq::empty()
                    },
            ),
            count_views(by_check@) == crate::checks::flat(cb.take(j as int)),
        decreases 13 - j,
    {
        proof {
            crate::checks::lemma_flat_take(cb, j as int);
        }
        let c = ids[j];
        let n = count_check(findings, c);
        let ghost before = count_views(by_check@);
        if n > 0 {
            by_check.push((c.as_str().to_owned(), n));
        }
        assert(count_views(by_check@) =~= before + cb[j as int]);
        j = j + 1;
    }
    proof {
        crate::checks::lemma_flat_all(cb);
    }
    Summary { findings: findings.len(), by_severity, by_check }
}

/// The JSON key of a severity.
pub fn severity_key(s: Severity) -> (r: &'static str)
    ensures
        r@ == severity_name(s),
{
    s.as_str()
}

} // verus!
