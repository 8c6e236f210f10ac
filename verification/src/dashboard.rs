//! Summaries for the command line: the health dashboard (`lidc status`)
//! and the list of decision documents (`lidc decisions`).

use vstd::prelude::*;

use crate::checks::{flat, lemma_flat_all, lemma_flat_take};
use crate::ids::SegmentId;
use crate::model::{status_name, DecisionDoc, DecisionScope, Segment, SpecFile, SpecStatus, Status};
use crate::order::{lex_lt, str_lt};
use crate::paths::{display_relative, relative_to};
use crate::repo::LidRepo;
use crate::text::{cat, decimal, push_char, str_eq, usize_string};

verus! {

// ---------------------------------------------------------------- status

/// Counts shown by the health dashboard.
#[derive(Debug)]
pub struct StatusSummary {
    /// `(status, segments)` for each status that occurs, by name.
    pub by_status: Vec<(String, usize)>,
    pub total_segments: usize,
    pub total_specs: usize,
    pub implemented: usize,
    pub open: usize,
    pub deferred: usize,
    /// Segments with a `drift` note.
    pub drift_count: usize,
    /// Segments with a `next` entry.
    pub next_count: usize,
}

/// The statuses in the order of their names.
pub open spec fn statuses_by_name() -> Seq<Status> {
    seq![
        Status::Audited,
        Status::Broken,
        Status::Mapped,
        Status::Merged,
        Status::Obsolete,
        Status::Okay,
        Status::Partial,
        Status::Stale,
        Status::Unmapped,
    ]
}

/// How many entries satisfy `p`.
pub open spec fn count_where<A>(s: Seq<A>, p: spec_fn(A) -> bool) -> nat {
    s.filter(p).len()
}

/// How many segments have status `st`.
pub open spec fn status_count(arrows: Seq<(SegmentId, Segment)>, st: Status) -> nat {
    count_where(arrows, |e: (SegmentId, Segment)| e.1.status == st)
}

/// Every spec line of every file, in order.
pub open spec fn all_spec_statuses(files: Seq<SpecFile>) -> Seq<SpecStatus> {
    flat(Seq::new(files.len(), |i: int| files[i].specs@.map_values(|l: crate::model::SpecLine| l.status)))
}

/// `(name, count)` for each status that occurs, by name.
pub open spec fn status_counts(arrows: Seq<(SegmentId, Segment)>) -> Seq<(Seq<char>, nat)> {
    flat(
        statuses_by_name().map_values(
            |st: Status|
                if status_count(arrows, st) > 0 {
                    seq![(status_name(st), status_count(arrows, st))]
                } else {
                    Seq::empty()
                },
        ),
    )
}

/// The summary's counts are those of `repo`.
pub open spec fn summary_of(s: StatusSummary, repo: LidRepo) -> bool {
    let arrows = repo.index.arrows@;
    let specs = all_spec_statuses(repo.specs@);
    &&& s.by_status@.map_values(|p: (String, usize)| (p.0@, p.1 as nat)) == status_counts(arrows)
    &&& s.total_segments == arrows.len()
    &&& s.total_specs == specs.len()
    &&& s.implemented == count_where(specs, |x: SpecStatus| x == SpecStatus::Implemented)
    &&& s.open == count_where(specs, |x: SpecStatus| x == SpecStatus::Open)
    &&& s.deferred == count_where(specs, |x: SpecStatus| x == SpecStatus::Deferred)
    &&& s.drift_count == count_where(arrows, |e: (SegmentId, Segment)| e.1.drift is Some)
    &&& s.next_count == count_where(arrows, |e: (SegmentId, Segment)| e.1.next is Some)
}

fn count_status(arrows: &Vec<(SegmentId, Segment)>, st: Status) -> (r: usize)
    ensures
        r == status_count(arrows@, st),
{
    let mut n: usize = 0;
    let mut k: usize = 0;
    while k < arrows.len()
        invariant
            0 <= k <= arrows@.len(),
            n == count_where(arrows@.take(k as int), |e: (SegmentId, Segment)| e.1.status == st),
            n <= k,
        decreases arrows@.len() - k,
    {
        let ghost pre = arrows@.take(k as int);
        proof {
            assert(arrows@.take(k + 1) =~= pre.push(arrows@[k as int]));
            pre.lemma_filter_push(arrows@[k as int], |e: (SegmentId, Segment)| e.1.status == st);
        }
        if arrows[k].1.status == st {
            n = n + 1;
        }
        k = k + 1;
    }
    assert(arrows@.take(k as int) =~= arrows@);
    n
}

proof fn lemma_flat_prefix_len<A>(s: Seq<Seq<A>>, i: int)
    requires
        0 <= i <= s.len(),
    ensures
        flat(s.take(i)).len() <= flat(s).len(),
    decreases s.len() - i,
{
    if i < s.len() {
        lemma_flat_take(s, i);
        lemma_flat_prefix_len(s, i + 1);
    } else {
        lemma_flat_all(s);
    }
}

/// How many segments have one of the first `k` statuses by name.
pub open spec fn statuses_sum(arrows: Seq<(SegmentId, Segment)>, k: int) -> nat
    decreases k,
{
    if k <= 0 {
        0
    } else {
        statuses_sum(arrows, k - 1) + status_count(arrows, statuses_by_name()[k - 1])
    }
}

/// How often `st` occurs among the first `k` statuses by name.
pub open spec fn status_occurrences(st: Status, k: int) -> nat
    decreases k,
{
    if k <= 0 {
        0
    } else {
        status_occurrences(st, k - 1) + if statuses_by_name()[k - 1] == st {
            1nat
        } else {
            0nat
        }
    }
}

proof fn lemma_statuses_sum_push(p: Seq<(SegmentId, Segment)>, x: (SegmentId, Segment), k: int)
    requires
        0 <= k <= 9,
    ensures
        statuses_sum(p.push(x), k) == statuses_sum(p, k) + status_occurrences(x.1.status, k),
    decreases k,
{
    if k > 0 {
        lemma_statuses_sum_push(p, x, k - 1);
        p.lemma_filter_push(x, |e: (SegmentId, Segment)| e.1.status == statuses_by_name()[k - 1]);
    }
}

proof fn lemma_each_status_named_once(st: Status)
    ensures
        status_occurrences(st, 9) == 1,
{
    reveal_with_fuel(status_occurrences, 10);
    match st {
        Status::Unmapped => {},
        Status::Mapped => {},
        Status::Audited => {},
        Status::Okay => {},
        Status::Partial => {},
        Status::Broken => {},
        Status::Stale => {},
        Status::Obsolete => {},
        Status::Merged => {},
    }
}

proof fn lemma_statuses_sum_empty(arrows: Seq<(SegmentId, Segment)>, k: int)
    requires
        arrows.len() == 0,
    ensures
        statuses_sum(arrows, k) == 0,
    decreases k,
{
    reveal_with_fuel(Seq::filter, 1);
    if k > 0 {
        lemma_statuses_sum_empty(arrows, k - 1);
    }
}

/// Each segment has exactly one status.
proof fn lemma_status_split(arrows: Seq<(SegmentId, Segment)>)
    ensures
        statuses_sum(arrows, 9) == arrows.len(),
    decreases arrows.len(),
{
    if arrows.len() == 0 {
        lemma_statuses_sum_empty(arrows, 9);
    } else {
        let p = arrows.drop_last();
        let x = arrows.last();
        lemma_status_split(p);
        assert(arrows =~= p.push(x));
        lemma_statuses_sum_push(p, x, 9);
        lemma_each_status_named_once(x.1.status);
    }
}

proof fn lemma_status_counts_total(arrows: Seq<(SegmentId, Segment)>, k: int)
    requires
        0 <= k <= 9,
    ensures
        crate::report::count_total(
            flat(
                statuses_by_name().map_values(
                    |st: Status|
                        if status_count(arrows, st) > 0 {
                            seq![(status_name(st), status_count(arrows, st))]
                        } else {
                            Seq::empty()
                        },
                ).take(k),
            ),
        ) == statuses_sum(arrows, k),
    decreases k,
{
    let bs = statuses_by_name().map_values(
        |st: Status|
            if status_count(arrows, st) > 0 {
                seq![(status_name(st), status_count(arrows, st))]
            } else {
                Seq::empty()
            },
    );
    if k == 0 {
        assert(bs.take(0) =~= Seq::<Seq<(Seq<char>, nat)>>::empty());
    } else {
        lemma_status_counts_total(arrows, k - 1);
        lemma_flat_take(bs, k - 1);
        crate::report::lemma_count_total_concat(flat(bs.take(k - 1)), bs[k - 1]);
        let st = statuses_by_name()[k - 1];
        crate::report::lemma_block_total(status_name(st), status_count(arrows, st));
    }
}

/// Each spec line has exactly one status.
proof fn lemma_spec_status_split(specs: Seq<SpecStatus>)
    ensures
        count_where(specs, |x: SpecStatus| x == SpecStatus::Implemented) + count_where(
            specs,
            |x: SpecStatus| x == SpecStatus::Open,
        ) + count_where(specs, |x: SpecStatus| x == SpecStatus::Deferred) == specs.len(),
    decreases specs.len(),
{
    if specs.len() == 0 {
        reveal_with_fuel(Seq::filter, 1);
    } else {
        let p = specs.drop_last();
        let x = specs.last();
        lemma_spec_status_split(p);
        assert(specs =~= p.push(x));
        p.lemma_filter_push(x, |x: SpecStatus| x == SpecStatus::Implemented);
        p.lemma_filter_push(x, |x: SpecStatus| x == SpecStatus::Open);
        p.lemma_filter_push(x, |x: SpecStatus| x == SpecStatus::Deferred);
    }
}

/// The dashboard's counts add up: implemented, open and deferred specs
/// make up all the specs, which are those of every spec file; the
/// per-status segment counts make up all the segments; and the covered
/// share is at most 100%.
pub proof fn law_status_counts_add_up(repo: LidRepo, s: StatusSummary)
    requires
        summary_of(s, repo),
    ensures
        s.implemented + s.open + s.deferred == s.total_specs,
        crate::report::count_total(s.by_status@.map_values(|p: (String, usize)| (p.0@, p.1 as nat)))
            == s.total_segments,
        s.total_specs == crate::checks::sum_of(repo.specs@, |f: SpecFile| f.specs@.len()),
        covered_pct(s.implemented as nat, s.total_specs as nat) <= 100,
{
    let arrows = repo.index.arrows@;
    let files = repo.specs@;
    let blocks = Seq::new(
        files.len(),
        |i: int| files[i].specs@.map_values(|l: crate::model::SpecLine| l.status),
    );
    assert forall|j: int| 0 <= j < files.len() implies (#[trigger] blocks[j]).len() == files[j].specs@.len() by {
    }
    crate::checks::lemma_flat_len_sum(files, blocks, |f: SpecFile| f.specs@.len());
    assert(all_spec_statuses(files) == flat(blocks));
    let i = s.implemented as nat;
    let t = s.total_specs as nat;
    if t > 0 {
        assert(i <= t) by {
            lemma_spec_status_split(all_spec_statuses(files));
        }
        assert((i * 100) / t <= 100) by (nonlinear_arith)
            requires
                i <= t,
                t > 0,
        ;
    }
    lemma_spec_status_split(all_spec_statuses(repo.specs@));
    lemma_status_counts_total(arrows, 9);
    lemma_status_split(arrows);
    let bs = statuses_by_name().map_values(
        |st: Status|
            if status_count(arrows, st) > 0 {
                seq![(status_name(st), status_count(arrows, st))]
            } else {
                Seq::empty()
            },
    );
    assert(bs.take(9) =~= bs);
}

/// Summarize `repo` for the dashboard.
pub fn build_status(repo: &LidRepo) -> (r: StatusSummary)
    requires
        all_spec_statuses(repo.specs@).len() <= usize::MAX,
    ensures
        summary_of(r, *repo),
{
    let arrows = &repo.index.arrows;
    let sts: [Status; 9] = [
        Status::Audited,
        Status::Broken,
        Status::Mapped,
        Status::Merged,
        Status::Obsolete,
        Status::Okay,
        Status::Partial,
        Status::Stale,
        Status::Unmapped,
    ];
    assert(sts@ == statuses_by_name());
    let ghost sb = statuses_by_name().map_values(
        |st: Status|
            if status_count(arrows@, st) > 0 {
                seq![(status_name(st), status_count(arrows@, st))]
            } else {
                Seq::empty()
            },
    );
    let mut by_status: Vec<(String, usize)> = Vec::new();
    let mut i: usize = 0;
    while i < 9
        invariant
            0 <= i <= 9,
            sts@ == statuses_by_name(),
            arrows == &repo.index.arrows,
            sb == statuses_by_name().map_values(
                |st: Status|
                    if status_count(arrows@, st) > 0 {
                        seq![(status_name(st), status_count(arrows@, st))]
                    } else {
                        Seq::empty()
                    },
            ),
            by_status@.map_values(|p: (String, usize)| (p.0@, p.1 as nat)) == flat(sb.take(i as int)),
        decreases 9 - i,
    {
        proof {
            lemma_flat_take(sb, i as int);
        }
        let st = sts[i];
        let n = count_status(arrows, st);
        let ghost before = by_status@.map_values(|p: (String, usize)| (p.0@, p.1 as nat));
        if n > 0 {
            by_status.push((st.as_str().to_owned(), n));
        }
        assert(by_status@.map_values(|p: (String, usize)| (p.0@, p.1 as nat)) =~= before + sb[i as int]);
        i = i + 1;
    }
    proof {
        lemma_flat_all(sb);
    }
    let ghost specs = all_spec_statuses(repo.specs@);
    let ghost blocks = Seq::new(repo.specs@.len(), |i: int| repo.specs@[i].specs@.map_values(|l: crate::model::SpecLine| l.status));
    assert(specs == flat(blocks));
    let mut total_specs: usize = 0;
    let mut implemented: usize = 0;
    let mut open: usize = 0;
    let mut deferred: usize = 0;
    let mut f: usize = 0;
    while f < repo.specs.len()
        invariant
            0 <= f <= repo.specs@.len(),
            specs == all_spec_statuses(repo.specs@),
            specs.len() <= usize::MAX,
            specs == flat(blocks),
            blocks == Seq::new(repo.specs@.len(), |i: int| repo.specs@[i].specs@.map_values(|l: crate::model::SpecLine| l.status)),
            ({
                let sofar = flat(blocks.take(f as int));
                &&& total_specs == sofar.len()
                &&& implemented == count_where(sofar, |x: SpecStatus| x == SpecStatus::Implemented)
                &&& open == count_where(sofar, |x: SpecStatus| x == SpecStatus::Open)
                &&& deferred == count_where(sofar, |x: SpecStatus| x == SpecStatus::Deferred)
                &&& implemented <= total_specs && open <= total_specs && deferred <= total_specs
            }),
        decreases repo.specs@.len() - f,
    {
        proof {
            lemma_flat_take(blocks, f as int);
        }
        let lines = &repo.specs[f].specs;
        let ghost head = flat(blocks.take(f as int));
        let mut j: usize = 0;
        while j < lines.len()
            invariant
                0 <= f < repo.specs@.len(),
                lines@ == repo.specs@[f as int].specs@,
                0 <= j <= lines@.len(),
                head == flat(blocks.take(f as int)),
                specs == flat(blocks),
                specs.len() <= usize::MAX,
                blocks == Seq::new(repo.specs@.len(), |i: int| repo.specs@[i].specs@.map_values(|l: crate::model::SpecLine| l.status)),
                ({
                    let sofar = head + blocks[f as int].take(j as int);
                    &&& total_specs == sofar.len()
                    &&& implemented == count_where(sofar, |x: SpecStatus| x == SpecStatus::Implemented)
                    &&& open == count_where(sofar, |x: SpecStatus| x == SpecStatus::Open)
                    &&& deferred == count_where(sofar, |x: SpecStatus| x == SpecStatus::Deferred)
                    &&& implemented <= total_specs && open <= total_specs && deferred <= total_specs
                }),
            decreases lines@.len() - j,
        {
            let ghost pre = head + blocks[f as int].take(j as int);
            let ghost x = lines@[j as int].status;
            proof {
                assert(head + blocks[f as int].take(j + 1) =~= pre.push(x));
                pre.lemma_filter_push(x, |y: SpecStatus| y == SpecStatus::Implemented);
                pre.lemma_filter_push(x, |y: SpecStatus| y == SpecStatus::Open);
                pre.lemma_filter_push(x, |y: SpecStatus| y == SpecStatus::Deferred);
                lemma_flat_take(blocks, f as int);
                lemma_flat_prefix_len(blocks, f + 1);
            }
            total_specs = total_specs + 1;
            match lines[j].status {
                SpecStatus::Implemented => implemented = implemented + 1,
                SpecStatus::Open => open = open + 1,
                SpecStatus::Deferred => deferred = deferred + 1,
            }
            j = j + 1;
        }
        assert(blocks[f as int].take(j as int) =~= blocks[f as int]);
        f = f + 1;
    }
    proof {
        lemma_flat_all(blocks);
    }
    let mut drift_count: usize = 0;
    let mut next_count: usize = 0;
    let mut k: usize = 0;
    while k < arrows.len()
        invariant
            0 <= k <= arrows@.len(),
            drift_count == count_where(arrows@.take(k as int), |e: (SegmentId, Segment)| e.1.drift is Some),
            next_count == count_where(arrows@.take(k as int), |e: (SegmentId, Segment)| e.1.next is Some),
            drift_count <= k && next_count <= k,
        decreases arrows@.len() - k,
    {
        let ghost pre = arrows@.take(k as int);
        proof {
            assert(arrows@.take(k + 1) =~= pre.push(arrows@[k as int]));
            pre.lemma_filter_push(arrows@[k as int], |e: (SegmentId, Segment)| e.1.drift is Some);
            pre.lemma_filter_push(arrows@[k as int], |e: (SegmentId, Segment)| e.1.next is Some);
        }
        if arrows[k].1.drift.is_some() {
            drift_count = drift_count + 1;
        }
        if arrows[k].1.next.is_some() {
            next_count = next_count + 1;
        }
        k = k + 1;
    }
    assert(arrows@.take(k as int) =~= arrows@);
    StatusSummary {
        by_status,
        total_segments: arrows.len(),
        total_specs,
        implemented,
        open,
        deferred,
        drift_count,
        next_count,
    }
}

/// `s` padded with spaces on the right to `w` characters.
pub open spec fn pad_to(s: Seq<char>, w: nat) -> Seq<char> {
    if s.len() >= w {
        s
    } else {
        s + Seq::new((w - s.len()) as nat, |i: int| ' ')
    }
}

/// `s` padded with spaces on the right to `w` characters (`{:<w}`).
pub fn pad_right(s: &str, w: usize) -> (r: String)
    ensures
        r@ == pad_to(s@, w as nat),
{
    let mut out = s.to_owned();
    let n = s.unicode_len();
    if n >= w {
        return out;
    }
    let mut k = n;
    while k < w
        invariant
            n <= k <= w,
            n == s@.len(),
            out@ == s@ + Seq::new((k - n) as nat, |i: int| ' '),
        decreases w - k,
    {
        push_char(&mut out, ' ');
        assert(s@ + Seq::new((k + 1 - n) as nat, |i: int| ' ') =~= (s@ + Seq::new((k - n) as nat, |i: int| ' ')).push(' '));
        k = k + 1;
    }
    out
}

/// `word`, plus `s` unless `n` is one.
pub open spec fn plural(n: nat) -> Seq<char> {
    if n == 1 {
        Seq::empty()
    } else {
        "s"@
    }
}

/// `has` for one, `have` otherwise.
pub open spec fn has_have(n: nat) -> Seq<char> {
    if n == 1 {
        "has"@
    } else {
        "have"@
    }
}

/// Percentage of implemented specs, rounded down; 0 without specs.
pub open spec fn covered_pct(implemented: nat, total: nat) -> nat {
    if total == 0 {
        0
    } else {
        (implemented * 100) / total
    }
}

/// One `  STATUS       count` line per status.
pub open spec fn status_lines(by_status: Seq<(Seq<char>, nat)>) -> Seq<char>
    decreases by_status.len(),
{
    if by_status.len() == 0 {
        Seq::empty()
    } else {
        status_lines(by_status.drop_last()) + "  "@ + pad_to(by_status.last().0, 12) + " "@ + decimal(
            by_status.last().1,
        ) + "\n"@
    }
}

/// The dashboard text.
pub open spec fn status_text(root: Seq<char>, schema_version: u32, s: StatusSummary) -> Seq<char> {
    let counts = s.by_status@.map_values(|p: (String, usize)| (p.0@, p.1 as nat));
    "LID repo: "@ + root + "   schema v"@ + decimal(schema_version as nat) + "\n\n"@ + "Segments   "@ + decimal(
        s.total_segments as nat,
    ) + " total\n"@ + status_lines(counts) + "\n"@ + "Specs      "@ + decimal(s.total_specs as nat)
        + " total\n"@ + "  [x] "@ + decimal(s.implemented as nat) + " implemented   [ ] "@ + decimal(s.open as nat)
        + " open   [D] "@ + decimal(s.deferred as nat) + " deferred   ("@ + decimal(
        covered_pct(s.implemented as nat, s.total_specs as nat),
    ) + " % covered)\n\n"@ + "Drift       "@ + decimal(s.drift_count as nat) + " segment"@ + plural(
        s.drift_count as nat,
    ) + " "@ + has_have(s.drift_count as nat) + " drift notes\n"@ + "Next        "@ + decimal(
        s.next_count as nat,
    ) + " segment"@ + plural(s.next_count as nat) + " "@ + has_have(s.next_count as nat)
        + " active next-work entries\n\n"@ + "Run `lidc check` for full coherence findings.\n"@
}

fn append_count_line(out: &mut String, lead: &str, n: usize, tail: &str)
    ensures
        final(out)@ == old(out)@ + lead@ + decimal(n as nat) + tail@,
{
    out.append(lead);
    let d = usize_string(n);
    out.append(d.as_str());
    out.append(tail);
}

/// The dashboard text for the summary of a repository at `root`.
pub fn render_status(root: &str, schema_version: u32, s: &StatusSummary) -> (r: String)
    ensures
        r@ == status_text(root@, schema_version, *s),
{
    let mut out = cat("LID repo: ", root);
    out.append("   schema v");
    let v = usize_string(schema_version as usize);
    out.append(v.as_str());
    out.append("\n\n");
    append_count_line(&mut out, "Segments   ", s.total_segments, " total\n");
    let ghost head = out@;
    let ghost counts = s.by_status@.map_values(|p: (String, usize)| (p.0@, p.1 as nat));
    let mut k: usize = 0;
    while k < s.by_status.len()
        invariant
            0 <= k <= s.by_status@.len(),
            counts == s.by_status@.map_values(|p: (String, usize)| (p.0@, p.1 as nat)),
            out@ == head + status_lines(counts.take(k as int)),
        decreases s.by_status@.len() - k,
    {
        out.append("  ");
        let p = pad_right(s.by_status[k].0.as_str(), 12);
        out.append(p.as_str());
        append_count_line(&mut out, " ", s.by_status[k].1, "\n");
        assert(counts.take(k + 1).drop_last() =~= counts.take(k as int));
        k = k + 1;
    }
    assert(counts.take(k as int) =~= counts);
    out.append("\n");
    append_count_line(&mut out, "Specs      ", s.total_specs, " total\n");
    append_count_line(&mut out, "  [x] ", s.implemented, " implemented   [ ] ");
    append_count_line(&mut out, "", s.open, " open   [D] ");
    append_count_line(&mut out, "", s.deferred, " deferred   (");
    let pct: u128 = if s.total_specs == 0 {
        0
    } else {
        let num: u128 = (s.implemented as u128) * 100;
        num / (s.total_specs as u128)
    };
    assert(pct == covered_pct(s.implemented as nat, s.total_specs as nat));
    let pct_s = u128_string(pct);
    out.append(pct_s.as_str());
    out.append(" % covered)\n\n");
    append_count_line(&mut out, "Drift       ", s.drift_count, " segment");
    if s.drift_count != 1 {
        out.append("s");
    }
    out.append(" ");
    if s.drift_count == 1 {
        out.append("has");
    } else {
        out.append("have");
    }
    out.append(" drift notes\n");
    append_count_line(&mut out, "Next        ", s.next_count, " segment");
    if s.next_count != 1 {
        out.append("s");
    }
    out.append(" ");
    if s.next_count == 1 {
        out.append("has");
    } else {
        out.append("have");
    }
    out.append(" active next-work entries\n\n");
    out.append("Run `lidc check` for full coherence findings.\n");
    proof {
        reveal_strlit("");
    }
    assert(out@ =~= status_text(root@, schema_version, *s));
    out
}

/// Decimal digits of `n`.
fn u128_string(n: u128) -> (r: String)
    ensures
        r@ == decimal(n as nat),
    decreases n,
{
    if n < 10 {
        let mut s = String::new();
        push_char(&mut s, crate::text::digit(n as usize));
        assert(s@ =~= decimal(n as nat));
        s
    } else {
        let mut s = u128_string(n / 10);
        push_char(&mut s, crate::text::digit((n % 10) as usize));
        s
    }
}

// ---------------------------------------------------------------- decisions

/// Which decision docs to list.
#[derive(Debug, Clone, Copy, PartialEq, Eq, Structural)]
pub enum ScopeFilter {
    All,
    Project,
    Node,
}

/// Read the `--scope` value: none lists all; `project` or `node` filter.
pub fn parse_scope(scope: Option<&str>) -> (r: Result<ScopeFilter, String>)
    ensures
        scope is None ==> r == Ok::<ScopeFilter, String>(ScopeFilter::All),
        scope matches Some(s) ==> (s@ == "project"@ ==> r matches Ok(ScopeFilter::Project)),
        scope matches Some(s) ==> (s@ == "node"@ ==> r matches Ok(ScopeFilter::Node)),
        scope matches Some(s) ==> (s@ != "project"@ && s@ != "node"@ ==> (r matches Err(m) && m@
            == "invalid --scope value '"@ + s@ + "': expected 'project' or 'node'"@)),
{
    proof {
        reveal_strlit("project");
        reveal_strlit("node");
        assert("node"@.len() != "project"@.len());
    }
    match scope {
        None => Ok(ScopeFilter::All),
        Some(s) => {
            if str_eq(s, "project") {
                Ok(ScopeFilter::Project)
            } else if str_eq(s, "node") {
                Ok(ScopeFilter::Node)
            } else {
                let mut m = cat("invalid --scope value '", s);
                m.append("': expected 'project' or 'node'");
                Err(m)
            }
        },
    }
}

/// The doc passes the filter.
pub open spec fn passes(f: ScopeFilter, d: DecisionDoc) -> bool {
    match f {
        ScopeFilter::All => true,
        ScopeFilter::Project => d.scope is Project,
        ScopeFilter::Node => d.scope is Node,
    }
}

/// The filter as a predicate.
pub open spec fn pass_pred(f: ScopeFilter) -> spec_fn(DecisionDoc) -> bool {
    |d: DecisionDoc| passes(f, d)
}

/// A decision doc as plain values: path, node (for per-node docs), title.
pub open spec fn doc_view(d: DecisionDoc) -> (Seq<char>, Option<Seq<char>>, Seq<char>) {
    (
        d.path@,
        match d.scope {
            DecisionScope::Node { segment } => Some(segment@),
            DecisionScope::Project => None,
        },
        d.title@,
    )
}

/// Plain views of decision docs.
pub open spec fn doc_views(ds: Seq<DecisionDoc>) -> Seq<(Seq<char>, Option<Seq<char>>, Seq<char>)> {
    ds.map_values(|d: DecisionDoc| doc_view(d))
}

fn copy_doc(d: &DecisionDoc) -> (r: DecisionDoc)
    ensures
        doc_view(r) == doc_view(*d),
        r.scope is Project <==> d.scope is Project,
{
    DecisionDoc {
        path: d.path.clone(),
        scope: match &d.scope {
            DecisionScope::Project => DecisionScope::Project,
            DecisionScope::Node { segment } => DecisionScope::Node { segment: segment.clone() },
        },
        title: d.title.clone(),
    }
}

/// The decision docs that pass the filter, in order.
pub fn filter_decisions(docs: &Vec<DecisionDoc>, f: ScopeFilter) -> (r: Vec<DecisionDoc>)
    ensures
        doc_views(r@) == doc_views(docs@.filter(pass_pred(f))),
{
    let mut out: Vec<DecisionDoc> = Vec::new();
    let mut k: usize = 0;
    while k < docs.len()
        invariant
            0 <= k <= docs@.len(),
            doc_views(out@) == doc_views(docs@.take(k as int).filter(pass_pred(f))),
        decreases docs@.len() - k,
    {
        let ghost pre = docs@.take(k as int);
        proof {
            assert(docs@.take(k + 1) =~= pre.push(docs@[k as int]));
            pre.lemma_filter_push(docs@[k as int], pass_pred(f));
        }
        let keep = match f {
            ScopeFilter::All => true,
            ScopeFilter::Project => match &docs[k].scope {
                DecisionScope::Project => true,
                DecisionScope::Node { .. } => false,
            },
            ScopeFilter::Node => match &docs[k].scope {
                DecisionScope::Project => false,
                DecisionScope::Node { .. } => true,
            },
        };
        let ghost before = doc_views(out@);
        if keep {
            let d = copy_doc(&docs[k]);
            out.push(d);
            assert(doc_views(out@) =~= before.push(doc_view(docs@[k as int])));
        } else {
            assert(doc_views(pre.push(docs@[k as int]).filter(pass_pred(f))) =~= before);
        }
        k = k + 1;
    }
    assert(docs@.take(k as int) =~= docs@);
    out
}

/// One listing line for a decision doc.
pub open spec fn doc_line(root: Seq<char>, d: (Seq<char>, Option<Seq<char>>, Seq<char>)) -> Seq<char> {
    let rel = relative_to(d.0, root);
    if d.2.len() == 0 {
        "  "@ + rel + "\n"@
    } else {
        "  "@ + pad_to(rel, 48) + "  "@ + d.2 + "\n"@
    }
}

/// Listing lines for decision docs, in order.
pub open spec fn doc_lines(root: Seq<char>, ds: Seq<(Seq<char>, Option<Seq<char>>, Seq<char>)>) -> Seq<char>
    decreases ds.len(),
{
    if ds.len() == 0 {
        Seq::empty()
    } else {
        doc_lines(root, ds.drop_last()) + doc_line(root, ds.last())
    }
}

/// `x` added to the ordered set of names `s`.
pub open spec fn name_insert(s: Seq<Seq<char>>, x: Seq<char>) -> Seq<Seq<char>>
    decreases s.len(),
{
    if s.len() == 0 {
        seq![x]
    } else if x == s[0] {
        s
    } else if lex_lt(x, s[0]) {
        seq![x] + s
    } else {
        seq![s[0]] + name_insert(s.drop_first(), x)
    }
}

/// The distinct names of `s`, ordered.
pub open spec fn name_set(s: Seq<Seq<char>>) -> Seq<Seq<char>>
    decreases s.len(),
{
    if s.len() == 0 {
        Seq::empty()
    } else {
        name_insert(name_set(s.drop_last()), s.last())
    }
}

/// Each name of `s` sorts strictly before every later one.
pub open spec fn strictly_ascending(s: Seq<Seq<char>>) -> bool {
    forall|i: int, j: int| 0 <= i < j < s.len() ==> lex_lt(#[trigger] s[i], #[trigger] s[j])
}

proof fn lemma_name_insert(s: Seq<Seq<char>>, x: Seq<char>)
    requires
        strictly_ascending(s),
    ensures
        strictly_ascending(name_insert(s, x)),
        forall|y: Seq<char>| #[trigger] name_insert(s, x).contains(y) <==> (s.contains(y) || y == x),
    decreases s.len(),
{
    let t = name_insert(s, x);
    if s.len() == 0 {
        assert forall|y: Seq<char>| t.contains(y) <==> (s.contains(y) || y == x) by {
            if t.contains(y) {
                assert(t[0] == x);
            }
            if y == x {
                assert(t[0] == y);
            }
        }
    } else if x == s[0] {
        assert(s.contains(s[0]));
    } else if lex_lt(x, s[0]) {
        assert forall|i: int, j: int| 0 <= i < j < t.len() implies lex_lt(#[trigger] t[i], #[trigger] t[j]) by {
            if i == 0 {
                if j - 1 > 0 {
                    crate::order::lemma_lex_lt_transitive(x, s[0], s[j - 1]);
                }
            } else {
                assert(t[i] == s[i - 1] && t[j] == s[j - 1]);
            }
        }
        assert forall|y: Seq<char>| t.contains(y) <==> (s.contains(y) || y == x) by {
            if t.contains(y) {
                let k = choose|k: int| 0 <= k < t.len() && t[k] == y;
                if k > 0 {
                    assert(s[k - 1] == y);
                }
            }
            if s.contains(y) {
                let k = choose|k: int| 0 <= k < s.len() && s[k] == y;
                assert(t[k + 1] == y);
            }
            if y == x {
                assert(t[0] == y);
            }
        }
    } else {
        crate::order::lemma_lex_lt_total(x, s[0]);
        let rest = s.drop_first();
        let u = name_insert(rest, x);
        assert(strictly_ascending(rest)) by {
            assert forall|i: int, j: int| 0 <= i < j < rest.len() implies lex_lt(#[trigger] rest[i], #[trigger] rest[j]) by {
                assert(rest[i] == s[i + 1] && rest[j] == s[j + 1]);
            }
        }
        lemma_name_insert(rest, x);
        assert forall|i: int, j: int| 0 <= i < j < t.len() implies lex_lt(#[trigger] t[i], #[trigger] t[j]) by {
            assert(t[j] == u[j - 1]);
            if i == 0 {
                let e = u[j - 1];
                assert(u.contains(e));
                assert(rest.contains(e) || e == x);
                if e != x {
                    let k = choose|k: int| 0 <= k < rest.len() && rest[k] == e;
                    assert(s[k + 1] == e);
                }
            } else {
                assert(t[i] == u[i - 1]);
            }
        }
        assert forall|y: Seq<char>| t.contains(y) <==> (s.contains(y) || y == x) by {
            if t.contains(y) {
                let k = choose|k: int| 0 <= k < t.len() && t[k] == y;
                if k > 0 {
                    assert(u[k - 1] == y);
                    assert(u.contains(y));
                    if rest.contains(y) {
                        let q = choose|q: int| 0 <= q < rest.len() && rest[q] == y;
                        assert(s[q + 1] == y);
                    }
                } else {
                    assert(s[0] == y);
                }
            }
            if s.contains(y) {
                let k = choose|k: int| 0 <= k < s.len() && s[k] == y;
                if k > 0 {
                    assert(rest[k - 1] == y);
                    assert(u.contains(y));
                    let q = choose|q: int| 0 <= q < u.len() && u[q] == y;
                    assert(t[q + 1] == y);
                } else {
                    assert(t[0] == y);
                }
            }
            if y == x {
                assert(u.contains(y));
                let q = choose|q: int| 0 <= q < u.len() && u[q] == y;
                assert(t[q + 1] == y);
            }
        }
    }
}

/// The node sections of the decisions list come in strictly ascending
/// order of node name: every node once, and no other.
pub proof fn law_node_names_sorted_once(names: Seq<Seq<char>>)
    ensures
        strictly_ascending(name_set(names)),
        forall|y: Seq<char>| #[trigger] name_set(names).contains(y) <==> names.contains(y),
    decreases names.len(),
{
    if names.len() > 0 {
        let p = names.drop_last();
        law_node_names_sorted_once(p);
        lemma_name_insert(name_set(p), names.last());
        assert forall|y: Seq<char>| name_set(names).contains(y) <==> names.contains(y) by {
            if p.contains(y) {
                let k = choose|k: int| 0 <= k < p.len() && p[k] == y;
                assert(names[k] == y);
            }
            if names.contains(y) {
                let k = choose|k: int| 0 <= k < names.len() && names[k] == y;
                if k < names.len() - 1 {
                    assert(p[k] == y);
                }
            }
            if y == names.last() {
                assert(names[names.len() - 1] == y);
            }
        }
    }
}

/// The node names of per-node docs, in order.
pub open spec fn node_names(ds: Seq<(Seq<char>, Option<Seq<char>>, Seq<char>)>) -> Seq<Seq<char>> {
    ds.filter(|d: (Seq<char>, Option<Seq<char>>, Seq<char>)| d.1 is Some).map_values(
        |d: (Seq<char>, Option<Seq<char>>, Seq<char>)| d.1.unwrap(),
    )
}

/// The section of one node: its name, its docs, a blank line.
pub open spec fn node_section(root: Seq<char>, ds: Seq<(Seq<char>, Option<Seq<char>>, Seq<char>)>, name: Seq<char>) -> Seq<char> {
    name + "\n"@ + doc_lines(root, ds.filter(section_pred(Some(name)))) + "\n"@
}

/// The node sections, by node name.
pub open spec fn node_sections(root: Seq<char>, ds: Seq<(Seq<char>, Option<Seq<char>>, Seq<char>)>, names: Seq<Seq<char>>) -> Seq<char>
    decreases names.len(),
{
    if names.len() == 0 {
        Seq::empty()
    } else {
        node_sections(root, ds, names.drop_last()) + node_section(root, ds, names.last())
    }
}

/// The listing of decision docs.
pub open spec fn decisions_text(root: Seq<char>, ds: Seq<(Seq<char>, Option<Seq<char>>, Seq<char>)>) -> Seq<char> {
    let project = ds.filter(section_pred(None));
    "Decision documents   "@ + decimal(ds.len()) + " total\n\n"@ + (if project.len() > 0 {
        "Project  (docs/decisions/)\n"@ + doc_lines(root, project) + "\n"@
    } else {
        Seq::empty()
    }) + node_sections(root, ds, name_set(node_names(ds))) + (if ds.len() == 0 {
        "No decision documents found.\n\nAdd docs to docs/decisions/ (project-level) or docs/intent/<node>/decisions/ (per-node).\n"@
    } else {
        Seq::empty()
    })
}

/// The decisions listing of the docs that pass `f` opens with their
/// number, `Decision documents   {n} total`; with none it says that no
/// decision documents were found and lists nothing.
pub proof fn law_decisions_listing_total(root: Seq<char>, docs: Seq<DecisionDoc>, f: ScopeFilter)
    ensures
        ({
            let kept = docs.filter(pass_pred(f));
            let t = decisions_text(root, doc_views(kept));
            let head = "Decision documents   "@ + decimal(kept.len()) + " total\n\n"@;
            &&& t.len() >= head.len()
            &&& t.take(head.len() as int) == head
            &&& kept.len() == 0 ==> t == head
                + "No decision documents found.\n\nAdd docs to docs/decisions/ (project-level) or docs/intent/<node>/decisions/ (per-node).\n"@
        }),
{
    let kept = docs.filter(pass_pred(f));
    let ds = doc_views(kept);
    let head = "Decision documents   "@ + decimal(kept.len()) + " total\n\n"@;
    let t = decisions_text(root, ds);
    assert(ds.len() == kept.len());
    let rest = t.skip(head.len() as int);
    assert(t =~= head + rest);
    assert(t.take(head.len() as int) =~= head);
    if kept.len() == 0 {
        reveal_with_fuel(Seq::filter, 1);
        let sp = |d: (Seq<char>, Option<Seq<char>>, Seq<char>)| d.1 is Some;
        assert(ds.filter(section_pred(None)).len() == 0);
        assert(ds.filter(sp) =~= ds);
        assert(node_names(ds).len() == 0);
        assert(name_set(node_names(ds)) =~= Seq::<Seq<char>>::empty());
    }
}

/// Every listed decision doc falls in exactly one section of the listing:
/// a project doc in the project section, a per-node doc in the section of
/// its node, whose name heads exactly one section.
pub proof fn law_decisions_sections_partition(ds: Seq<(Seq<char>, Option<Seq<char>>, Seq<char>)>)
    ensures
        forall|k: int| 0 <= k < ds.len() && ds[k].1 is None ==> ds.filter(section_pred(None)).contains(#[trigger] ds[k]),
        forall|k: int|
            #![trigger ds[k]]
            0 <= k < ds.len() && ds[k].1 is Some ==> {
                &&& name_set(node_names(ds)).contains(ds[k].1.unwrap())
                &&& ds.filter(section_pred(ds[k].1)).contains(ds[k])
            },
        strictly_ascending(name_set(node_names(ds))),
{
    broadcast use vstd::seq_lib::group_filter_ensures;

    law_node_names_sorted_once(node_names(ds));
    assert forall|k: int| 0 <= k < ds.len() && ds[k].1 is None implies ds.filter(section_pred(None)).contains(
        #[trigger] ds[k],
    ) by {
        assert(section_pred(None)(ds[k]));
    }
    assert forall|k: int| #![trigger ds[k]] 0 <= k < ds.len() && ds[k].1 is Some implies {
        &&& name_set(node_names(ds)).contains(ds[k].1.unwrap())
        &&& ds.filter(section_pred(ds[k].1)).contains(ds[k])
    } by {
        let sp = |d: (Seq<char>, Option<Seq<char>>, Seq<char>)| d.1 is Some;
        assert(sp(ds[k]));
        let fs = ds.filter(sp);
        assert(fs.contains(ds[k]));
        let j = choose|j: int| 0 <= j < fs.len() && fs[j] == ds[k];
        assert(node_names(ds)[j] == ds[k].1.unwrap());
        assert(node_names(ds).contains(ds[k].1.unwrap()));
        assert(section_pred(ds[k].1)(ds[k]));
    }
}

proof fn lemma_name_insert_at(s: Seq<Seq<char>>, x: Seq<char>, p: int)
    requires
        0 <= p <= s.len(),
        forall|k: int| 0 <= k < p ==> x != #[trigger] s[k] && !lex_lt(x, s[k]),
    ensures
        p < s.len() && x == s[p] ==> name_insert(s, x) == s,
        p < s.len() && x != s[p] && lex_lt(x, s[p]) ==> name_insert(s, x) == s.insert(p, x),
        p == s.len() ==> name_insert(s, x) == s.insert(p, x),
    decreases p,
{
    if p == 0 {
        assert(s.insert(0, x) =~= seq![x] + s);
    } else {
        lemma_name_insert_at(s.drop_first(), x, p - 1);
        assert(seq![s[0]] + s.drop_first().insert(p - 1, x) =~= s.insert(p, x));
        assert(seq![s[0]] + s.drop_first() =~= s);
    }
}

/// The distinct names of `names`, in order.
pub fn sorted_name_set(names: &Vec<String>) -> (r: Vec<String>)
    ensures
        r@.map_values(|s: String| s@) == name_set(names@.map_values(|s: String| s@)),
{
    let ghost src = names@.map_values(|s: String| s@);
    let mut out: Vec<String> = Vec::new();
    let mut k: usize = 0;
    while k < names.len()
        invariant
            0 <= k <= names@.len(),
            src == names@.map_values(|s: String| s@),
            out@.map_values(|s: String| s@) == name_set(src.take(k as int)),
        decreases names@.len() - k,
    {
        let x = names[k].as_str();
        let mut p: usize = 0;
        while p < out.len() && !str_eq(x, out[p].as_str()) && !str_lt(x, out[p].as_str())
            invariant
                0 <= p <= out@.len(),
                forall|q: int| 0 <= q < p ==> x@ != (#[trigger] out@[q])@ && !lex_lt(x@, out@[q]@),
            decreases out@.len() - p,
        {
            p = p + 1;
        }
        let ghost before = out@.map_values(|s: String| s@);
        proof {
            assert forall|q: int| 0 <= q < p implies x@ != #[trigger] before[q] && !lex_lt(x@, before[q]) by {
                assert(before[q] == out@[q]@);
            }
            if p < out@.len() {
                assert(before[p as int] == out@[p as int]@);
            }
            lemma_name_insert_at(before, x@, p as int);
            assert(src.take(k + 1).drop_last() =~= src.take(k as int));
            assert(src[k as int] == x@);
        }
        if p < out.len() && str_eq(x, out[p].as_str()) {
        } else {
            out.insert(p, x.to_owned());
            assert(out@.map_values(|s: String| s@) =~= before.insert(p as int, x@));
        }
        k = k + 1;
    }
    assert(src.take(k as int) =~= src);
    out
}

fn write_doc_line(out: &mut String, root: &str, d: &DecisionDoc)
    ensures
        final(out)@ == old(out)@ + doc_line(root@, doc_view(*d)),
{
    let rel = display_relative(d.path.as_str(), root);
    out.append("  ");
    if d.title.as_str().is_empty() {
        out.append(rel.as_str());
    } else {
        let p = pad_right(rel.as_str(), 48);
        out.append(p.as_str());
        out.append("  ");
        out.append(d.title.as_str());
    }
    out.append("\n");
    assert(out@ =~= old(out)@ + doc_line(root@, doc_view(*d)));
}

/// Which docs a listing section takes: project docs (`None`) or the docs
/// of one node.
pub open spec fn section_pred(node: Option<Seq<char>>) -> spec_fn((Seq<char>, Option<Seq<char>>, Seq<char>)) -> bool {
    |d: (Seq<char>, Option<Seq<char>>, Seq<char>)| d.1 == node
}

fn write_section_lines(out: &mut String, root: &str, docs: &Vec<DecisionDoc>, node: Option<&str>)
    ensures
        final(out)@ == old(out)@ + doc_lines(
            root@,
            doc_views(docs@).filter(
                section_pred(
                    match node {
                        Some(n) => Some(n@),
                        None => None,
                    },
                ),
            ),
        ),
{
    let ghost ds = doc_views(docs@);
    let ghost nv = match node {
        Some(n) => Some(n@),
        None => None,
    };
    let ghost head = out@;
    let mut k: usize = 0;
    while k < docs.len()
        invariant
            0 <= k <= docs@.len(),
            ds == doc_views(docs@),
            nv == match node {
                Some(n) => Some(n@),
                None => None,
            },
            out@ == head + doc_lines(root@, ds.take(k as int).filter(section_pred(nv))),
        decreases docs@.len() - k,
    {
        let ghost pre = ds.take(k as int);
        proof {
            assert(ds.take(k + 1) =~= pre.push(ds[k as int]));
            pre.lemma_filter_push(ds[k as int], section_pred(nv));
        }
        let d = &docs[k];
        let take = match (&d.scope, node) {
            (DecisionScope::Project, None) => true,
            (DecisionScope::Node { segment }, Some(n)) => str_eq(segment.as_str(), n),
            _ => false,
        };
        assert(ds[k as int] == doc_view(docs@[k as int]));
        assert((section_pred(nv))(ds[k as int]) == take);
        if take {
            write_doc_line(out, root, d);
            assert(pre.filter(section_pred(nv)).push(ds[k as int]).drop_last() =~= pre.filter(section_pred(nv)));
        }
        assert(ds.take(k + 1).filter(section_pred(nv)) =~= if take {
            pre.filter(section_pred(nv)).push(ds[k as int])
        } else {
            pre.filter(section_pred(nv))
        });
        k = k + 1;
    }
    assert(ds.take(k as int) =~= ds);
}

/// The listing of decision docs: the project-level ones, then those of
/// each node by node name; a hint when there are none.
pub fn render_decisions(root: &str, docs: &Vec<DecisionDoc>) -> (r: String)
    ensures
        r@ == decisions_text(root@, doc_views(docs@)),
{
    let ghost ds = doc_views(docs@);
    let mut out = String::from_str("Decision documents   ");
    let n = usize_string(docs.len());
    out.append(n.as_str());
    out.append(" total\n\n");
    let ghost p1 = out@;
    let project = filter_decisions(docs, ScopeFilter::Project);
    proof {
        lemma_project_count(docs@);
    }
    assert(doc_views(project@).len() == project@.len());
    assert(doc_views(docs@.filter(pass_pred(ScopeFilter::Project))).len() == docs@.filter(
        pass_pred(ScopeFilter::Project),
    ).len());
    assert(project@.len() == ds.filter(section_pred(None)).len());
    if project.len() > 0 {
        out.append("Project  (docs/decisions/)\n");
        write_section_lines(&mut out, root, docs, None);
        out.append("\n");
    }
    let ghost p2 = out@;
    let mut names: Vec<String> = Vec::new();
    let mut k: usize = 0;
    while k < docs.len()
        invariant
            0 <= k <= docs@.len(),
            ds == doc_views(docs@),
            names@.map_values(|s: String| s@) == node_names(ds.take(k as int)),
        decreases docs@.len() - k,
    {
        let ghost pre = ds.take(k as int);
        proof {
            assert(ds.take(k + 1) =~= pre.push(ds[k as int]));
            pre.lemma_filter_push(ds[k as int], |d: (Seq<char>, Option<Seq<char>>, Seq<char>)| d.1 is Some);
            assert(ds[k as int] == doc_view(docs@[k as int]));
        }
        let ghost before = names@.map_values(|s: String| s@);
        match &docs[k].scope {
            DecisionScope::Node { segment } => {
                names.push(segment.clone());
                assert(names@.map_values(|s: String| s@) =~= before.push(segment@));
                assert(node_names(ds.take(k + 1)) =~= node_names(pre).push(segment@));
            },
            DecisionScope::Project => {
                assert(node_names(ds.take(k + 1)) =~= node_names(pre));
            },
        }
        k = k + 1;
    }
    assert(ds.take(k as int) =~= ds);
    let set = sorted_name_set(&names);
    let ghost nm = set@.map_values(|s: String| s@);
    let mut j: usize = 0;
    while j < set.len()
        invariant
            0 <= j <= set@.len(),
            ds == doc_views(docs@),
            nm == set@.map_values(|s: String| s@),
            out@ == p2 + node_sections(root@, ds, nm.take(j as int)),
        decreases set@.len() - j,
    {
        let name = set[j].as_str();
        out.append(name);
        out.append("\n");
        write_section_lines(&mut out, root, docs, Some(name));
        out.append("\n");
        proof {
            assert(nm.take(j + 1).drop_last() =~= nm.take(j as int));
        }
        j = j + 1;
    }
    assert(nm.take(j as int) =~= nm);
    if docs.len() == 0 {
        out.append("No decision documents found.\n\nAdd docs to docs/decisions/ (project-level) or docs/intent/<node>/decisions/ (per-node).\n");
    }
    assert(out@ =~= decisions_text(root@, ds));
    out
}

proof fn lemma_project_count(docs: Seq<DecisionDoc>)
    ensures
        docs.filter(pass_pred(ScopeFilter::Project)).len() == doc_views(docs).filter(
            section_pred(None),
        ).len(),
    decreases docs.len(),
{
    if docs.len() > 0 {
        let pre = docs.drop_last();
        lemma_project_count(pre);
        assert(docs =~= pre.push(docs.last()));
        pre.lemma_filter_push(docs.last(), pass_pred(ScopeFilter::Project));
        assert(doc_views(docs) =~= doc_views(pre).push(doc_view(docs.last())));
        doc_views(pre).lemma_filter_push(doc_view(docs.last()), section_pred(None));
    } else {
        assert(docs.filter(pass_pred(ScopeFilter::Project)) =~= Seq::<DecisionDoc>::empty());
        assert(doc_views(docs).filter(section_pred(None)) =~= Seq::<(Seq<char>, Option<Seq<char>>, Seq<char>)>::empty());
    }
}

} // verus!
