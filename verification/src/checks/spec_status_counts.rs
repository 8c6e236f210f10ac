//! Spec-status drift check: a spec marked `[ ]` (open) or `[D]` (deferred)
//! that is nonetheless cited by `@spec` somewhere.
//!
//! The other direction (`[x]` with no test citation) is the coverage
//! check's. Findings are warnings: the right fix needs human judgement.

use vstd::prelude::*;

use crate::checks::{
    append_findings, flat, lemma_flat_all, lemma_flat_len_count, lemma_flat_len_sum, lemma_flat_take, sum_of, push_finding, views, Category, Check,
    CheckId, Finding, FindingView, Severity,
};
use crate::ids::SpecId;
use crate::model::{SpecCitation, SpecFile, SpecLine, SpecStatus};
use crate::repo::LidRepo;
use crate::text::cat;

verus! {

/// The spec-status drift check.
pub struct SpecStatusCountsCheck;

/// Some citation names `id`.
pub open spec fn cited(cites: Seq<SpecCitation>, id: Seq<char>) -> bool {
    exists|k: int| 0 <= k < cites.len() && (#[trigger] cites[k]).id@ == id
}

/// A drift finding at `path`:`line` about spec `id`.
pub open spec fn drift_view(path: Seq<char>, line: usize, id: Seq<char>, message: Seq<char>, fix: Seq<char>) -> FindingView {
    FindingView {
        check: CheckId::SpecStatusCounts,
        severity: Severity::Warning,
        category: Category::Coverage,
        message,
        location: Some((path, Some(line))),
        spec: Some(id),
        remediation: Some(fix),
    }
}

/// Findings for one spec line.
pub open spec fn drift_line(path: Seq<char>, line: SpecLine, cites: Seq<SpecCitation>) -> Seq<FindingView> {
    if !cited(cites, line.id@) {
        Seq::empty()
    } else {
        match line.status {
            SpecStatus::Open => seq![
                drift_view(
                    path,
                    line.line,
                    line.id@,
                    "spec `"@ + line.id@ + "` is marked [ ] (open) but is cited by `@spec` in source — looks implemented"@,
                    "flip the marker to `[x]` if the work is done, or remove the stale citation"@,
                ),
            ],
            SpecStatus::Deferred => seq![
                drift_view(
                    path,
                    line.line,
                    line.id@,
                    "spec `"@ + line.id@ + "` is marked [D] (deferred) but is cited by `@spec` in source"@,
                    "if the spec is actually implemented, flip the marker to `[x]`; otherwise remove the citation"@,
                ),
            ],
            SpecStatus::Implemented => Seq::empty(),
        }
    }
}

/// Findings for one spec file, in line order.
pub open spec fn drift_file(file: SpecFile, cites: Seq<SpecCitation>) -> Seq<FindingView> {
    flat(Seq::new(file.specs@.len(), |j: int| drift_line(file.path@, file.specs@[j], cites)))
}

/// Findings of the drift check, file by file.
pub open spec fn spec_status_findings(repo: LidRepo) -> Seq<FindingView> {
    flat(Seq::new(repo.specs@.len(), |i: int| drift_file(repo.specs@[i], repo.citations@)))
}

/// A spec line drifts: open or deferred, yet cited.
pub open spec fn drifting(cites: Seq<SpecCitation>) -> spec_fn(SpecLine) -> bool {
    |l: SpecLine| l.status != SpecStatus::Implemented && cited(cites, l.id@)
}

/// The spec-status check reports exactly one finding per open or
/// deferred spec line that some citation names, file by file.
pub proof fn law_spec_status_findings_count(repo: LidRepo)
    ensures
        spec_status_findings(repo).len() == sum_of(
            repo.specs@,
            |f: SpecFile| f.specs@.filter(drifting(repo.citations@)).len(),
        ),
{
    let cites = repo.citations@;
    let bs = Seq::new(repo.specs@.len(), |i: int| drift_file(repo.specs@[i], cites));
    assert forall|i: int| 0 <= i < repo.specs@.len() implies (#[trigger] bs[i]).len() == repo.specs@[i].specs@.filter(
        drifting(cites),
    ).len() by {
        let file = repo.specs@[i];
        lemma_flat_len_count(
            file.specs@,
            Seq::new(file.specs@.len(), |j: int| drift_line(file.path@, file.specs@[j], cites)),
            drifting(cites),
        );
    }
    lemma_flat_len_sum(repo.specs@, bs, |f: SpecFile| f.specs@.filter(drifting(repo.citations@)).len());
}

/// Whether some citation names `id`.
pub fn is_cited(cites: &Vec<SpecCitation>, id: &SpecId) -> (r: bool)
    ensures
        r == cited(cites@, id@),
{
    let mut k: usize = 0;
    while k < cites.len()
        invariant
            0 <= k <= cites@.len(),
            forall|j: int| 0 <= j < k ==> (#[trigger] cites@[j]).id@ != id@,
        decreases cites@.len() - k,
    {
        if cites[k].id.same(id) {
            return true;
        }
        k = k + 1;
    }
    false
}

/// A spec-status drift finding.
pub fn drift_finding(path: String, line: usize, spec: SpecId, message: String, remediation: String) -> (r: Finding)
    ensures
        r@ == drift_view(path@, line, spec@, message@, remediation@),
{
    crate::checks::finding_on_line(
        CheckId::SpecStatusCounts,
        Severity::Warning,
        Category::Coverage,
        message,
        path,
        line,
        spec,
        remediation,
    )
}

fn drift_file_exec(file: &SpecFile, cites: &Vec<SpecCitation>) -> (r: Vec<Finding>)
    ensures
        views(r@) == drift_file(*file, cites@),
{
    let ghost blocks = Seq::new(file.specs@.len(), |j: int| drift_line(file.path@, file.specs@[j], cites@));
    let mut out: Vec<Finding> = Vec::new();
    let mut j: usize = 0;
    while j < file.specs.len()
        invariant
            0 <= j <= file.specs@.len(),
            blocks == Seq::new(file.specs@.len(), |j: int| drift_line(file.path@, file.specs@[j], cites@)),
            views(out@) == flat(blocks.take(j as int)),
        decreases file.specs@.len() - j,
    {
        proof {
            lemma_flat_take(blocks, j as int);
        }
        let line = &file.specs[j];
        if is_cited(cites, &line.id) {
            match line.status {
                SpecStatus::Open => {
                    let mut msg = cat("spec `", line.id.as_str());
                    msg.append("` is marked [ ] (open) but is cited by `@spec` in source — looks implemented");
                    let fix = String::from_str(
                        "flip the marker to `[x]` if the work is done, or remove the stale citation",
                    );
                    push_finding(&mut out, drift_finding(file.path.clone(), line.line, line.id.clone(), msg, fix));
                },
                SpecStatus::Deferred => {
                    let mut msg = cat("spec `", line.id.as_str());
                    msg.append("` is marked [D] (deferred) but is cited by `@spec` in source");
                    let fix = String::from_str(
                        "if the spec is actually implemented, flip the marker to `[x]`; otherwise remove the citation",
                    );
                    push_finding(&mut out, drift_finding(file.path.clone(), line.line, line.id.clone(), msg, fix));
                },
                SpecStatus::Implemented => {},
            }
        }
        j = j + 1;
    }
    proof {
        lemma_flat_all(blocks);
    }
    out
}

impl Check for SpecStatusCountsCheck {
    fn id(&self) -> (r: CheckId)
        ensures
            r == CheckId::SpecStatusCounts,
    {
        CheckId::SpecStatusCounts
    }

    /// Flags each cited spec line whose marker is `[ ]` or `[D]`.
    fn run(&self, repo: &LidRepo) -> (r: Vec<Finding>)
        ensures
            views(r@) == spec_status_findings(*repo),
    {
        let ghost blocks = Seq::new(repo.specs@.len(), |i: int| drift_file(repo.specs@[i], repo.citations@));
        let mut out: Vec<Finding> = Vec::new();
        let mut i: usize = 0;
        while i < repo.specs.len()
            invariant
                0 <= i <= repo.specs@.len(),
                blocks == Seq::new(repo.specs@.len(), |i: int| drift_file(repo.specs@[i], repo.citations@)),
                views(out@) == flat(blocks.take(i as int)),
            decreases repo.specs@.len() - i,
        {
            proof {
                lemma_flat_take(blocks, i as int);
            }
            let more = drift_file_exec(&repo.specs[i], &repo.citations);
            append_findings(&mut out, more);
            i = i + 1;
        }
        proof {
            lemma_flat_all(blocks);
        }
        out
    }
}

} // verus!
