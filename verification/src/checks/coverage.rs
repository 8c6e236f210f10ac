//! Coverage check: every spec marked `[x]` must be cited by `@spec` from
//! at least one test file.
//!
//! `[ ]` and `[D]` specs are skipped: a missing citation is expected for
//! both. Only citations classified as tests count; production-code
//! citations are the reverse-orphan check's business.

use vstd::prelude::*;

use crate::checks::{
    flat, lemma_flat_all, lemma_flat_len_count, lemma_flat_len_sum, lemma_flat_take, sum_of, push_finding, views, append_findings, Category, Check,
    CheckId, Finding, FindingView, Location, Severity,
};
use crate::model::{CitationKind, SpecCitation, SpecFile, SpecLine, SpecStatus};
use crate::repo::LidRepo;
use crate::text::cat;

verus! {

/// The coverage check.
pub struct CoverageCheck;

/// Some test-file citation names `id`.
pub open spec fn tested(cites: Seq<SpecCitation>, id: Seq<char>) -> bool {
    exists|k: int| 0 <= k < cites.len() && cites[k].kind == CitationKind::Test && (#[trigger] cites[k]).id@ == id
}

/// The finding for an implemented spec line that no test cites.
pub open spec fn coverage_finding(path: Seq<char>, line: SpecLine) -> FindingView {
    FindingView {
        check: CheckId::Coverage,
        severity: Severity::Warning,
        category: Category::Coverage,
        message: "spec `"@ + line.id@
            + "` is marked [x] (implemented) but has no `@spec` citation in any test file"@,
        location: Some((path, Some(line.line))),
        spec: Some(line.id@),
        remediation: Some("add `@spec "@ + line.id@ + "` to a test that exercises this requirement"@),
    }
}

/// Findings for one spec line.
pub open spec fn coverage_line(path: Seq<char>, line: SpecLine, cites: Seq<SpecCitation>) -> Seq<FindingView> {
    if line.status == SpecStatus::Implemented && !tested(cites, line.id@) {
        seq![coverage_finding(path, line)]
    } else {
        Seq::empty()
    }
}

/// Findings for one spec file, in line order.
pub open spec fn coverage_file(file: SpecFile, cites: Seq<SpecCitation>) -> Seq<FindingView> {
    flat(Seq::new(file.specs@.len(), |j: int| coverage_line(file.path@, file.specs@[j], cites)))
}

/// Findings of the coverage check, file by file.
pub open spec fn coverage_findings(repo: LidRepo) -> Seq<FindingView> {
    flat(Seq::new(repo.specs@.len(), |i: int| coverage_file(repo.specs@[i], repo.citations@)))
}

/// A spec line is uncovered: implemented, and no test cites it.
pub open spec fn uncovered(cites: Seq<SpecCitation>) -> spec_fn(SpecLine) -> bool {
    |l: SpecLine| l.status == SpecStatus::Implemented && !tested(cites, l.id@)
}

/// The coverage check reports exactly one finding per uncovered spec
/// line, file by file.
pub proof fn law_coverage_findings_count(repo: LidRepo)
    ensures
        coverage_findings(repo).len() == sum_of(
            repo.specs@,
            |f: SpecFile| f.specs@.filter(uncovered(repo.citations@)).len(),
        ),
{
    let cites = repo.citations@;
    let bs = Seq::new(repo.specs@.len(), |i: int| coverage_file(repo.specs@[i], cites));
    assert forall|i: int| 0 <= i < repo.specs@.len() implies (#[trigger] bs[i]).len() == repo.specs@[i].specs@.filter(
        uncovered(cites),
    ).len() by {
        let file = repo.specs@[i];
        lemma_flat_len_count(
            file.specs@,
            Seq::new(file.specs@.len(), |j: int| coverage_line(file.path@, file.specs@[j], cites)),
            uncovered(cites),
        );
    }
    lemma_flat_len_sum(repo.specs@, bs, |f: SpecFile| f.specs@.filter(uncovered(repo.citations@)).len());
}

/// Whether some test-file citation names `id`.
fn is_tested(cites: &Vec<SpecCitation>, id: &crate::ids::SpecId) -> (r: bool)
    ensures
        r == tested(cites@, id@),
{
    let mut k: usize = 0;
    while k < cites.len()
        invariant
            0 <= k <= cites@.len(),
            forall|j: int| 0 <= j < k ==> !(cites@[j].kind == CitationKind::Test && (#[trigger] cites@[j]).id@ == id@),
        decreases cites@.len() - k,
    {
        if cites[k].kind == CitationKind::Test && cites[k].id.same(id) {
            return true;
        }
        k = k + 1;
    }
    false
}

fn coverage_file_exec(file: &SpecFile, cites: &Vec<SpecCitation>) -> (r: Vec<Finding>)
    ensures
        views(r@) == coverage_file(*file, cites@),
{
    let ghost blocks = Seq::new(file.specs@.len(), |j: int| coverage_line(file.path@, file.specs@[j], cites@));
    let mut out: Vec<Finding> = Vec::new();
    let mut j: usize = 0;
    while j < file.specs.len()
        invariant
            0 <= j <= file.specs@.len(),
            blocks == Seq::new(file.specs@.len(), |j: int| coverage_line(file.path@, file.specs@[j], cites@)),
            views(out@) == flat(blocks.take(j as int)),
        decreases file.specs@.len() - j,
    {
        proof {
            lemma_flat_take(blocks, j as int);
        }
        let line = &file.specs[j];
        if line.status == SpecStatus::Implemented && !is_tested(cites, &line.id) {
            let mut msg = cat("spec `", line.id.as_str());
            msg.append("` is marked [x] (implemented) but has no `@spec` citation in any test file");
            let mut fix = cat("add `@spec ", line.id.as_str());
            fix.append("` to a test that exercises this requirement");
            let f = Finding {
                check: CheckId::Coverage,
                severity: Severity::Warning,
                category: Category::Coverage,
                message: msg,
                location: Some(Location { path: file.path.clone(), line: Some(line.line) }),
                spec: Some(line.id.clone()),
                remediation: Some(fix),
            };
            push_finding(&mut out, f);
        }
        j = j + 1;
    }
    proof {
        lemma_flat_all(blocks);
    }
    out
}

impl Check for CoverageCheck {
    fn id(&self) -> (r: CheckId)
        ensures
            r == CheckId::Coverage,
    {
        CheckId::Coverage
    }

    /// Flags each `[x]` spec line that no test-file citation names.
    fn run(&self, repo: &LidRepo) -> (r: Vec<Finding>)
        ensures
            views(r@) == coverage_findings(*repo),
    {
        let ghost blocks = Seq::new(repo.specs@.len(), |i: int| coverage_file(repo.specs@[i], repo.citations@));
        let mut out: Vec<Finding> = Vec::new();
        let mut i: usize = 0;
        while i < repo.specs.len()
            invariant
                0 <= i <= repo.specs@.len(),
                blocks == Seq::new(repo.specs@.len(), |i: int| coverage_file(repo.specs@[i], repo.citations@)),
                views(out@) == flat(blocks.take(i as int)),
            decreases repo.specs@.len() - i,
        {
            proof {
                lemma_flat_take(blocks, i as int);
            }
            let more = coverage_file_exec(&repo.specs[i], &repo.citations);
            append_findings(&mut out, more);
            i = i + 1;
        }
        proof {
            lemma_flat_all(blocks);
        }
        out
    }
}

} // verus!
