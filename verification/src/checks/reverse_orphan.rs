//! Reverse-orphan check: `@spec` citations naming a spec ID that no spec
//! file defines.
//!
//! Reverse orphans are questions for the user (create the spec, delete the
//! citation, or alias it); they are reported as errors so they are seen.

use vstd::prelude::*;

use crate::checks::{
    flat, lemma_flat_all, lemma_flat_len_count, lemma_flat_take, push_finding, views, Category, Check, CheckId, Finding,
    FindingView, Location, Severity,
};
use crate::ids::SpecId;
use crate::model::{SpecCitation, SpecFile};
use crate::repo::LidRepo;
use crate::text::cat;

verus! {

/// The reverse-orphan check.
pub struct ReverseOrphanCheck;

/// Some spec line of some spec file has ID `id`.
pub open spec fn defined_in(files: Seq<SpecFile>, id: Seq<char>) -> bool {
    exists|i: int, j: int|
        0 <= i < files.len() && 0 <= j < files[i].specs@.len() && (#[trigger] files[i].specs@[j]).id@ == id
}

/// The finding for a citation of an undefined spec.
pub open spec fn reverse_orphan_finding(c: SpecCitation) -> FindingView {
    FindingView {
        check: CheckId::ReverseOrphan,
        severity: Severity::Error,
        category: Category::Orphans,
        message: "`@spec "@ + c.id@ + "` references a spec ID that is not defined in any spec file"@,
        location: Some((c.file@, Some(c.line))),
        spec: Some(c.id@),
        remediation: Some(
            "either add `"@ + c.id@
                + "` to a spec file, delete the annotation, or alias it to an existing spec"@,
        ),
    }
}

/// Findings for one citation.
pub open spec fn reverse_orphan_cite(c: SpecCitation, files: Seq<SpecFile>) -> Seq<FindingView> {
    if defined_in(files, c.id@) {
        Seq::empty()
    } else {
        seq![reverse_orphan_finding(c)]
    }
}

/// Findings of the reverse-orphan check, in citation order.
pub open spec fn reverse_orphan_findings(repo: LidRepo) -> Seq<FindingView> {
    flat(Seq::new(repo.citations@.len(), |k: int| reverse_orphan_cite(repo.citations@[k], repo.specs@)))
}

/// The reverse-orphan check reports exactly one finding per citation
/// whose ID no spec file defines, in citation order.
pub proof fn law_reverse_orphan_findings_count(repo: LidRepo)
    ensures
        reverse_orphan_findings(repo).len() == repo.citations@.filter(
            |c: SpecCitation| !defined_in(repo.specs@, c.id@),
        ).len(),
{
    lemma_flat_len_count(
        repo.citations@,
        Seq::new(repo.citations@.len(), |k: int| reverse_orphan_cite(repo.citations@[k], repo.specs@)),
        |c: SpecCitation| !defined_in(repo.specs@, c.id@),
    );
}

/// Whether some spec line of `files` has ID `id`.
pub fn is_defined(files: &Vec<SpecFile>, id: &SpecId) -> (r: bool)
    ensures
        r == defined_in(files@, id@),
{
    let mut i: usize = 0;
    while i < files.len()
        invariant
            0 <= i <= files@.len(),
            forall|a: int, b: int|
                0 <= a < i && 0 <= b < files@[a].specs@.len() ==> (#[trigger] files@[a].specs@[b]).id@ != id@,
        decreases files@.len() - i,
    {
        let mut j: usize = 0;
        while j < files[i].specs.len()
            invariant
                0 <= i < files@.len(),
                0 <= j <= files@[i as int].specs@.len(),
                forall|a: int, b: int|
                    0 <= a < i && 0 <= b < files@[a].specs@.len() ==> (#[trigger] files@[a].specs@[b]).id@ != id@,
                forall|b: int| 0 <= b < j ==> (#[trigger] files@[i as int].specs@[b]).id@ != id@,
            decreases files@[i as int].specs@.len() - j,
        {
            if files[i].specs[j].id.same(id) {
                return true;
            }
            j = j + 1;
        }
        i = i + 1;
    }
    false
}

impl Check for ReverseOrphanCheck {
    fn id(&self) -> (r: CheckId)
        ensures
            r == CheckId::ReverseOrphan,
    {
        CheckId::ReverseOrphan
    }

    /// Flags each citation whose spec ID no spec file defines.
    fn run(&self, repo: &LidRepo) -> (r: Vec<Finding>)
        ensures
            views(r@) == reverse_orphan_findings(*repo),
    {
        let ghost blocks = Seq::new(
            repo.citations@.len(),
            |k: int| reverse_orphan_cite(repo.citations@[k], repo.specs@),
        );
        let mut out: Vec<Finding> = Vec::new();
        let mut k: usize = 0;
        while k < repo.citations.len()
            invariant
                0 <= k <= repo.citations@.len(),
                blocks == Seq::new(
                    repo.citations@.len(),
                    |k: int| reverse_orphan_cite(repo.citations@[k], repo.specs@),
                ),
                views(out@) == flat(blocks.take(k as int)),
            decreases repo.citations@.len() - k,
        {
            proof {
                lemma_flat_take(blocks, k as int);
            }
            let c = &repo.citations[k];
            if !is_defined(&repo.specs, &c.id) {
                let mut msg = cat("`@spec ", c.id.as_str());
                msg.append("` references a spec ID that is not defined in any spec file");
                let mut fix = cat("either add `", c.id.as_str());
                fix.append("` to a spec file, delete the annotation, or alias it to an existing spec");
                let f = Finding {
                    check: CheckId::ReverseOrphan,
                    severity: Severity::Error,
                    category: Category::Orphans,
                    message: msg,
                    location: Some(Location { path: c.file.clone(), line: Some(c.line) }),
                    spec: Some(c.id.clone()),
                    remediation: Some(fix),
                };
                push_finding(&mut out, f);
            }
            k = k + 1;
        }
        proof {
            lemma_flat_all(blocks);
        }
        out
    }
}

} // verus!
