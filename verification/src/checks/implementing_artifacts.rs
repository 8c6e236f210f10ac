//! Implementing-artifacts check: every path a spec file lists under
//! `**Implementing artifacts**:` must exist.
//!
//! Stale entries pile up silently after files are renamed or deleted; each
//! missing one is an error. Relative entries are resolved against the
//! project root; whether a path exists is read from `LidRepo::present_paths`.

use vstd::prelude::*;

use crate::checks::{
    append_findings, flat, lemma_flat_all, lemma_flat_len_count, lemma_flat_len_sum, lemma_flat_take, sum_of, push_finding, views, Category, Check,
    CheckId, Finding, FindingView, Severity,
};
use crate::model::SpecFile;
use crate::paths::{display_relative, join, join_path, relative_to};
use crate::repo::{is_present, present_in, LidRepo};
use crate::text::cat;

verus! {

/// The implementing-artifacts check.
pub struct ImplementingArtifactsCheck;

/// The finding for a listed artifact that does not exist.
pub open spec fn missing_artifact_finding(root: Seq<char>, file: SpecFile, artifact: Seq<char>) -> FindingView {
    FindingView {
        check: CheckId::ImplementingArtifacts,
        severity: Severity::Error,
        category: Category::References,
        message: "`"@ + relative_to(file.path@, root) + "` declares implementing artifact `"@ + artifact
            + "` which does not exist"@,
        location: Some((file.path@, None)),
        spec: None,
        remediation: Some("create the referenced file or remove it from implementing_artifacts"@),
    }
}

/// Findings for one listed artifact.
pub open spec fn artifact_findings(repo: LidRepo, file: SpecFile, artifact: Seq<char>) -> Seq<FindingView> {
    if present_in(repo.present_paths@, join_path(repo.root@, artifact)) {
        Seq::empty()
    } else {
        seq![missing_artifact_finding(repo.root@, file, artifact)]
    }
}

/// Findings for one spec file, in listing order.
pub open spec fn artifacts_file(repo: LidRepo, file: SpecFile) -> Seq<FindingView> {
    flat(Seq::new(
        file.implementing_artifacts@.len(),
        |j: int| artifact_findings(repo, file, file.implementing_artifacts@[j]@),
    ))
}

/// Findings of the implementing-artifacts check, file by file.
pub open spec fn implementing_artifacts_findings(repo: LidRepo) -> Seq<FindingView> {
    flat(Seq::new(repo.specs@.len(), |i: int| artifacts_file(repo, repo.specs@[i])))
}

/// A listed artifact whose path, joined to the root, is not present.
pub open spec fn artifact_missing(repo: LidRepo) -> spec_fn(String) -> bool {
    |a: String| !present_in(repo.present_paths@, join_path(repo.root@, a@))
}

/// The check reports exactly one finding per listed implementing
/// artifact that is not present, file by file.
pub proof fn law_implementing_artifacts_count(repo: LidRepo)
    ensures
        implementing_artifacts_findings(repo).len() == sum_of(
            repo.specs@,
            |f: SpecFile| f.implementing_artifacts@.filter(artifact_missing(repo)).len(),
        ),
{
    let bs = Seq::new(repo.specs@.len(), |i: int| artifacts_file(repo, repo.specs@[i]));
    assert forall|i: int| 0 <= i < repo.specs@.len() implies (#[trigger] bs[i]).len() == repo.specs@[i].implementing_artifacts@.filter(
        artifact_missing(repo),
    ).len() by {
        let file = repo.specs@[i];
        lemma_flat_len_count(
            file.implementing_artifacts@,
            Seq::new(
                file.implementing_artifacts@.len(),
                |j: int| artifact_findings(repo, file, file.implementing_artifacts@[j]@),
            ),
            artifact_missing(repo),
        );
    }
    lemma_flat_len_sum(repo.specs@, bs, |f: SpecFile| f.implementing_artifacts@.filter(artifact_missing(repo)).len());
}

fn artifacts_file_exec(repo: &LidRepo, file: &SpecFile) -> (r: Vec<Finding>)
    ensures
        views(r@) == artifacts_file(*repo, *file),
{
    let ghost blocks = Seq::new(
        file.implementing_artifacts@.len(),
        |j: int| artifact_findings(*repo, *file, file.implementing_artifacts@[j]@),
    );
    let mut out: Vec<Finding> = Vec::new();
    let mut j: usize = 0;
    while j < file.implementing_artifacts.len()
        invariant
            0 <= j <= file.implementing_artifacts@.len(),
            blocks == Seq::new(
                file.implementing_artifacts@.len(),
                |j: int| artifact_findings(*repo, *file, file.implementing_artifacts@[j]@),
            ),
            views(out@) == flat(blocks.take(j as int)),
        decreases file.implementing_artifacts@.len() - j,
    {
        proof {
            lemma_flat_take(blocks, j as int);
        }
        let artifact = &file.implementing_artifacts[j];
        let abs = join(repo.root.as_str(), artifact.as_str());
        if !is_present(&repo.present_paths, abs.as_str()) {
            let rel = display_relative(file.path.as_str(), repo.root.as_str());
            let mut msg = cat("`", rel.as_str());
            msg.append("` declares implementing artifact `");
            msg.append(artifact.as_str());
            msg.append("` which does not exist");
            let f = crate::checks::finding_at(
                CheckId::ImplementingArtifacts,
                Severity::Error,
                Category::References,
                msg,
                file.path.clone(),
                Some(String::from_str("create the referenced file or remove it from implementing_artifacts")),
            );
            push_finding(&mut out, f);
        }
        j = j + 1;
    }
    proof {
        lemma_flat_all(blocks);
    }
    out
}

impl Check for ImplementingArtifactsCheck {
    fn id(&self) -> (r: CheckId)
        ensures
            r == CheckId::ImplementingArtifacts,
    {
        CheckId::ImplementingArtifacts
    }

    /// Flags each listed artifact that is not present on disk.
    fn run(&self, repo: &LidRepo) -> (r: Vec<Finding>)
        ensures
            views(r@) == implementing_artifacts_findings(*repo),
    {
        let ghost blocks = Seq::new(repo.specs@.len(), |i: int| artifacts_file(*repo, repo.specs@[i]));
        let mut out: Vec<Finding> = Vec::new();
        let mut i: usize = 0;
        while i < repo.specs.len()
            invariant
                0 <= i <= repo.specs@.len(),
                blocks == Seq::new(repo.specs@.len(), |i: int| artifacts_file(*repo, repo.specs@[i])),
                views(out@) == flat(blocks.take(i as int)),
            decreases repo.specs@.len() - i,
        {
            proof {
                lemma_flat_take(blocks, i as int);
            }
            let more = artifacts_file_exec(repo, &repo.specs[i]);
            append_findings(&mut out, more);
            i = i + 1;
        }
        proof {
            lemma_flat_all(blocks);
        }
        out
    }
}

} // verus!
