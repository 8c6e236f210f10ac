//! Reference coherence check: every path an arrow doc's `## References`
//! bullet names must exist.
//!
//! Bullets are resolved as `crate::checks::resolve` describes; a `§Section`
//! anchor is not checked. Whether a path exists is read from
//! `LidRepo::present_paths`.

use vstd::prelude::*;

use crate::checks::resolve::{resolve_arrow_ref, resolved_ref};
use crate::checks::{
    append_findings, flat, lemma_flat_all, lemma_flat_len_count, lemma_flat_len_sum, lemma_flat_take, sum_of, push_finding, views, Category, Check,
    CheckId, Finding, FindingView, Severity,
};
use crate::model::ArrowDoc;
use crate::paths::{display_relative, relative_to};
use crate::repo::{is_present, present_in, LidRepo};
use crate::text::cat;

verus! {

/// The reference coherence check.
pub struct ReferenceCoherenceCheck;

/// The finding for a bullet of `doc` under `### category` naming the
/// missing path `resolved`.
pub open spec fn missing_ref_view(root: Seq<char>, doc: ArrowDoc, category: Seq<char>, raw: Seq<char>, resolved: Seq<char>) -> FindingView {
    FindingView {
        check: CheckId::ReferenceCoherence,
        severity: Severity::Error,
        category: Category::References,
        message: "arrow `"@ + relative_to(doc.path@, root) + "` cites missing "@ + category + " reference `"@
            + raw + "`"@,
        location: Some((doc.path@, None)),
        spec: None,
        remediation: Some(
            "ensure `"@ + relative_to(resolved, root) + "` exists or update the bullet in `## References / ### "@
                + category + "`"@,
        ),
    }
}

/// Findings for one bullet.
pub open spec fn bullet_findings(repo: LidRepo, doc: ArrowDoc, category: Seq<char>, raw: Seq<char>) -> Seq<FindingView> {
    match resolved_ref(repo.root@, raw) {
        None => Seq::empty(),
        Some(p) => if present_in(repo.present_paths@, p) {
            Seq::empty()
        } else {
            seq![missing_ref_view(repo.root@, doc, category, raw, p)]
        },
    }
}

/// Findings for the bullets of one `### category` subsection, in order.
pub open spec fn category_findings(repo: LidRepo, doc: ArrowDoc, category: Seq<char>, bullets: Seq<String>) -> Seq<FindingView> {
    flat(Seq::new(bullets.len(), |k: int| bullet_findings(repo, doc, category, bullets[k]@)))
}

/// Findings for one arrow doc: `HLD`, `LLD`, `EARS`, `Tests`, then `Code`.
pub open spec fn doc_reference_findings(repo: LidRepo, doc: ArrowDoc) -> Seq<FindingView> {
    let r = doc.references;
    category_findings(repo, doc, "HLD"@, r.hld@) + category_findings(repo, doc, "LLD"@, r.lld@)
        + category_findings(repo, doc, "EARS"@, r.ears@) + category_findings(repo, doc, "Tests"@, r.tests@)
        + category_findings(repo, doc, "Code"@, r.code@)
}

/// Findings of the reference check, doc by doc.
pub open spec fn reference_findings(repo: LidRepo) -> Seq<FindingView> {
    flat(Seq::new(repo.arrow_docs@.len(), |i: int| doc_reference_findings(repo, repo.arrow_docs@[i])))
}

/// A bullet resolves to a path that is not present in the repository.
pub open spec fn missing_ref(repo: LidRepo) -> spec_fn(String) -> bool {
    |b: String| resolved_ref(repo.root@, b@) matches Some(p) && !present_in(repo.present_paths@, p)
}

/// How many bullets of `doc`'s five subsections are missing.
pub open spec fn doc_missing_count(repo: LidRepo, doc: ArrowDoc) -> nat {
    let r = doc.references;
    r.hld@.filter(missing_ref(repo)).len() + r.lld@.filter(missing_ref(repo)).len() + r.ears@.filter(
        missing_ref(repo),
    ).len() + r.tests@.filter(missing_ref(repo)).len() + r.code@.filter(missing_ref(repo)).len()
}

proof fn lemma_category_count(repo: LidRepo, doc: ArrowDoc, category: Seq<char>, bullets: Seq<String>)
    ensures
        category_findings(repo, doc, category, bullets).len() == bullets.filter(missing_ref(repo)).len(),
{
    lemma_flat_len_count(
        bullets,
        Seq::new(bullets.len(), |k: int| bullet_findings(repo, doc, category, bullets[k]@)),
        missing_ref(repo),
    );
}

/// The reference check reports exactly one finding per `## References`
/// bullet whose path resolves but is not present, doc by doc.
pub proof fn law_reference_findings_count(repo: LidRepo)
    ensures
        reference_findings(repo).len() == sum_of(repo.arrow_docs@, |d: ArrowDoc| doc_missing_count(repo, d)),
{
    let bs = Seq::new(repo.arrow_docs@.len(), |i: int| doc_reference_findings(repo, repo.arrow_docs@[i]));
    assert forall|i: int| 0 <= i < repo.arrow_docs@.len() implies (#[trigger] bs[i]).len() == doc_missing_count(
        repo,
        repo.arrow_docs@[i],
    ) by {
        let doc = repo.arrow_docs@[i];
        let r = doc.references;
        lemma_category_count(repo, doc, "HLD"@, r.hld@);
        lemma_category_count(repo, doc, "LLD"@, r.lld@);
        lemma_category_count(repo, doc, "EARS"@, r.ears@);
        lemma_category_count(repo, doc, "Tests"@, r.tests@);
        lemma_category_count(repo, doc, "Code"@, r.code@);
    }
    lemma_flat_len_sum(repo.arrow_docs@, bs, |d: ArrowDoc| doc_missing_count(repo, d));
}

/// Findings for the bullets of one subsection.
pub fn check_category(repo: &LidRepo, doc: &ArrowDoc, category: &str, bullets: &Vec<String>) -> (r: Vec<Finding>)
    ensures
        views(r@) == category_findings(*repo, *doc, category@, bullets@),
{
    let ghost blocks = Seq::new(bullets@.len(), |k: int| bullet_findings(*repo, *doc, category@, bullets@[k]@));
    let mut out: Vec<Finding> = Vec::new();
    let mut k: usize = 0;
    while k < bullets.len()
        invariant
            0 <= k <= bullets@.len(),
            blocks == Seq::new(bullets@.len(), |k: int| bullet_findings(*repo, *doc, category@, bullets@[k]@)),
            views(out@) == flat(blocks.take(k as int)),
        decreases bullets@.len() - k,
    {
        proof {
            lemma_flat_take(blocks, k as int);
        }
        let raw = bullets[k].as_str();
        match resolve_arrow_ref(repo.root.as_str(), raw) {
            None => {},
            Some(p) => {
                if !is_present(&repo.present_paths, p.as_str()) {
                    let rel = display_relative(doc.path.as_str(), repo.root.as_str());
                    let mut msg = cat("arrow `", rel.as_str());
                    msg.append("` cites missing ");
                    msg.append(category);
                    msg.append(" reference `");
                    msg.append(raw);
                    msg.append("`");
                    let relp = display_relative(p.as_str(), repo.root.as_str());
                    let mut fix = cat("ensure `", relp.as_str());
                    fix.append("` exists or update the bullet in `## References / ### ");
                    fix.append(category);
                    fix.append("`");
                    push_finding(
                        &mut out,
                        crate::checks::finding_at(
                            CheckId::ReferenceCoherence,
                            Severity::Error,
                            Category::References,
                            msg,
                            doc.path.clone(),
                            Some(fix),
                        ),
                    );
                }
            },
        }
        k = k + 1;
    }
    proof {
        lemma_flat_all(blocks);
    }
    out
}

fn doc_exec(repo: &LidRepo, doc: &ArrowDoc) -> (r: Vec<Finding>)
    ensures
        views(r@) == doc_reference_findings(*repo, *doc),
{
    let r = &doc.references;
    let mut out = check_category(repo, doc, "HLD", &r.hld);
    append_findings(&mut out, check_category(repo, doc, "LLD", &r.lld));
    append_findings(&mut out, check_category(repo, doc, "EARS", &r.ears));
    append_findings(&mut out, check_category(repo, doc, "Tests", &r.tests));
    append_findings(&mut out, check_category(repo, doc, "Code", &r.code));
    out
}

impl Check for ReferenceCoherenceCheck {
    fn id(&self) -> (r: CheckId)
        ensures
            r == CheckId::ReferenceCoherence,
    {
        CheckId::ReferenceCoherence
    }

    /// Flags each reference bullet whose named path is missing.
    fn run(&self, repo: &LidRepo) -> (r: Vec<Finding>)
        ensures
            views(r@) == reference_findings(*repo),
    {
        let ghost blocks = Seq::new(repo.arrow_docs@.len(), |i: int| doc_reference_findings(*repo, repo.arrow_docs@[i]));
        let mut out: Vec<Finding> = Vec::new();
        let mut i: usize = 0;
        while i < repo.arrow_docs.len()
            invariant
                0 <= i <= repo.arrow_docs@.len(),
                blocks == Seq::new(
                    repo.arrow_docs@.len(),
                    |i: int| doc_reference_findings(*repo, repo.arrow_docs@[i]),
                ),
                views(out@) == flat(blocks.take(i as int)),
            decreases repo.arrow_docs@.len() - i,
        {
            proof {
                lemma_flat_take(blocks, i as int);
            }
            append_findings(&mut out, doc_exec(repo, &repo.arrow_docs[i]));
            i = i + 1;
        }
        proof {
            lemma_flat_all(blocks);
        }
        out
    }
}

} // verus!
