//! LLD `Decisions & Alternatives` check.
//!
//! * An LLD with no decision rows is a warning — unless the folder that
//!   holds it has per-node decision docs, where the rationale lives instead.
//! * An LLD whose rows are mostly (more than half) `[inferred]` gets an
//!   informational finding: reconstructed rows await confirmation.

use vstd::prelude::*;

use crate::checks::{
    flat, lemma_flat_all, lemma_flat_forall, lemma_flat_len_at_most_one, lemma_flat_len_count, lemma_flat_take, push_finding, views, Category, Check, CheckId, Finding,
    FindingView, Severity,
};
use crate::model::{DecisionDoc, DecisionRow, DecisionScope, LldDoc};
use crate::paths::{display_relative, parent_name, path_parent_name, relative_to};
use crate::repo::LidRepo;
use crate::text::{cat, decimal, str_eq, usize_string};

verus! {

/// The LLD decisions check.
pub struct LldDecisionsCheck;

/// How many rows are marked `[inferred]`.
pub open spec fn inferred_count(rows: Seq<DecisionRow>) -> nat
    decreases rows.len(),
{
    if rows.len() == 0 {
        0
    } else {
        inferred_count(rows.drop_last()) + if rows.last().inferred {
            1nat
        } else {
            0nat
        }
    }
}

/// The scope is the node named `name`.
pub open spec fn scoped_to(scope: DecisionScope, name: Seq<char>) -> bool {
    match scope {
        DecisionScope::Node { segment } => segment@ == name,
        DecisionScope::Project => false,
    }
}

/// Some decision doc is scoped to the node named `name`.
pub open spec fn has_node_decisions(docs: Seq<DecisionDoc>, name: Seq<char>) -> bool {
    exists|k: int| 0 <= k < docs.len() && scoped_to((#[trigger] docs[k]).scope, name)
}

/// Findings for one LLD.
pub open spec fn lld_findings(repo: LidRepo, lld: LldDoc) -> Seq<FindingView> {
    let total = lld.decisions@.len();
    let rel = relative_to(lld.path@, repo.root@);
    if total == 0 {
        if has_node_decisions(repo.decision_docs@, parent_name(lld.path@)) {
            Seq::empty()
        } else {
            seq![
                FindingView {
                    check: CheckId::LldDecisions,
                    severity: Severity::Warning,
                    category: Category::Lint,
                    message: "LLD `"@ + rel + "` has no `## Decisions & Alternatives` rows"@,
                    location: Some((lld.path@, None)),
                    spec: None,
                    remediation: Some(
                        "add a `## Decisions & Alternatives` table with rows recording the key design choices"@,
                    ),
                },
            ]
        }
    } else {
        let inferred = inferred_count(lld.decisions@);
        if inferred * 2 > total {
            seq![
                FindingView {
                    check: CheckId::LldDecisions,
                    severity: Severity::Info,
                    category: Category::Lint,
                    message: "LLD `"@ + rel + "` has "@ + decimal(inferred) + "/"@ + decimal(total)
                        + " `[inferred]` rows — brownfield content awaiting human confirmation"@,
                    location: Some((lld.path@, None)),
                    spec: None,
                    remediation: Some(
                        "confirm or refute each `[inferred]` row by removing the marker once the design choice is validated"@,
                    ),
                },
            ]
        } else {
            Seq::empty()
        }
    }
}

/// Findings of the LLD decisions check, LLD by LLD.
pub open spec fn lld_decisions_findings(repo: LidRepo) -> Seq<FindingView> {
    flat(Seq::new(repo.llds@.len(), |i: int| lld_findings(repo, repo.llds@[i])))
}

/// The LLD decisions check reports at most one finding per LLD, each a
/// `Lint` finding of that check at the LLD's file.
pub proof fn law_lld_decisions_one_per_lld(repo: LidRepo)
    ensures
        lld_decisions_findings(repo).len() <= repo.llds@.len(),
        forall|k: int|
            0 <= k < lld_decisions_findings(repo).len() ==> (#[trigger] lld_decisions_findings(repo)[k]).check
                == CheckId::LldDecisions && lld_decisions_findings(repo)[k].category == Category::Lint,
{
    let bs = Seq::new(repo.llds@.len(), |i: int| lld_findings(repo, repo.llds@[i]));
    let p = |f: FindingView| f.check == CheckId::LldDecisions && f.category == Category::Lint;
    assert forall|i: int| 0 <= i < bs.len() implies (#[trigger] bs[i]).len() <= 1 by {
        assert(bs[i] == lld_findings(repo, repo.llds@[i]));
    }
    lemma_flat_len_at_most_one(bs);
    assert forall|i: int, k: int| 0 <= i < bs.len() && 0 <= k < bs[i].len() implies p(#[trigger] bs[i][k]) by {
        assert(bs[i] == lld_findings(repo, repo.llds@[i]));
    }
    lemma_flat_forall(bs, p);
}

/// The LLD is reported: it has no decision rows and no decision doc is
/// scoped to its node, or more than half of its rows are `[inferred]`.
pub open spec fn lld_flagged(repo: LidRepo, lld: LldDoc) -> bool {
    let total = lld.decisions@.len();
    ||| total == 0 && !has_node_decisions(repo.decision_docs@, parent_name(lld.path@))
    ||| total > 0 && inferred_count(lld.decisions@) * 2 > total
}

/// The check reports exactly one finding per flagged LLD: a warning when
/// it has no rows, an info note when most rows are inferred.
pub proof fn law_lld_decisions_count(repo: LidRepo)
    ensures
        lld_decisions_findings(repo).len() == repo.llds@.filter(|l: LldDoc| lld_flagged(repo, l)).len(),
        forall|i: int|
            0 <= i < repo.llds@.len() ==> (#[trigger] lld_findings(repo, repo.llds@[i])).len() == (if lld_flagged(
                repo,
                repo.llds@[i],
            ) {
                1nat
            } else {
                0nat
            }),
        forall|i: int|
            0 <= i < repo.llds@.len() && lld_flagged(repo, repo.llds@[i]) ==> (#[trigger] lld_findings(
                repo,
                repo.llds@[i],
            ))[0].severity == (if repo.llds@[i].decisions@.len() == 0 {
                Severity::Warning
            } else {
                Severity::Info
            }),
{
    let bs = Seq::new(repo.llds@.len(), |i: int| lld_findings(repo, repo.llds@[i]));
    assert forall|j: int| 0 <= j < repo.llds@.len() implies (#[trigger] bs[j]).len() == (if lld_flagged(
        repo,
        repo.llds@[j],
    ) {
        1nat
    } else {
        0nat
    }) by {
        assert(bs[j] == lld_findings(repo, repo.llds@[j]));
    }
    lemma_flat_len_count(repo.llds@, bs, |l: LldDoc| lld_flagged(repo, l));
}

fn count_inferred(rows: &Vec<DecisionRow>) -> (r: usize)
    ensures
        r == inferred_count(rows@),
        r <= rows@.len(),
{
    let mut n: usize = 0;
    let mut k: usize = 0;
    while k < rows.len()
        invariant
            0 <= k <= rows@.len(),
            n == inferred_count(rows@.take(k as int)),
            n <= k,
        decreases rows@.len() - k,
    {
        assert(rows@.take(k + 1).drop_last() =~= rows@.take(k as int));
        if rows[k].inferred {
            n = n + 1;
        }
        k = k + 1;
    }
    assert(rows@.take(rows@.len() as int) =~= rows@);
    n
}

fn any_node_decisions(docs: &Vec<DecisionDoc>, name: &str) -> (r: bool)
    ensures
        r == has_node_decisions(docs@, name@),
{
    let mut k: usize = 0;
    while k < docs.len()
        invariant
            0 <= k <= docs@.len(),
            forall|j: int| 0 <= j < k ==> !scoped_to((#[trigger] docs@[j]).scope, name@),
        decreases docs@.len() - k,
    {
        match &docs[k].scope {
            DecisionScope::Node { segment } => {
                if str_eq(segment.as_str(), name) {
                    return true;
                }
            },
            DecisionScope::Project => {},
        }
        k = k + 1;
    }
    false
}

fn lld_findings_exec(repo: &LidRepo, lld: &LldDoc) -> (r: Vec<Finding>)
    ensures
        views(r@) == lld_findings(*repo, *lld),
{
    let mut out: Vec<Finding> = Vec::new();
    let total = lld.decisions.len();
    let rel = display_relative(lld.path.as_str(), repo.root.as_str());
    if total == 0 {
        let node = path_parent_name(lld.path.as_str());
        if any_node_decisions(&repo.decision_docs, node.as_str()) {
            return out;
        }
        let mut msg = cat("LLD `", rel.as_str());
        msg.append("` has no `## Decisions & Alternatives` rows");
        let f = crate::checks::finding_at(
            CheckId::LldDecisions,
            Severity::Warning,
            Category::Lint,
            msg,
            lld.path.clone(),
            Some(
                String::from_str(
                    "add a `## Decisions & Alternatives` table with rows recording the key design choices",
                ),
            ),
        );
        push_finding(&mut out, f);
        assert(views(out@) =~= lld_findings(*repo, *lld));
        return out;
    }
    let inferred = count_inferred(&lld.decisions);
    if inferred > total - inferred {
        let mut msg = cat("LLD `", rel.as_str());
        msg.append("` has ");
        let a = usize_string(inferred);
        msg.append(a.as_str());
        msg.append("/");
        let b = usize_string(total);
        msg.append(b.as_str());
        msg.append(" `[inferred]` rows — brownfield content awaiting human confirmation");
        let f = crate::checks::finding_at(
            CheckId::LldDecisions,
            Severity::Info,
            Category::Lint,
            msg,
            lld.path.clone(),
            Some(
                String::from_str(
                    "confirm or refute each `[inferred]` row by removing the marker once the design choice is validated",
                ),
            ),
        );
        push_finding(&mut out, f);
        assert(views(out@) =~= lld_findings(*repo, *lld));
    }
    out
}

impl Check for LldDecisionsCheck {
    fn id(&self) -> (r: CheckId)
        ensures
            r == CheckId::LldDecisions,
    {
        CheckId::LldDecisions
    }

    /// Flags LLDs without decision rows and LLDs whose rows are mostly inferred.
    fn run(&self, repo: &LidRepo) -> (r: Vec<Finding>)
        ensures
            views(r@) == lld_decisions_findings(*repo),
    {
        let ghost blocks = Seq::new(repo.llds@.len(), |i: int| lld_findings(*repo, repo.llds@[i]));
        let mut out: Vec<Finding> = Vec::new();
        let mut i: usize = 0;
        while i < repo.llds.len()
            invariant
                0 <= i <= repo.llds@.len(),
                blocks == Seq::new(repo.llds@.len(), |i: int| lld_findings(*repo, repo.llds@[i])),
                views(out@) == flat(blocks.take(i as int)),
            decreases repo.llds@.len() - i,
        {
            proof {
                lemma_flat_take(blocks, i as int);
            }
            let more = lld_findings_exec(repo, &repo.llds[i]);
            crate::checks::append_findings(&mut out, more);
            i = i + 1;
        }
        proof {
            lemma_flat_all(blocks);
        }
        out
    }
}

} // verus!
