//! Structure of standalone decision documents (`docs/decisions/` and
//! `docs/intent/<node>/decisions/`):
//!
//! 1. every decision doc has an H1 title;
//! 2. a per-node decision doc belongs to a segment registered in
//!    `docs/arrows/index.yaml`;
//! 3. decision docs hold no `@spec` citations.
//!
//! Each violation is a warning.

use vstd::prelude::*;

use crate::checks::schema::{is_known_segment, known_segment};
use crate::checks::{
    append_findings, flat, lemma_flat_all, lemma_flat_forall, lemma_flat_len_count, lemma_flat_len_sum, sum_of, lemma_flat_take, push_finding, views, Category, Check,
    CheckId, Finding, FindingView, Severity,
};
use crate::model::{DecisionDoc, DecisionScope, SpecCitation};
use crate::paths::{display_relative, path_eq, relative_to, same_path};
use crate::repo::LidRepo;
use crate::text::cat;

verus! {

/// The decision-doc structure check.
pub struct DecisionsStructureCheck;

/// Findings for one decision doc (rules 1 and 2).
pub open spec fn decision_doc_findings(repo: LidRepo, doc: DecisionDoc) -> Seq<FindingView> {
    let rel = relative_to(doc.path@, repo.root@);
    let title = if doc.title@.len() == 0 {
        seq![
            FindingView {
                check: CheckId::DecisionsStructure,
                severity: Severity::Warning,
                category: Category::Lint,
                message: "decision doc `"@ + rel + "` has no H1 title (`# Title`)"@,
                location: Some((doc.path@, None)),
                spec: None,
                remediation: Some("add a `# Title` heading as the first line of the decision doc"@),
            },
        ]
    } else {
        Seq::empty()
    };
    let node = match doc.scope {
        DecisionScope::Node { segment } => if known_segment(repo.index.arrows@, segment@) {
            Seq::empty()
        } else {
            seq![
                FindingView {
                    check: CheckId::DecisionsStructure,
                    severity: Severity::Warning,
                    category: Category::Orphans,
                    message: "decision doc `"@ + rel + "` is scoped to node `"@ + segment@
                        + "` which is not registered in docs/arrows/index.yaml"@,
                    location: Some((doc.path@, None)),
                    spec: None,
                    remediation: Some(
                        "add segment `"@ + segment@
                            + "` to docs/arrows/index.yaml or move the decision doc to docs/decisions/"@,
                    ),
                },
            ]
        },
        DecisionScope::Project => Seq::empty(),
    };
    title + node
}

/// `p` is the path of some decision doc.
pub open spec fn is_decision_path(docs: Seq<DecisionDoc>, p: Seq<char>) -> bool {
    exists|k: int| 0 <= k < docs.len() && same_path((#[trigger] docs[k]).path@, p)
}

/// Findings for one citation (rule 3).
pub open spec fn decision_citation_findings(repo: LidRepo, c: SpecCitation) -> Seq<FindingView> {
    if is_decision_path(repo.decision_docs@, c.file@) {
        seq![
            FindingView {
                check: CheckId::DecisionsStructure,
                severity: Severity::Warning,
                category: Category::Lint,
                message: "decision doc `"@ + relative_to(c.file@, repo.root@) + "` contains `@spec "@ + c.id@
                    + "` — decision docs carry no EARS specs"@,
                location: Some((c.file@, Some(c.line))),
                spec: Some(c.id@),
                remediation: Some("remove the `@spec` annotation; decisions record choices, not implementations"@),
            },
        ]
    } else {
        Seq::empty()
    }
}

/// Findings of the check: doc by doc, then citation by citation.
pub open spec fn decisions_structure_findings(repo: LidRepo) -> Seq<FindingView> {
    flat(Seq::new(repo.decision_docs@.len(), |k: int| decision_doc_findings(repo, repo.decision_docs@[k])))
        + flat(Seq::new(repo.citations@.len(), |k: int| decision_citation_findings(repo, repo.citations@[k])))
}

/// The shape of a decision-doc structure finding: a warning of that
/// check, in category `Lint` or `Orphans`; one about a spec (a citation
/// inside a decision doc) is a `Lint` finding at the citation's line.
pub open spec fn decisions_shaped(f: FindingView) -> bool {
    &&& f.check == CheckId::DecisionsStructure
    &&& f.severity == Severity::Warning
    &&& (f.category == Category::Lint || f.category == Category::Orphans)
    &&& f.spec is Some ==> f.category == Category::Lint && f.location matches Some((_, Some(_)))
}

/// Every finding of the decision-doc structure check is a warning of
/// that check, in the shape `decisions_shaped` gives.
pub proof fn law_decisions_structure_findings_are_warnings(repo: LidRepo)
    ensures
        forall|k: int|
            0 <= k < decisions_structure_findings(repo).len() ==> decisions_shaped(
                #[trigger] decisions_structure_findings(repo)[k],
            ),
{
    let p = |f: FindingView| decisions_shaped(f);
    let ds = Seq::new(repo.decision_docs@.len(), |k: int| decision_doc_findings(repo, repo.decision_docs@[k]));
    let cs = Seq::new(repo.citations@.len(), |k: int| decision_citation_findings(repo, repo.citations@[k]));
    assert forall|i: int, k: int| 0 <= i < ds.len() && 0 <= k < ds[i].len() implies p(#[trigger] ds[i][k]) by {
        let doc = repo.decision_docs@[i];
        assert(ds[i] == decision_doc_findings(repo, doc));
    }
    lemma_flat_forall(ds, p);
    assert forall|i: int, k: int| 0 <= i < cs.len() && 0 <= k < cs[i].len() implies p(#[trigger] cs[i][k]) by {
        assert(cs[i] == decision_citation_findings(repo, repo.citations@[i]));
    }
    lemma_flat_forall(cs, p);
    let all = decisions_structure_findings(repo);
    assert forall|k: int| 0 <= k < all.len() implies decisions_shaped(#[trigger] all[k]) by {
        if k < flat(ds).len() {
            assert(all[k] == flat(ds)[k]);
        } else {
            assert(all[k] == flat(cs)[k - flat(ds).len()]);
        }
    }
}

/// How many findings one decision doc gives: one when it has no title,
/// one when it is scoped to a node that the index does not register.
pub open spec fn decision_doc_count(repo: LidRepo, doc: DecisionDoc) -> nat {
    (if doc.title@.len() == 0 {
        1nat
    } else {
        0nat
    }) + match doc.scope {
        DecisionScope::Node { segment } => if known_segment(repo.index.arrows@, segment@) {
            0nat
        } else {
            1nat
        },
        DecisionScope::Project => 0nat,
    }
}

/// The check reports, per decision doc, one finding if it is untitled and
/// one if its node is unregistered, then one per citation that sits in a
/// decision doc.
pub proof fn law_decisions_structure_findings_count(repo: LidRepo)
    ensures
        decisions_structure_findings(repo).len() == sum_of(
            repo.decision_docs@,
            |d: DecisionDoc| decision_doc_count(repo, d),
        ) + repo.citations@.filter(|c: SpecCitation| is_decision_path(repo.decision_docs@, c.file@)).len(),
{
    let ds = Seq::new(repo.decision_docs@.len(), |k: int| decision_doc_findings(repo, repo.decision_docs@[k]));
    let cs = Seq::new(repo.citations@.len(), |k: int| decision_citation_findings(repo, repo.citations@[k]));
    assert forall|j: int| 0 <= j < repo.decision_docs@.len() implies (#[trigger] ds[j]).len() == decision_doc_count(
        repo,
        repo.decision_docs@[j],
    ) by {
        assert(ds[j] == decision_doc_findings(repo, repo.decision_docs@[j]));
    }
    lemma_flat_len_sum(repo.decision_docs@, ds, |d: DecisionDoc| decision_doc_count(repo, d));
    lemma_flat_len_count(repo.citations@, cs, |c: SpecCitation| is_decision_path(repo.decision_docs@, c.file@));
}

fn is_decision_path_exec(docs: &Vec<DecisionDoc>, p: &str) -> (r: bool)
    ensures
        r == is_decision_path(docs@, p@),
{
    let mut k: usize = 0;
    while k < docs.len()
        invariant
            0 <= k <= docs@.len(),
            forall|j: int| 0 <= j < k ==> !same_path((#[trigger] docs@[j]).path@, p@),
        decreases docs@.len() - k,
    {
        if path_eq(docs[k].path.as_str(), p) {
            return true;
        }
        k = k + 1;
    }
    false
}

fn decision_doc_exec(repo: &LidRepo, doc: &DecisionDoc) -> (r: Vec<Finding>)
    ensures
        views(r@) == decision_doc_findings(*repo, *doc),
{
    let rel = display_relative(doc.path.as_str(), repo.root.as_str());
    let mut out: Vec<Finding> = Vec::new();
    if doc.title.as_str().is_empty() {
        let mut msg = cat("decision doc `", rel.as_str());
        msg.append("` has no H1 title (`# Title`)");
        push_finding(
            &mut out,
            crate::checks::finding_at(
                CheckId::DecisionsStructure,
                Severity::Warning,
                Category::Lint,
                msg,
                doc.path.clone(),
                Some(String::from_str("add a `# Title` heading as the first line of the decision doc")),
            ),
        );
    }
    let ghost head = views(out@);
    match &doc.scope {
        DecisionScope::Node { segment } => {
            if !is_known_segment(&repo.index.arrows, segment.as_str()) {
                let mut msg = cat("decision doc `", rel.as_str());
                msg.append("` is scoped to node `");
                msg.append(segment.as_str());
                msg.append("` which is not registered in docs/arrows/index.yaml");
                let mut fix = cat("add segment `", segment.as_str());
                fix.append("` to docs/arrows/index.yaml or move the decision doc to docs/decisions/");
                push_finding(
                    &mut out,
                    crate::checks::finding_at(
                        CheckId::DecisionsStructure,
                        Severity::Warning,
                        Category::Orphans,
                        msg,
                        doc.path.clone(),
                        Some(fix),
                    ),
                );
            }
        },
        DecisionScope::Project => {},
    }
    assert(views(out@) =~= decision_doc_findings(*repo, *doc));
    out
}

fn decision_citation_exec(repo: &LidRepo, c: &SpecCitation) -> (r: Vec<Finding>)
    ensures
        views(r@) == decision_citation_findings(*repo, *c),
{
    let mut out: Vec<Finding> = Vec::new();
    if is_decision_path_exec(&repo.decision_docs, c.file.as_str()) {
        let rel = display_relative(c.file.as_str(), repo.root.as_str());
        let mut msg = cat("decision doc `", rel.as_str());
        msg.append("` contains `@spec ");
        msg.append(c.id.as_str());
        msg.append("` — decision docs carry no EARS specs");
        let f = crate::checks::finding_on_line(
            CheckId::DecisionsStructure,
            Severity::Warning,
            Category::Lint,
            msg,
            c.file.clone(),
            c.line,
            c.id.clone(),
            String::from_str("remove the `@spec` annotation; decisions record choices, not implementations"),
        );
        push_finding(&mut out, f);
    }
    assert(views(out@) =~= decision_citation_findings(*repo, *c));
    out
}

impl Check for DecisionsStructureCheck {
    fn id(&self) -> (r: CheckId)
        ensures
            r == CheckId::DecisionsStructure,
    {
        CheckId::DecisionsStructure
    }

    /// Checks titles and node scopes of decision docs, and citations in them.
    fn run(&self, repo: &LidRepo) -> (r: Vec<Finding>)
        ensures
            views(r@) == decisions_structure_findings(*repo),
    {
        let ghost docs = Seq::new(
            repo.decision_docs@.len(),
            |k: int| decision_doc_findings(*repo, repo.decision_docs@[k]),
        );
        let ghost cites = Seq::new(
            repo.citations@.len(),
            |k: int| decision_citation_findings(*repo, repo.citations@[k]),
        );
        let mut out: Vec<Finding> = Vec::new();
        let mut k: usize = 0;
        while k < repo.decision_docs.len()
            invariant
                0 <= k <= repo.decision_docs@.len(),
                docs == Seq::new(
                    repo.decision_docs@.len(),
                    |k: int| decision_doc_findings(*repo, repo.decision_docs@[k]),
                ),
                views(out@) == flat(docs.take(k as int)),
            decreases repo.decision_docs@.len() - k,
        {
            proof {
                lemma_flat_take(docs, k as int);
            }
            append_findings(&mut out, decision_doc_exec(repo, &repo.decision_docs[k]));
            k = k + 1;
        }
        proof {
            lemma_flat_all(docs);
        }
        let ghost head = views(out@);
        let mut c: usize = 0;
        while c < repo.citations.len()
            invariant
                0 <= c <= repo.citations@.len(),
                head == flat(docs),
                cites == Seq::new(
                    repo.citations@.len(),
                    |k: int| decision_citation_findings(*repo, repo.citations@[k]),
                ),
                views(out@) == head + flat(cites.take(c as int)),
            decreases repo.citations@.len() - c,
        {
            proof {
                lemma_flat_take(cites, c as int);
            }
            append_findings(&mut out, decision_citation_exec(repo, &repo.citations[c]));
            assert(head + flat(cites.take(c as int)) + cites[c as int] =~= head + flat(cites.take(c + 1)));
            c = c + 1;
        }
        proof {
            lemma_flat_all(cites);
        }
        out
    }
}

} // verus!
