//! Arrow-doc structure check: every `### {Kind}` subsection under
//! `## References` must use a known category name.
//!
//! An unknown name (`### Ears`, `### lld`) makes the parser drop that
//! subsection's bullets, so the reference and orphan checks miss them.
//! Findings are informational.

use vstd::prelude::*;

use crate::checks::{
    append_findings, flat, lemma_flat_all, lemma_flat_len_count, lemma_flat_len_sum, lemma_flat_take, sum_of, push_finding, views, Category, Check,
    CheckId, Finding, FindingView, Severity,
};
use crate::model::ArrowDoc;
use crate::paths::{display_relative, relative_to};
use crate::repo::LidRepo;
use crate::text::cat;

verus! {

/// The arrow-doc structure check.
pub struct ArrowDocStructureCheck;

/// The finding for one unrecognised subsection name.
pub open spec fn unrecognised_section_finding(root: Seq<char>, doc: ArrowDoc, section: Seq<char>) -> FindingView {
    FindingView {
        check: CheckId::ArrowDocStructure,
        severity: Severity::Info,
        category: Category::References,
        message: "arrow doc `"@ + relative_to(doc.path@, root) + "` has unrecognised `## References` subsection `### "@
            + section + "`"@,
        location: Some((doc.path@, None)),
        spec: None,
        remediation: Some(
            "rename `### "@ + section + "` to one of the known categories: HLD, LLD, EARS, Tests, Code"@,
        ),
    }
}

/// Findings for one arrow doc, in subsection order.
pub open spec fn structure_doc(root: Seq<char>, doc: ArrowDoc) -> Seq<FindingView> {
    flat(Seq::new(
        doc.unrecognized_reference_sections@.len(),
        |j: int| seq![unrecognised_section_finding(root, doc, doc.unrecognized_reference_sections@[j]@)],
    ))
}

/// Findings of the arrow-doc structure check, doc by doc.
pub open spec fn arrow_doc_structure_findings(repo: LidRepo) -> Seq<FindingView> {
    flat(Seq::new(repo.arrow_docs@.len(), |i: int| structure_doc(repo.root@, repo.arrow_docs@[i])))
}

/// The check reports exactly one finding per unrecognised `### ` section
/// under `## References`, doc by doc.
pub proof fn law_arrow_doc_structure_count(repo: LidRepo)
    ensures
        arrow_doc_structure_findings(repo).len() == sum_of(
            repo.arrow_docs@,
            |d: ArrowDoc| d.unrecognized_reference_sections@.len(),
        ),
{
    let bs = Seq::new(repo.arrow_docs@.len(), |i: int| structure_doc(repo.root@, repo.arrow_docs@[i]));
    assert forall|i: int| 0 <= i < repo.arrow_docs@.len() implies (#[trigger] bs[i]).len()
        == repo.arrow_docs@[i].unrecognized_reference_sections@.len() by {
        let doc = repo.arrow_docs@[i];
        let inner = Seq::new(
            doc.unrecognized_reference_sections@.len(),
            |j: int| seq![unrecognised_section_finding(repo.root@, doc, doc.unrecognized_reference_sections@[j]@)],
        );
        lemma_flat_len_count(doc.unrecognized_reference_sections@, inner, |s: String| true);
        reveal_with_fuel(Seq::filter, 1);
        assert(doc.unrecognized_reference_sections@.filter(|s: String| true) =~= doc.unrecognized_reference_sections@) by {
            lemma_filter_all(doc.unrecognized_reference_sections@);
        }
    }
    lemma_flat_len_sum(repo.arrow_docs@, bs, |d: ArrowDoc| d.unrecognized_reference_sections@.len());
}

proof fn lemma_filter_all(s: Seq<String>)
    ensures
        s.filter(|x: String| true) == s,
    decreases s.len(),
{
    reveal_with_fuel(Seq::filter, 1);
    if s.len() > 0 {
        lemma_filter_all(s.drop_last());
        assert(s.drop_last().push(s.last()) =~= s);
    }
}

fn structure_doc_exec(root: &str, doc: &ArrowDoc) -> (r: Vec<Finding>)
    ensures
        views(r@) == structure_doc(root@, *doc),
{
    let ghost blocks = Seq::new(
        doc.unrecognized_reference_sections@.len(),
        |j: int| seq![unrecognised_section_finding(root@, *doc, doc.unrecognized_reference_sections@[j]@)],
    );
    let mut out: Vec<Finding> = Vec::new();
    let mut j: usize = 0;
    while j < doc.unrecognized_reference_sections.len()
        invariant
            0 <= j <= doc.unrecognized_reference_sections@.len(),
            blocks == Seq::new(
                doc.unrecognized_reference_sections@.len(),
                |j: int| seq![unrecognised_section_finding(root@, *doc, doc.unrecognized_reference_sections@[j]@)],
            ),
            views(out@) == flat(blocks.take(j as int)),
        decreases doc.unrecognized_reference_sections@.len() - j,
    {
        proof {
            lemma_flat_take(blocks, j as int);
        }
        let section = &doc.unrecognized_reference_sections[j];
        let rel = display_relative(doc.path.as_str(), root);
        let mut msg = cat("arrow doc `", rel.as_str());
        msg.append("` has unrecognised `## References` subsection `### ");
        msg.append(section.as_str());
        msg.append("`");
        let mut fix = cat("rename `### ", section.as_str());
        fix.append("` to one of the known categories: HLD, LLD, EARS, Tests, Code");
        let f = crate::checks::finding_at(
            CheckId::ArrowDocStructure,
            Severity::Info,
            Category::References,
            msg,
            doc.path.clone(),
            Some(fix),
        );
        push_finding(&mut out, f);
        assert(seq![f@] == blocks[j as int]);
        assert(views(out@) == flat(blocks.take(j as int)) + blocks[j as int]);
        j = j + 1;
    }
    proof {
        lemma_flat_all(blocks);
    }
    out
}

impl Check for ArrowDocStructureCheck {
    fn id(&self) -> (r: CheckId)
        ensures
            r == CheckId::ArrowDocStructure,
    {
        CheckId::ArrowDocStructure
    }

    /// Flags each unrecognised `### {Kind}` name under `## References`.
    fn run(&self, repo: &LidRepo) -> (r: Vec<Finding>)
        ensures
            views(r@) == arrow_doc_structure_findings(*repo),
    {
        let ghost blocks = Seq::new(repo.arrow_docs@.len(), |i: int| structure_doc(repo.root@, repo.arrow_docs@[i]));
        let mut out: Vec<Finding> = Vec::new();
        let mut i: usize = 0;
        while i < repo.arrow_docs.len()
            invariant
                0 <= i <= repo.arrow_docs@.len(),
                blocks == Seq::new(repo.arrow_docs@.len(), |i: int| structure_doc(repo.root@, repo.arrow_docs@[i])),
                views(out@) == flat(blocks.take(i as int)),
            decreases repo.arrow_docs@.len() - i,
        {
            proof {
                lemma_flat_take(blocks, i as int);
            }
            let more = structure_doc_exec(repo.root.as_str(), &repo.arrow_docs[i]);
            append_findings(&mut out, more);
            i = i + 1;
        }
        proof {
            lemma_flat_all(blocks);
        }
        out
    }
}

} // verus!
