//! Orphan-artifact check: LLDs and spec files that no arrow doc's
//! `## References` points at.
//!
//! An artifact is exempt when an arrow doc references it (`### LLD` for
//! LLDs, `### EARS` for spec files), when `unmapped.docs` lists it
//! (`llds`/`specs`, or `intent` for either), or — for an LLD — when it is
//! the `detail:` target of a segment (a sub-HLD design doc has no arrow doc
//! of its own).

use vstd::prelude::*;

use crate::checks::resolve::{resolve_arrow_ref, resolved_ref};
use crate::checks::schema::arrows_dir;
use crate::checks::{
    flat, lemma_flat_all, lemma_flat_contains, lemma_flat_forall, lemma_flat_len_count, lemma_flat_take, push_finding, views, Category, Check, CheckId, Finding,
    FindingView, Severity,
};
use crate::model::{ArrowDoc, LldDoc, SpecFile};
use crate::paths::{display_relative, join, join_path, normalize_path, normalized, path_eq, relative_to, same_path};
use crate::repo::LidRepo;
use crate::text::cat;

verus! {

/// The orphan-artifact check.
pub struct OrphanCheck;

/// The `### LLD` bullets of `doc` when `lld`, else its `### EARS` bullets.
pub open spec fn ref_bullets(doc: ArrowDoc, lld: bool) -> Seq<String> {
    if lld {
        doc.references.lld@
    } else {
        doc.references.ears@
    }
}

/// Some arrow doc's LLD (or EARS) bullet resolves to `p`.
pub open spec fn referenced(repo: LidRepo, lld: bool, p: Seq<char>) -> bool {
    exists|d: int, k: int|
        0 <= d < repo.arrow_docs@.len() && 0 <= k < ref_bullets(repo.arrow_docs@[d], lld).len() && (resolved_ref(
            repo.root@,
            (#[trigger] ref_bullets(repo.arrow_docs@[d], lld)[k])@,
        ) matches Some(x) && same_path(x, p))
}

/// Some entry of `list`, resolved against the root, is `p`.
pub open spec fn listed(root: Seq<char>, list: Seq<String>, p: Seq<char>) -> bool {
    exists|k: int| 0 <= k < list.len() && same_path(join_path(root, (#[trigger] list[k])@), p)
}

/// Some segment's `detail:` target, normalized, is `p`.
pub open spec fn detail_target(repo: LidRepo, p: Seq<char>) -> bool {
    exists|k: int|
        0 <= k < repo.index.arrows@.len() && same_path(
            normalized(join_path(arrows_dir(repo.root@), (#[trigger] repo.index.arrows@[k]).1.detail@)),
            p,
        )
}

/// The finding for an unreferenced artifact of the given kind.
pub open spec fn orphan_view(root: Seq<char>, p: Seq<char>, kind: Seq<char>) -> FindingView {
    let rel = relative_to(p, root);
    FindingView {
        check: CheckId::Orphan,
        severity: Severity::Warning,
        category: Category::Orphans,
        message: kind + " `"@ + rel + "` is not referenced from any arrow doc"@,
        location: Some((p, None)),
        spec: None,
        remediation: Some(
            "link `"@ + rel + "` from an arrow doc's `## References`, add it to `unmapped.docs`, or delete it"@,
        ),
    }
}

/// Findings for the LLD at `p`.
pub open spec fn lld_orphan(repo: LidRepo, p: Seq<char>) -> Seq<FindingView> {
    let u = repo.index.unmapped.docs;
    if referenced(repo, true, p) || listed(repo.root@, u.llds@, p) || listed(repo.root@, u.intent@, p)
        || detail_target(repo, p) {
        Seq::empty()
    } else {
        seq![orphan_view(repo.root@, p, "LLD"@)]
    }
}

/// Findings for the spec file at `p`.
pub open spec fn spec_orphan(repo: LidRepo, p: Seq<char>) -> Seq<FindingView> {
    let u = repo.index.unmapped.docs;
    if referenced(repo, false, p) || listed(repo.root@, u.specs@, p) || listed(repo.root@, u.intent@, p) {
        Seq::empty()
    } else {
        seq![orphan_view(repo.root@, p, "spec"@)]
    }
}

/// Findings of the orphan check: LLDs first, then spec files.
pub open spec fn orphan_findings(repo: LidRepo) -> Seq<FindingView> {
    flat(Seq::new(repo.llds@.len(), |i: int| lld_orphan(repo, repo.llds@[i].path@)))
        + flat(Seq::new(repo.specs@.len(), |i: int| spec_orphan(repo, repo.specs@[i].path@)))
}

/// What an orphan finding about a spec file (message `spec `…) or an
/// LLD (message `LLD `…) says of the file at its location: no arrow doc
/// references it under `### EARS` (`### LLD`), no entry of
/// `unmapped.docs.specs` (`llds`) or `unmapped.docs.intent` names it,
/// and an LLD is no segment's `detail:` target.
pub open spec fn orphan_justified(repo: LidRepo, f: FindingView) -> bool {
    let u = repo.index.unmapped.docs;
    f.location matches Some((p, _)) && {
        &&& f.message.len() >= 6 && f.message.take(6) == "spec `"@ ==> {
            &&& !referenced(repo, false, p)
            &&& forall|k: int| 0 <= k < u.specs@.len() ==> !same_path(join_path(repo.root@, (#[trigger] u.specs@[k])@), p)
            &&& forall|k: int| 0 <= k < u.intent@.len() ==> !same_path(join_path(repo.root@, (#[trigger] u.intent@[k])@), p)
        }
        &&& f.message.len() >= 5 && f.message.take(5) == "LLD `"@ ==> {
            &&& !referenced(repo, true, p)
            &&& forall|k: int| 0 <= k < u.llds@.len() ==> !same_path(join_path(repo.root@, (#[trigger] u.llds@[k])@), p)
            &&& forall|k: int| 0 <= k < u.intent@.len() ==> !same_path(join_path(repo.root@, (#[trigger] u.intent@[k])@), p)
            &&& !detail_target(repo, p)
        }
    }
}

/// Every orphan finding is justified: a spec file or LLD is only reported
/// when no arrow doc references it and no `unmapped.docs` entry lists it
/// (nor, for an LLD, a segment's `detail:`). So a spec file whose path is
/// the root joined with an entry of `unmapped.docs.specs` is never
/// reported.
pub proof fn law_orphan_findings_justified(repo: LidRepo)
    ensures
        forall|k: int| 0 <= k < orphan_findings(repo).len() ==> orphan_justified(repo, #[trigger] orphan_findings(repo)[k]),
{
    reveal_strlit("spec `");
    reveal_strlit("LLD `");
    reveal_strlit("spec");
    reveal_strlit("LLD");
    reveal_strlit(" `");
    let pr = |f: FindingView| orphan_justified(repo, f);
    let ls = Seq::new(repo.llds@.len(), |i: int| lld_orphan(repo, repo.llds@[i].path@));
    let ss = Seq::new(repo.specs@.len(), |i: int| spec_orphan(repo, repo.specs@[i].path@));
    assert forall|i: int, k: int| 0 <= i < ls.len() && 0 <= k < ls[i].len() implies pr(#[trigger] ls[i][k]) by {
        let p = repo.llds@[i].path@;
        assert(ls[i] == lld_orphan(repo, p));
        let f = ls[i][k];
        let m = f.message;
        assert(m.take(5) =~= "LLD `"@) by {
            assert(m == "LLD"@ + " `"@ + relative_to(p, repo.root@) + "` is not referenced from any arrow doc"@);
        }
        assert(m[0] == 'L');
        assert(!(m.len() >= 6 && m.take(6) == "spec `"@)) by {
            if m.len() >= 6 && m.take(6) == "spec `"@ {
                assert(m.take(6)[0] == 's');
            }
        }
    }
    lemma_flat_forall(ls, pr);
    assert forall|i: int, k: int| 0 <= i < ss.len() && 0 <= k < ss[i].len() implies pr(#[trigger] ss[i][k]) by {
        let p = repo.specs@[i].path@;
        assert(ss[i] == spec_orphan(repo, p));
        let f = ss[i][k];
        let m = f.message;
        assert(m.take(6) =~= "spec `"@) by {
            assert(m == "spec"@ + " `"@ + relative_to(p, repo.root@) + "` is not referenced from any arrow doc"@);
        }
        assert(m[0] == 's');
        assert(!(m.len() >= 5 && m.take(5) == "LLD `"@)) by {
            if m.len() >= 5 && m.take(5) == "LLD `"@ {
                assert(m.take(5)[0] == 'L');
            }
        }
        let u = repo.index.unmapped.docs;
        assert forall|q: int| 0 <= q < u.specs@.len() implies !same_path(join_path(repo.root@, (#[trigger] u.specs@[q])@), p) by {
            if same_path(join_path(repo.root@, u.specs@[q]@), p) {
                assert(listed(repo.root@, u.specs@, p));
            }
        }
        assert forall|q: int| 0 <= q < u.intent@.len() implies !same_path(join_path(repo.root@, (#[trigger] u.intent@[q])@), p) by {
            if same_path(join_path(repo.root@, u.intent@[q]@), p) {
                assert(listed(repo.root@, u.intent@, p));
            }
        }
    }
    lemma_flat_forall(ss, pr);
    let all = orphan_findings(repo);
    assert forall|k: int| 0 <= k < all.len() implies orphan_justified(repo, #[trigger] all[k]) by {
        if k < flat(ls).len() {
            assert(all[k] == flat(ls)[k]);
        } else {
            assert(all[k] == flat(ss)[k - flat(ls).len()]);
        }
    }
}

/// An LLD that nothing references, lists or targets as a `detail:`.
pub open spec fn lld_unattached(repo: LidRepo) -> spec_fn(LldDoc) -> bool {
    |l: LldDoc| {
        let u = repo.index.unmapped.docs;
        let p = l.path@;
        !(referenced(repo, true, p) || listed(repo.root@, u.llds@, p) || listed(repo.root@, u.intent@, p)
            || detail_target(repo, p))
    }
}

/// A spec file that nothing references or lists.
pub open spec fn spec_unattached(repo: LidRepo) -> spec_fn(SpecFile) -> bool {
    |f: SpecFile| {
        let u = repo.index.unmapped.docs;
        let p = f.path@;
        !(referenced(repo, false, p) || listed(repo.root@, u.specs@, p) || listed(repo.root@, u.intent@, p))
    }
}

/// The orphan check reports exactly one finding per unattached LLD and
/// one per unattached spec file: a file that an arrow doc references or
/// an `unmapped.docs` entry lists gets none, and every other gets one.
pub proof fn law_orphan_findings_count(repo: LidRepo)
    ensures
        orphan_findings(repo).len() == repo.llds@.filter(lld_unattached(repo)).len() + repo.specs@.filter(
            spec_unattached(repo),
        ).len(),
{
    lemma_flat_len_count(
        repo.llds@,
        Seq::new(repo.llds@.len(), |i: int| lld_orphan(repo, repo.llds@[i].path@)),
        lld_unattached(repo),
    );
    lemma_flat_len_count(
        repo.specs@,
        Seq::new(repo.specs@.len(), |i: int| spec_orphan(repo, repo.specs@[i].path@)),
        spec_unattached(repo),
    );
}

/// Every unattached LLD and every unattached spec file is reported: its
/// warning, located at its path, is among the orphan check's findings.
pub proof fn law_unattached_files_reported(repo: LidRepo)
    ensures
        forall|i: int|
            0 <= i < repo.llds@.len() && #[trigger] lld_unattached(repo)(repo.llds@[i]) ==> orphan_findings(
                repo,
            ).contains(orphan_view(repo.root@, repo.llds@[i].path@, "LLD"@)),
        forall|i: int|
            0 <= i < repo.specs@.len() && #[trigger] spec_unattached(repo)(repo.specs@[i]) ==> orphan_findings(
                repo,
            ).contains(orphan_view(repo.root@, repo.specs@[i].path@, "spec"@)),
{
    let ls = Seq::new(repo.llds@.len(), |i: int| lld_orphan(repo, repo.llds@[i].path@));
    let ss = Seq::new(repo.specs@.len(), |i: int| spec_orphan(repo, repo.specs@[i].path@));
    let all = orphan_findings(repo);
    assert forall|i: int| 0 <= i < repo.llds@.len() && #[trigger] lld_unattached(repo)(repo.llds@[i]) implies all.contains(
        orphan_view(repo.root@, repo.llds@[i].path@, "LLD"@),
    ) by {
        assert(ls[i][0] == orphan_view(repo.root@, repo.llds@[i].path@, "LLD"@));
        lemma_flat_contains(ls, i, 0);
        let q = choose|q: int| 0 <= q < flat(ls).len() && flat(ls)[q] == ls[i][0];
        assert(all[q] == flat(ls)[q]);
    }
    assert forall|i: int| 0 <= i < repo.specs@.len() && #[trigger] spec_unattached(repo)(repo.specs@[i]) implies all.contains(
        orphan_view(repo.root@, repo.specs@[i].path@, "spec"@),
    ) by {
        assert(ss[i][0] == orphan_view(repo.root@, repo.specs@[i].path@, "spec"@));
        lemma_flat_contains(ss, i, 0);
        let q = choose|q: int| 0 <= q < flat(ss).len() && flat(ss)[q] == ss[i][0];
        assert(all[flat(ls).len() + q] == flat(ss)[q]);
    }
}

fn is_referenced(repo: &LidRepo, lld: bool, p: &str) -> (r: bool)
    ensures
        r == referenced(*repo, lld, p@),
{
    let mut d: usize = 0;
    while d < repo.arrow_docs.len()
        invariant
            0 <= d <= repo.arrow_docs@.len(),
            forall|a: int, k: int|
                0 <= a < d && 0 <= k < ref_bullets(repo.arrow_docs@[a], lld).len() ==> !(resolved_ref(
                    repo.root@,
                    (#[trigger] ref_bullets(repo.arrow_docs@[a], lld)[k])@,
                ) matches Some(x) && same_path(x, p@)),
        decreases repo.arrow_docs@.len() - d,
    {
        let doc = &repo.arrow_docs[d];
        let bullets = if lld {
            &doc.references.lld
        } else {
            &doc.references.ears
        };
        let mut k: usize = 0;
        while k < bullets.len()
            invariant
                0 <= d < repo.arrow_docs@.len(),
                bullets@ == ref_bullets(repo.arrow_docs@[d as int], lld),
                0 <= k <= bullets@.len(),
                forall|a: int, q: int|
                    0 <= a < d && 0 <= q < ref_bullets(repo.arrow_docs@[a], lld).len() ==> !(resolved_ref(
                        repo.root@,
                        (#[trigger] ref_bullets(repo.arrow_docs@[a], lld)[q])@,
                    ) matches Some(x) && same_path(x, p@)),
                forall|q: int|
                    0 <= q < k ==> !(resolved_ref(repo.root@, (#[trigger] bullets@[q])@) matches Some(x)
                        && same_path(x, p@)),
            decreases bullets@.len() - k,
        {
            match resolve_arrow_ref(repo.root.as_str(), bullets[k].as_str()) {
                Some(x) => {
                    if path_eq(x.as_str(), p) {
                        return true;
                    }
                },
                None => {},
            }
            k = k + 1;
        }
        d = d + 1;
    }
    false
}

fn is_listed(root: &str, list: &Vec<String>, p: &str) -> (r: bool)
    ensures
        r == listed(root@, list@, p@),
{
    let mut k: usize = 0;
    while k < list.len()
        invariant
            0 <= k <= list@.len(),
            forall|j: int| 0 <= j < k ==> !same_path(join_path(root@, (#[trigger] list@[j])@), p@),
        decreases list@.len() - k,
    {
        let abs = join(root, list[k].as_str());
        if path_eq(abs.as_str(), p) {
            return true;
        }
        k = k + 1;
    }
    false
}

fn is_detail_target(repo: &LidRepo, p: &str) -> (r: bool)
    ensures
        r == detail_target(*repo, p@),
{
    let d1 = join(repo.root.as_str(), "docs");
    let dir = join(d1.as_str(), "arrows");
    let mut k: usize = 0;
    while k < repo.index.arrows.len()
        invariant
            0 <= k <= repo.index.arrows@.len(),
            dir@ == arrows_dir(repo.root@),
            forall|j: int|
                0 <= j < k ==> !same_path(
                    normalized(join_path(arrows_dir(repo.root@), (#[trigger] repo.index.arrows@[j]).1.detail@)),
                    p@,
                ),
        decreases repo.index.arrows@.len() - k,
    {
        let t = join(dir.as_str(), repo.index.arrows[k].1.detail.as_str());
        let n = normalize_path(t.as_str());
        if path_eq(n.as_str(), p) {
            return true;
        }
        k = k + 1;
    }
    false
}

fn orphan_finding(root: &str, p: &str, kind: &str) -> (r: Finding)
    ensures
        r@ == orphan_view(root@, p@, kind@),
{
    let rel = display_relative(p, root);
    let mut msg = cat(kind, " `");
    msg.append(rel.as_str());
    msg.append("` is not referenced from any arrow doc");
    let mut fix = cat("link `", rel.as_str());
    fix.append("` from an arrow doc's `## References`, add it to `unmapped.docs`, or delete it");
    crate::checks::finding_at(
        CheckId::Orphan,
        Severity::Warning,
        Category::Orphans,
        msg,
        p.to_owned(),
        Some(fix),
    )
}

impl Check for OrphanCheck {
    fn id(&self) -> (r: CheckId)
        ensures
            r == CheckId::Orphan,
    {
        CheckId::Orphan
    }

    /// Flags LLDs and spec files that nothing references or exempts.
    fn run(&self, repo: &LidRepo) -> (r: Vec<Finding>)
        ensures
            views(r@) == orphan_findings(*repo),
    {
        let ghost lb = Seq::new(repo.llds@.len(), |i: int| lld_orphan(*repo, repo.llds@[i].path@));
        let ghost sb = Seq::new(repo.specs@.len(), |i: int| spec_orphan(*repo, repo.specs@[i].path@));
        let u = &repo.index.unmapped.docs;
        let root = repo.root.as_str();
        let mut out: Vec<Finding> = Vec::new();
        let mut i: usize = 0;
        while i < repo.llds.len()
            invariant
                0 <= i <= repo.llds@.len(),
                u == &repo.index.unmapped.docs,
                root@ == repo.root@,
                lb == Seq::new(repo.llds@.len(), |i: int| lld_orphan(*repo, repo.llds@[i].path@)),
                views(out@) == flat(lb.take(i as int)),
            decreases repo.llds@.len() - i,
        {
            proof {
                lemma_flat_take(lb, i as int);
            }
            let p = repo.llds[i].path.as_str();
            if !(is_referenced(repo, true, p) || is_listed(root, &u.llds, p) || is_listed(root, &u.intent, p)
                || is_detail_target(repo, p)) {
                push_finding(&mut out, orphan_finding(root, p, "LLD"));
            }
            i = i + 1;
        }
        proof {
            lemma_flat_all(lb);
        }
        let ghost head = views(out@);
        let mut i: usize = 0;
        while i < repo.specs.len()
            invariant
                0 <= i <= repo.specs@.len(),
                u == &repo.index.unmapped.docs,
                root@ == repo.root@,
                head == flat(lb),
                sb == Seq::new(repo.specs@.len(), |i: int| spec_orphan(*repo, repo.specs@[i].path@)),
                views(out@) == head + flat(sb.take(i as int)),
            decreases repo.specs@.len() - i,
        {
            proof {
                lemma_flat_take(sb, i as int);
            }
            let p = repo.specs[i].path.as_str();
            if !(is_referenced(repo, false, p) || is_listed(root, &u.specs, p) || is_listed(root, &u.intent, p)) {
                push_finding(&mut out, orphan_finding(root, p, "spec"));
            }
            assert(head + flat(sb.take(i as int)) + sb[i as int] =~= head + flat(sb.take(i + 1)));
            i = i + 1;
        }
        proof {
            lemma_flat_all(sb);
        }
        out
    }
}

} // verus!
