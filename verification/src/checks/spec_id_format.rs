//! Spec-ID uniqueness check.
//!
//! Every spec ID in the repository already passed `SpecId::parse`; what is
//! left is uniqueness: two spec lines sharing an ID is an error. The first
//! occurrence (file order, then line order) counts as the definition; each
//! later occurrence gets one finding that points back at it. Findings come
//! in the order of those later occurrences.

use vstd::prelude::*;

use crate::checks::{
    flat, lemma_flat_all, lemma_flat_len_count, lemma_flat_take, push_finding, views, Category, Check, CheckId, Finding,
    FindingView, Severity,
};
use crate::model::SpecFile;
use crate::paths::{display_relative, relative_to};
use crate::repo::LidRepo;
use crate::text::{cat, decimal, usize_string};

verus! {

/// The spec-ID uniqueness check.
pub struct SpecIdFormatCheck;

/// Every spec line as `(file index, line index)`, file by file.
pub open spec fn occurrences(files: Seq<SpecFile>) -> Seq<(usize, usize)> {
    flat(Seq::new(files.len(), |i: int| Seq::new(files[i].specs@.len(), |j: int| (i as usize, j as usize))))
}

/// The spec ID at an occurrence.
pub open spec fn occ_id(files: Seq<SpecFile>, o: (usize, usize)) -> Seq<char> {
    files[o.0 as int].specs@[o.1 as int].id@
}

/// First index in `m..k` whose occurrence has ID `id`; -1 when none.
pub open spec fn first_from(files: Seq<SpecFile>, occ: Seq<(usize, usize)>, id: Seq<char>, m: int, k: int) -> int
    decreases k - m,
{
    if m >= k {
        -1
    } else if occ_id(files, occ[m]) == id {
        m
    } else {
        first_from(files, occ, id, m + 1, k)
    }
}

/// The finding for occurrence `dup` duplicating occurrence `first`.
pub open spec fn duplicate_finding(root: Seq<char>, files: Seq<SpecFile>, first: (usize, usize), dup: (usize, usize)) -> FindingView {
    let id = occ_id(files, dup);
    let pf = files[first.0 as int];
    let df = files[dup.0 as int];
    FindingView {
        check: CheckId::SpecIdFormat,
        severity: Severity::Error,
        category: Category::Schema,
        message: "duplicate spec ID `"@ + id + "` (first defined at `"@ + relative_to(pf.path@, root) + "`:"@
            + decimal(pf.specs@[first.1 as int].line as nat) + ")"@,
        location: Some((df.path@, Some(df.specs@[dup.1 as int].line))),
        spec: Some(id),
        remediation: Some("rename one of the occurrences; spec IDs are unique across the project"@),
    }
}

/// Findings for occurrence `k`: one when an earlier occurrence has its ID.
pub open spec fn duplicate_at(root: Seq<char>, files: Seq<SpecFile>, occ: Seq<(usize, usize)>, k: int) -> Seq<FindingView> {
    let f = first_from(files, occ, occ_id(files, occ[k]), 0, k);
    if f == -1 {
        Seq::empty()
    } else {
        seq![duplicate_finding(root, files, occ[f], occ[k])]
    }
}

/// Findings of the uniqueness check, in occurrence order.
pub open spec fn spec_id_format_findings(repo: LidRepo) -> Seq<FindingView> {
    let occ = occurrences(repo.specs@);
    flat(Seq::new(occ.len(), |k: int| duplicate_at(repo.root@, repo.specs@, occ, k)))
}

/// An earlier spec line has the same ID as occurrence `k`.
pub open spec fn repeats_earlier(files: Seq<SpecFile>, occ: Seq<(usize, usize)>) -> spec_fn(int) -> bool {
    |k: int| first_from(files, occ, occ_id(files, occ[k]), 0, k) != -1
}

/// The uniqueness check reports exactly one finding per spec line whose
/// ID an earlier spec line (file by file, line by line) already has.
pub proof fn law_spec_id_format_findings_count(repo: LidRepo)
    ensures
        spec_id_format_findings(repo).len() == Seq::new(occurrences(repo.specs@).len(), |k: int| k).filter(
            repeats_earlier(repo.specs@, occurrences(repo.specs@)),
        ).len(),
{
    let occ = occurrences(repo.specs@);
    let idx = Seq::new(occ.len(), |k: int| k);
    let bs = Seq::new(occ.len(), |k: int| duplicate_at(repo.root@, repo.specs@, occ, k));
    assert forall|j: int| 0 <= j < idx.len() implies (#[trigger] bs[j]).len() == (if repeats_earlier(
        repo.specs@,
        occ,
    )(idx[j]) {
        1nat
    } else {
        0nat
    }) by {
        assert(idx[j] == j);
        assert(bs[j] == duplicate_at(repo.root@, repo.specs@, occ, j));
    }
    lemma_flat_len_count(idx, bs, repeats_earlier(repo.specs@, occ));
}

fn occurrences_exec(files: &Vec<SpecFile>) -> (r: Vec<(usize, usize)>)
    ensures
        r@ == occurrences(files@),
        forall|k: int|
            0 <= k < r@.len() ==> (#[trigger] r@[k]).0 < files@.len() && r@[k].1 < files@[r@[k].0 as int].specs@.len(),
{
    let ghost blocks = Seq::new(files@.len(), |i: int| Seq::new(files@[i].specs@.len(), |j: int| (i as usize, j as usize)));
    let mut out: Vec<(usize, usize)> = Vec::new();
    let mut i: usize = 0;
    while i < files.len()
        invariant
            0 <= i <= files@.len(),
            blocks == Seq::new(files@.len(), |i: int| Seq::new(files@[i].specs@.len(), |j: int| (i as usize, j as usize))),
            out@ == flat(blocks.take(i as int)),
            forall|k: int|
                0 <= k < out@.len() ==> (#[trigger] out@[k]).0 < files@.len() && out@[k].1 < files@[out@[k].0 as int].specs@.len(),
        decreases files@.len() - i,
    {
        proof {
            lemma_flat_take(blocks, i as int);
        }
        let ghost head = out@;
        let mut j: usize = 0;
        while j < files[i].specs.len()
            invariant
                0 <= i < files@.len(),
                0 <= j <= files@[i as int].specs@.len(),
                blocks == Seq::new(files@.len(), |i: int| Seq::new(files@[i].specs@.len(), |j: int| (i as usize, j as usize))),
                out@ == head + blocks[i as int].take(j as int),
                forall|k: int|
                    0 <= k < out@.len() ==> (#[trigger] out@[k]).0 < files@.len() && out@[k].1 < files@[out@[k].0 as int].specs@.len(),
            decreases files@[i as int].specs@.len() - j,
        {
            out.push((i, j));
            assert(head + blocks[i as int].take(j + 1) =~= (head + blocks[i as int].take(j as int)).push((i, j)));
            j = j + 1;
        }
        assert(blocks[i as int].take(j as int) =~= blocks[i as int]);
        i = i + 1;
    }
    proof {
        lemma_flat_all(blocks);
    }
    out
}

impl Check for SpecIdFormatCheck {
    fn id(&self) -> (r: CheckId)
        ensures
            r == CheckId::SpecIdFormat,
    {
        CheckId::SpecIdFormat
    }

    /// Flags every spec line whose ID an earlier spec line already has.
    fn run(&self, repo: &LidRepo) -> (r: Vec<Finding>)
        ensures
            views(r@) == spec_id_format_findings(*repo),
    {
        let files = &repo.specs;
        let occ = occurrences_exec(files);
        let ghost blocks = Seq::new(occ@.len(), |k: int| duplicate_at(repo.root@, files@, occ@, k));
        let mut out: Vec<Finding> = Vec::new();
        let mut k: usize = 0;
        while k < occ.len()
            invariant
                0 <= k <= occ@.len(),
                occ@ == occurrences(files@),
                files == &repo.specs,
                forall|q: int|
                    0 <= q < occ@.len() ==> (#[trigger] occ@[q]).0 < files@.len() && occ@[q].1 < files@[occ@[q].0 as int].specs@.len(),
                blocks == Seq::new(occ@.len(), |k: int| duplicate_at(repo.root@, files@, occ@, k)),
                views(out@) == flat(blocks.take(k as int)),
            decreases occ@.len() - k,
        {
            proof {
                lemma_flat_take(blocks, k as int);
            }
            let (di, dj) = occ[k];
            let id = &files[di].specs[dj].id;
            let mut m: usize = 0;
            while m < k
                invariant
                    0 <= m <= k < occ@.len(),
                    forall|q: int|
                        0 <= q < occ@.len() ==> (#[trigger] occ@[q]).0 < files@.len() && occ@[q].1 < files@[occ@[q].0 as int].specs@.len(),
                    id@ == occ_id(files@, occ@[k as int]),
                    first_from(files@, occ@, id@, 0, k as int) == first_from(files@, occ@, id@, m as int, k as int),
                ensures
                    0 <= m <= k,
                    first_from(files@, occ@, id@, 0, k as int) == first_from(files@, occ@, id@, m as int, k as int),
                    m < k ==> occ_id(files@, occ@[m as int]) == id@,
                decreases k - m,
            {
                let (pi, pj) = occ[m];
                if files[pi].specs[pj].id.same(id) {
                    break;
                }
                m = m + 1;
            }
            if m < k {
                let (pi, pj) = occ[m];
                let pf = &files[pi];
                let rel = display_relative(pf.path.as_str(), repo.root.as_str());
                let mut msg = cat("duplicate spec ID `", id.as_str());
                msg.append("` (first defined at `");
                msg.append(rel.as_str());
                msg.append("`:");
                let n = usize_string(pf.specs[pj].line);
                msg.append(n.as_str());
                msg.append(")");
                let df = &files[di];
                let f = crate::checks::finding_on_line(
                    CheckId::SpecIdFormat,
                    Severity::Error,
                    Category::Schema,
                    msg,
                    df.path.clone(),
                    df.specs[dj].line,
                    id.clone(),
                    String::from_str("rename one of the occurrences; spec IDs are unique across the project"),
                );
                push_finding(&mut out, f);
            } else {
                assert(first_from(files@, occ@, id@, k as int, k as int) == -1);
            }
            k = k + 1;
        }
        proof {
            lemma_flat_all(blocks);
        }
        out
    }
}

} // verus!
