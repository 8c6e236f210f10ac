//! Cross-reference check for `docs/arrows/index.yaml`.
//!
//! Field shapes are enforced when the index is read; what is left are the
//! relations that span entries:
//!
//! * every segment named in `blocks` / `blockedBy` / `merged_into` must be
//!   a key of `arrows`;
//! * status `MERGED` needs a `merged_into`; a `merged_into` under another
//!   status is suspicious (a warning);
//! * every segment's `detail:` file must be a loaded arrow doc;
//! * every segment listed under a taxonomy cluster must be a key of `arrows`.

use vstd::prelude::*;

use crate::checks::{
    append_findings, flat, lemma_flat_all, lemma_flat_forall, lemma_flat_len_count, lemma_flat_len_sum, sum_of, lemma_flat_take, push_finding, views, Category, Check,
    CheckId, Finding, FindingView, Severity,
};
use crate::ids::SegmentId;
use crate::model::{ArrowDoc, Segment, Status};
use crate::paths::{join, join_path, path_eq, path_strip_prefix, same_path, strip_prefix};
use crate::repo::LidRepo;
use crate::text::cat;

verus! {

/// The index schema check.
pub struct SchemaCheck;

/// `<root>/docs/arrows`.
pub open spec fn arrows_dir(root: Seq<char>) -> Seq<char> {
    join_path(join_path(root, "docs"@), "arrows"@)
}

/// `<root>/docs/arrows/index.yaml`.
pub open spec fn index_yaml(root: Seq<char>) -> Seq<char> {
    join_path(arrows_dir(root), "index.yaml"@)
}

/// `id` is a key of `arrows`.
pub open spec fn known_segment(arrows: Seq<(SegmentId, Segment)>, id: Seq<char>) -> bool {
    exists|k: int| 0 <= k < arrows.len() && (#[trigger] arrows[k]).0@ == id
}

/// Some loaded arrow doc lies at `detail` relative to `dir`.
pub open spec fn detail_loaded(docs: Seq<ArrowDoc>, dir: Seq<char>, detail: Seq<char>) -> bool {
    exists|k: int|
        0 <= k < docs.len() && (strip_prefix((#[trigger] docs[k]).path@, dir) matches Some(x) && same_path(x, detail))
}

/// The `Debug` spelling of a status.
pub open spec fn status_debug_name(s: Status) -> Seq<char> {
    match s {
        Status::Unmapped => "Unmapped"@,
        Status::Mapped => "Mapped"@,
        Status::Audited => "Audited"@,
        Status::Okay => "Ok"@,
        Status::Partial => "Partial"@,
        Status::Broken => "Broken"@,
        Status::Stale => "Stale"@,
        Status::Obsolete => "Obsolete"@,
        Status::Merged => "Merged"@,
    }
}

/// A schema finding at `path`.
pub open spec fn schema_view(severity: Severity, message: Seq<char>, path: Seq<char>, fix: Seq<char>) -> FindingView {
    FindingView {
        check: CheckId::Schema,
        severity,
        category: Category::Schema,
        message,
        location: Some((path, None)),
        spec: None,
        remediation: Some(fix),
    }
}

/// Findings for the `blocks` list of segment `id`.
pub open spec fn blocks_findings(repo: LidRepo, id: Seq<char>, seg: Segment) -> Seq<FindingView> {
    flat(Seq::new(
        seg.blocks@.len(),
        |j: int|
            {
                let b = seg.blocks@[j]@;
                if known_segment(repo.index.arrows@, b) {
                    Seq::empty()
                } else {
                    seq![
                        schema_view(
                            Severity::Error,
                            "segment `"@ + id + "` blocks unknown segment `"@ + b + "`"@,
                            index_yaml(repo.root@),
                            "remove `"@ + b + "` from `"@ + id + ".blocks` or add it under `arrows`"@,
                        ),
                    ]
                }
            },
    ))
}

/// Findings for the `blockedBy` list of segment `id`.
pub open spec fn blocked_by_findings(repo: LidRepo, id: Seq<char>, seg: Segment) -> Seq<FindingView> {
    flat(Seq::new(
        seg.blocked_by@.len(),
        |j: int|
            {
                let b = seg.blocked_by@[j]@;
                if known_segment(repo.index.arrows@, b) {
                    Seq::empty()
                } else {
                    seq![
                        schema_view(
                            Severity::Error,
                            "segment `"@ + id + "` is blockedBy unknown segment `"@ + b + "`"@,
                            index_yaml(repo.root@),
                            "remove `"@ + b + "` from `"@ + id + ".blockedBy` or add it under `arrows`"@,
                        ),
                    ]
                }
            },
    ))
}

/// Findings on `merged_into` and status `MERGED` of segment `id`.
pub open spec fn merged_findings(repo: LidRepo, id: Seq<char>, seg: Segment) -> Seq<FindingView> {
    let y = index_yaml(repo.root@);
    match seg.merged_into {
        Some(t) => if seg.status == Status::Merged {
            if known_segment(repo.index.arrows@, t@) {
                Seq::empty()
            } else {
                seq![
                    schema_view(
                        Severity::Error,
                        "segment `"@ + id + "` merged into unknown segment `"@ + t@ + "`"@,
                        y,
                        "ensure `"@ + t@ + "` exists under `arrows`"@,
                    ),
                ]
            }
        } else {
            seq![
                schema_view(
                    Severity::Warning,
                    "segment `"@ + id + "` declares `merged_into: "@ + t@ + "` but status is `"@
                        + status_debug_name(seg.status) + "`, not MERGED"@,
                    y,
                    "set status to MERGED or drop the merged_into field"@,
                ),
            ]
        },
        None => if seg.status == Status::Merged {
            seq![
                schema_view(
                    Severity::Error,
                    "segment `"@ + id + "` has status MERGED but no `merged_into` target"@,
                    y,
                    "add `merged_into: <target-segment>` or change the status"@,
                ),
            ]
        } else {
            Seq::empty()
        },
    }
}

/// Findings on the `detail:` file of segment `id`.
pub open spec fn detail_findings(repo: LidRepo, id: Seq<char>, seg: Segment) -> Seq<FindingView> {
    let dir = arrows_dir(repo.root@);
    if detail_loaded(repo.arrow_docs@, dir, seg.detail@) {
        Seq::empty()
    } else {
        seq![
            schema_view(
                Severity::Error,
                "segment `"@ + id + "` detail file `"@ + seg.detail@ + "` not found under `docs/arrows/`"@,
                join_path(dir, seg.detail@),
                "create `docs/arrows/"@ + seg.detail@ + "` or update `"@ + id + ".detail`"@,
            ),
        ]
    }
}

/// All findings for one segment entry.
pub open spec fn segment_findings(repo: LidRepo, entry: (SegmentId, Segment)) -> Seq<FindingView> {
    let id = entry.0@;
    let seg = entry.1;
    blocks_findings(repo, id, seg) + blocked_by_findings(repo, id, seg) + merged_findings(repo, id, seg)
        + detail_findings(repo, id, seg)
}

/// Findings for one taxonomy cluster.
pub open spec fn cluster_findings(repo: LidRepo, entry: (String, Vec<SegmentId>)) -> Seq<FindingView> {
    let cluster = entry.0@;
    flat(Seq::new(
        entry.1@.len(),
        |j: int|
            {
                let s = entry.1@[j]@;
                if known_segment(repo.index.arrows@, s) {
                    Seq::empty()
                } else {
                    seq![
                        schema_view(
                            Severity::Error,
                            "taxonomy cluster `"@ + cluster + "` references unknown segment `"@ + s + "`"@,
                            index_yaml(repo.root@),
                            "remove `"@ + s + "` from `taxonomy."@ + cluster + "` or add the segment"@,
                        ),
                    ]
                }
            },
    ))
}

/// Findings of the schema check: segment by segment, then cluster by cluster.
pub open spec fn schema_findings(repo: LidRepo) -> Seq<FindingView> {
    flat(Seq::new(repo.index.arrows@.len(), |k: int| segment_findings(repo, repo.index.arrows@[k])))
        + flat(Seq::new(repo.index.taxonomy@.len(), |k: int| cluster_findings(repo, repo.index.taxonomy@[k])))
}

/// A finding of the shape the schema check reports: check and category
/// `Schema`, located at a file without a line, about no spec; an error
/// unless `warning_allowed`.
pub open spec fn schema_shaped(f: FindingView, warning_allowed: bool) -> bool {
    &&& f.check == CheckId::Schema
    &&& f.category == Category::Schema
    &&& f.location matches Some((_, None))
    &&& f.spec is None
    &&& (f.severity == Severity::Error || (warning_allowed && f.severity == Severity::Warning))
}

proof fn lemma_singletons_shaped(bs: Seq<Seq<FindingView>>)
    requires
        forall|j: int| 0 <= j < bs.len() ==> (#[trigger] bs[j]).len() == 0 || (bs[j].len() == 1 && schema_shaped(bs[j][0], false)),
    ensures
        forall|k: int| 0 <= k < flat(bs).len() ==> schema_shaped(#[trigger] flat(bs)[k], false),
{
    let p = |f: FindingView| schema_shaped(f, false);
    assert forall|i: int, k: int| 0 <= i < bs.len() && 0 <= k < bs[i].len() implies p(#[trigger] bs[i][k]) by {
        assert(bs[i].len() == 1);
    }
    lemma_flat_forall(bs, p);
}

proof fn lemma_segment_shaped(repo: LidRepo, entry: (SegmentId, Segment))
    ensures
        forall|k: int| 0 <= k < segment_findings(repo, entry).len() ==> schema_shaped(
            #[trigger] segment_findings(repo, entry)[k],
            true,
        ),
{
    let id = entry.0@;
    let seg = entry.1;
    let b1 = blocks_findings(repo, id, seg);
    let b2 = blocked_by_findings(repo, id, seg);
    let m = merged_findings(repo, id, seg);
    let d = detail_findings(repo, id, seg);
    lemma_singletons_shaped(Seq::new(
        seg.blocks@.len(),
        |j: int|
            {
                let b = seg.blocks@[j]@;
                if known_segment(repo.index.arrows@, b) {
                    Seq::empty()
                } else {
                    seq![
                        schema_view(
                            Severity::Error,
                            "segment `"@ + id + "` blocks unknown segment `"@ + b + "`"@,
                            index_yaml(repo.root@),
                            "remove `"@ + b + "` from `"@ + id + ".blocks` or add it under `arrows`"@,
                        ),
                    ]
                }
            },
    ));
    lemma_singletons_shaped(Seq::new(
        seg.blocked_by@.len(),
        |j: int|
            {
                let b = seg.blocked_by@[j]@;
                if known_segment(repo.index.arrows@, b) {
                    Seq::empty()
                } else {
                    seq![
                        schema_view(
                            Severity::Error,
                            "segment `"@ + id + "` is blockedBy unknown segment `"@ + b + "`"@,
                            index_yaml(repo.root@),
                            "remove `"@ + b + "` from `"@ + id + ".blockedBy` or add it under `arrows`"@,
                        ),
                    ]
                }
            },
    ));
    let all = segment_findings(repo, entry);
    assert(all == b1 + b2 + m + d);
    assert forall|k: int| 0 <= k < all.len() implies schema_shaped(#[trigger] all[k], true) by {
        if k < b1.len() {
            assert(all[k] == b1[k]);
            assert(schema_shaped(b1[k], false));
        } else if k < b1.len() + b2.len() {
            assert(all[k] == b2[k - b1.len()]);
            assert(schema_shaped(b2[k - b1.len()], false));
        } else if k < b1.len() + b2.len() + m.len() {
            assert(all[k] == m[k - b1.len() - b2.len()]);
        } else {
            assert(all[k] == d[k - b1.len() - b2.len() - m.len()]);
        }
    }
}

/// Every schema finding is a `Schema` finding in category `Schema`, at a
/// file without a line and about no spec, and an error or a warning.
pub proof fn law_schema_findings_shape(repo: LidRepo)
    ensures
        forall|k: int| 0 <= k < schema_findings(repo).len() ==> schema_shaped(#[trigger] schema_findings(repo)[k], true),
{
    let segs = Seq::new(repo.index.arrows@.len(), |k: int| segment_findings(repo, repo.index.arrows@[k]));
    let cls = Seq::new(repo.index.taxonomy@.len(), |k: int| cluster_findings(repo, repo.index.taxonomy@[k]));
    let p = |f: FindingView| schema_shaped(f, true);
    assert forall|i: int, k: int| 0 <= i < segs.len() && 0 <= k < segs[i].len() implies p(#[trigger] segs[i][k]) by {
        lemma_segment_shaped(repo, repo.index.arrows@[i]);
    }
    lemma_flat_forall(segs, p);
    assert forall|i: int, k: int| 0 <= i < cls.len() && 0 <= k < cls[i].len() implies p(#[trigger] cls[i][k]) by {
        let entry = repo.index.taxonomy@[i];
        let cluster = entry.0@;
        lemma_singletons_shaped(Seq::new(
            entry.1@.len(),
            |j: int|
                {
                    let s = entry.1@[j]@;
                    if known_segment(repo.index.arrows@, s) {
                        Seq::empty()
                    } else {
                        seq![
                            schema_view(
                                Severity::Error,
                                "taxonomy cluster `"@ + cluster + "` references unknown segment `"@ + s + "`"@,
                                index_yaml(repo.root@),
                                "remove `"@ + s + "` from `taxonomy."@ + cluster + "` or add the segment"@,
                            ),
                        ]
                    }
                },
        ));
        assert(schema_shaped(cls[i][k], false));
    }
    lemma_flat_forall(cls, p);
    let all = schema_findings(repo);
    assert forall|k: int| 0 <= k < all.len() implies schema_shaped(#[trigger] all[k], true) by {
        if k < flat(segs).len() {
            assert(all[k] == flat(segs)[k]);
        } else {
            assert(all[k] == flat(cls)[k - flat(segs).len()]);
        }
    }
}

/// A listed segment that is not a key of the index.
pub open spec fn unknown_in(repo: LidRepo) -> spec_fn(SegmentId) -> bool {
    |b: SegmentId| !known_segment(repo.index.arrows@, b@)
}

/// How many findings `merged_into` and status `MERGED` give: one when a
/// MERGED segment has no known target, or a segment that is not MERGED
/// names one.
pub open spec fn merged_count(repo: LidRepo, seg: Segment) -> nat {
    match seg.merged_into {
        Some(t) => if seg.status == Status::Merged && known_segment(repo.index.arrows@, t@) {
            0
        } else {
            1
        },
        None => if seg.status == Status::Merged {
            1
        } else {
            0
        },
    }
}

/// How many findings one segment entry gives: one per unknown `blocks`
/// and `blockedBy` entry, the `merged_into` count, and one when its
/// `detail:` file was not loaded.
pub open spec fn segment_count(repo: LidRepo, entry: (SegmentId, Segment)) -> nat {
    let seg = entry.1;
    seg.blocks@.filter(unknown_in(repo)).len() + seg.blocked_by@.filter(unknown_in(repo)).len() + merged_count(
        repo,
        seg,
    ) + if detail_loaded(repo.arrow_docs@, arrows_dir(repo.root@), seg.detail@) {
        0nat
    } else {
        1nat
    }
}

/// How many findings one taxonomy cluster gives: one per unknown segment.
pub open spec fn cluster_count(repo: LidRepo, entry: (String, Vec<SegmentId>)) -> nat {
    entry.1@.filter(unknown_in(repo)).len()
}

proof fn lemma_segment_count(repo: LidRepo, entry: (SegmentId, Segment))
    ensures
        segment_findings(repo, entry).len() == segment_count(repo, entry),
{
    let id = entry.0@;
    let seg = entry.1;
    lemma_flat_len_count(
        seg.blocks@,
        Seq::new(
            seg.blocks@.len(),
            |j: int|
                {
                    let b = seg.blocks@[j]@;
                    if known_segment(repo.index.arrows@, b) {
                        Seq::empty()
                    } else {
                        seq![
                            schema_view(
                                Severity::Error,
                                "segment `"@ + id + "` blocks unknown segment `"@ + b + "`"@,
                                index_yaml(repo.root@),
                                "remove `"@ + b + "` from `"@ + id + ".blocks` or add it under `arrows`"@,
                            ),
                        ]
                    }
                },
        ),
        unknown_in(repo),
    );
    lemma_flat_len_count(
        seg.blocked_by@,
        Seq::new(
            seg.blocked_by@.len(),
            |j: int|
                {
                    let b = seg.blocked_by@[j]@;
                    if known_segment(repo.index.arrows@, b) {
                        Seq::empty()
                    } else {
                        seq![
                            schema_view(
                                Severity::Error,
                                "segment `"@ + id + "` is blockedBy unknown segment `"@ + b + "`"@,
                                index_yaml(repo.root@),
                                "remove `"@ + b + "` from `"@ + id + ".blockedBy` or add it under `arrows`"@,
                            ),
                        ]
                    }
                },
        ),
        unknown_in(repo),
    );
}

proof fn lemma_cluster_count(repo: LidRepo, entry: (String, Vec<SegmentId>))
    ensures
        cluster_findings(repo, entry).len() == cluster_count(repo, entry),
{
    let cluster = entry.0@;
    lemma_flat_len_count(
        entry.1@,
        Seq::new(
            entry.1@.len(),
            |j: int|
                {
                    let s = entry.1@[j]@;
                    if known_segment(repo.index.arrows@, s) {
                        Seq::empty()
                    } else {
                        seq![
                            schema_view(
                                Severity::Error,
                                "taxonomy cluster `"@ + cluster + "` references unknown segment `"@ + s + "`"@,
                                index_yaml(repo.root@),
                                "remove `"@ + s + "` from `taxonomy."@ + cluster + "` or add the segment"@,
                            ),
                        ]
                    }
                },
        ),
        unknown_in(repo),
    );
}

/// The schema check reports one finding per unknown segment named in a
/// `blocks` list, a `blockedBy` list or a taxonomy cluster, one per
/// missing `detail:` file, and one per `merged_into` / MERGED mismatch.
pub proof fn law_schema_findings_count(repo: LidRepo)
    ensures
        schema_findings(repo).len() == sum_of(repo.index.arrows@, |e: (SegmentId, Segment)| segment_count(repo, e))
            + sum_of(repo.index.taxonomy@, |e: (String, Vec<SegmentId>)| cluster_count(repo, e)),
{
    let segs = Seq::new(repo.index.arrows@.len(), |k: int| segment_findings(repo, repo.index.arrows@[k]));
    let cls = Seq::new(repo.index.taxonomy@.len(), |k: int| cluster_findings(repo, repo.index.taxonomy@[k]));
    assert forall|j: int| 0 <= j < repo.index.arrows@.len() implies (#[trigger] segs[j]).len() == segment_count(
        repo,
        repo.index.arrows@[j],
    ) by {
        lemma_segment_count(repo, repo.index.arrows@[j]);
    }
    lemma_flat_len_sum(repo.index.arrows@, segs, |e: (SegmentId, Segment)| segment_count(repo, e));
    assert forall|j: int| 0 <= j < repo.index.taxonomy@.len() implies (#[trigger] cls[j]).len() == cluster_count(
        repo,
        repo.index.taxonomy@[j],
    ) by {
        lemma_cluster_count(repo, repo.index.taxonomy@[j]);
    }
    lemma_flat_len_sum(repo.index.taxonomy@, cls, |e: (String, Vec<SegmentId>)| cluster_count(repo, e));
}

/// Whether `id` is a key of `arrows`.
pub fn is_known_segment(arrows: &Vec<(SegmentId, Segment)>, id: &str) -> (r: bool)
    ensures
        r == known_segment(arrows@, id@),
{
    let mut k: usize = 0;
    while k < arrows.len()
        invariant
            0 <= k <= arrows@.len(),
            forall|j: int| 0 <= j < k ==> (#[trigger] arrows@[j]).0@ != id@,
        decreases arrows@.len() - k,
    {
        if crate::text::str_eq(arrows[k].0.as_str(), id) {
            return true;
        }
        k = k + 1;
    }
    false
}

fn is_detail_loaded(docs: &Vec<ArrowDoc>, dir: &str, detail: &str) -> (r: bool)
    ensures
        r == detail_loaded(docs@, dir@, detail@),
{
    let mut k: usize = 0;
    while k < docs.len()
        invariant
            0 <= k <= docs@.len(),
            forall|j: int|
                0 <= j < k ==> !(strip_prefix((#[trigger] docs@[j]).path@, dir@) matches Some(x) && same_path(
                    x,
                    detail@,
                )),
        decreases docs@.len() - k,
    {
        match path_strip_prefix(docs[k].path.as_str(), dir) {
            Some(x) => {
                if path_eq(x.as_str(), detail) {
                    return true;
                }
            },
            None => {},
        }
        k = k + 1;
    }
    false
}

/// The `Debug` spelling of a status.
pub fn status_debug_str(s: Status) -> (r: &'static str)
    ensures
        r@ == status_debug_name(s),
{
    match s {
        Status::Unmapped => "Unmapped",
        Status::Mapped => "Mapped",
        Status::Audited => "Audited",
        Status::Okay => "Ok",
        Status::Partial => "Partial",
        Status::Broken => "Broken",
        Status::Stale => "Stale",
        Status::Obsolete => "Obsolete",
        Status::Merged => "Merged",
    }
}

fn schema_finding(severity: Severity, message: String, path: String, fix: String) -> (r: Finding)
    ensures
        r@ == schema_view(severity, message@, path@, fix@),
{
    crate::checks::finding_at(CheckId::Schema, severity, Category::Schema, message, path, Some(fix))
}

/// `<root>/docs/arrows`.
fn arrows_dir_exec(root: &str) -> (r: String)
    ensures
        r@ == arrows_dir(root@),
{
    let d = join(root, "docs");
    join(d.as_str(), "arrows")
}

/// Unknown-segment findings for a list of segment references.
fn unknown_refs(
    repo: &LidRepo,
    list: &Vec<SegmentId>,
    lead: &str,
    middle: &str,
    fix_lead: &str,
    fix_middle: &str,
    fix_tail: &str,
    owner: &str,
) -> (r: Vec<Finding>)
    ensures
        views(r@) == flat(Seq::new(
            list@.len(),
            |j: int|
                {
                    let b = list@[j]@;
                    if known_segment(repo.index.arrows@, b) {
                        Seq::<FindingView>::empty()
                    } else {
                        seq![
                            schema_view(
                                Severity::Error,
                                lead@ + owner@ + middle@ + b + "`"@,
                                index_yaml(repo.root@),
                                fix_lead@ + b + fix_middle@ + owner@ + fix_tail@,
                            ),
                        ]
                    }
                },
        )),
{
    let ghost blocks = Seq::new(
        list@.len(),
        |j: int|
            {
                let b = list@[j]@;
                if known_segment(repo.index.arrows@, b) {
                    Seq::<FindingView>::empty()
                } else {
                    seq![
                        schema_view(
                            Severity::Error,
                            lead@ + owner@ + middle@ + b + "`"@,
                            index_yaml(repo.root@),
                            fix_lead@ + b + fix_middle@ + owner@ + fix_tail@,
                        ),
                    ]
                }
            },
    );
    let dir = arrows_dir_exec(repo.root.as_str());
    let yaml = join(dir.as_str(), "index.yaml");
    let mut out: Vec<Finding> = Vec::new();
    let mut j: usize = 0;
    while j < list.len()
        invariant
            0 <= j <= list@.len(),
            yaml@ == index_yaml(repo.root@),
            blocks == Seq::new(
                list@.len(),
                |j: int|
                    {
                        let b = list@[j]@;
                        if known_segment(repo.index.arrows@, b) {
                            Seq::<FindingView>::empty()
                        } else {
                            seq![
                                schema_view(
                                    Severity::Error,
                                    lead@ + owner@ + middle@ + b + "`"@,
                                    index_yaml(repo.root@),
                                    fix_lead@ + b + fix_middle@ + owner@ + fix_tail@,
                                ),
                            ]
                        }
                    },
            ),
            views(out@) == flat(blocks.take(j as int)),
        decreases list@.len() - j,
    {
        proof {
            lemma_flat_take(blocks, j as int);
        }
        let b = list[j].as_str();
        if !is_known_segment(&repo.index.arrows, b) {
            let mut msg = cat(lead, owner);
            msg.append(middle);
            msg.append(b);
            msg.append("`");
            let mut fix = cat(fix_lead, b);
            fix.append(fix_middle);
            fix.append(owner);
            fix.append(fix_tail);
            push_finding(&mut out, schema_finding(Severity::Error, msg, yaml.clone(), fix));
        }
        j = j + 1;
    }
    proof {
        lemma_flat_all(blocks);
    }
    out
}

fn merged_exec(repo: &LidRepo, id: &str, seg: &Segment) -> (r: Vec<Finding>)
    ensures
        views(r@) == merged_findings(*repo, id@, *seg),
{
    let dir = arrows_dir_exec(repo.root.as_str());
    let yaml = join(dir.as_str(), "index.yaml");
    let mut out: Vec<Finding> = Vec::new();
    match &seg.merged_into {
        Some(t) => {
            if seg.status == Status::Merged {
                if !is_known_segment(&repo.index.arrows, t.as_str()) {
                    let mut msg = cat("segment `", id);
                    msg.append("` merged into unknown segment `");
                    msg.append(t.as_str());
                    msg.append("`");
                    let mut fix = cat("ensure `", t.as_str());
                    fix.append("` exists under `arrows`");
                    push_finding(&mut out, schema_finding(Severity::Error, msg, yaml, fix));
                }
            } else {
                let mut msg = cat("segment `", id);
                msg.append("` declares `merged_into: ");
                msg.append(t.as_str());
                msg.append("` but status is `");
                msg.append(status_debug_str(seg.status));
                msg.append("`, not MERGED");
                let fix = String::from_str("set status to MERGED or drop the merged_into field");
                push_finding(&mut out, schema_finding(Severity::Warning, msg, yaml, fix));
            }
        },
        None => {
            if seg.status == Status::Merged {
                let mut msg = cat("segment `", id);
                msg.append("` has status MERGED but no `merged_into` target");
                let fix = String::from_str("add `merged_into: <target-segment>` or change the status");
                push_finding(&mut out, schema_finding(Severity::Error, msg, yaml, fix));
            }
        },
    }
    assert(views(out@) =~= merged_findings(*repo, id@, *seg));
    out
}

fn detail_exec(repo: &LidRepo, id: &str, seg: &Segment) -> (r: Vec<Finding>)
    ensures
        views(r@) == detail_findings(*repo, id@, *seg),
{
    let dir = arrows_dir_exec(repo.root.as_str());
    let mut out: Vec<Finding> = Vec::new();
    if !is_detail_loaded(&repo.arrow_docs, dir.as_str(), seg.detail.as_str()) {
        let mut msg = cat("segment `", id);
        msg.append("` detail file `");
        msg.append(seg.detail.as_str());
        msg.append("` not found under `docs/arrows/`");
        let mut fix = cat("create `docs/arrows/", seg.detail.as_str());
        fix.append("` or update `");
        fix.append(id);
        fix.append(".detail`");
        let at = join(dir.as_str(), seg.detail.as_str());
        push_finding(&mut out, schema_finding(Severity::Error, msg, at, fix));
    }
    assert(views(out@) =~= detail_findings(*repo, id@, *seg));
    out
}

fn segment_exec(repo: &LidRepo, entry: &(SegmentId, Segment)) -> (r: Vec<Finding>)
    ensures
        views(r@) == segment_findings(*repo, *entry),
{
    let id = entry.0.as_str();
    let seg = &entry.1;
    let mut out = unknown_refs(
        repo,
        &seg.blocks,
        "segment `",
        "` blocks unknown segment `",
        "remove `",
        "` from `",
        ".blocks` or add it under `arrows`",
        id,
    );
    let more = unknown_refs(
        repo,
        &seg.blocked_by,
        "segment `",
        "` is blockedBy unknown segment `",
        "remove `",
        "` from `",
        ".blockedBy` or add it under `arrows`",
        id,
    );
    append_findings(&mut out, more);
    append_findings(&mut out, merged_exec(repo, id, seg));
    append_findings(&mut out, detail_exec(repo, id, seg));
    out
}

fn cluster_exec(repo: &LidRepo, entry: &(String, Vec<SegmentId>)) -> (r: Vec<Finding>)
    ensures
        views(r@) == cluster_findings(*repo, *entry),
{
    unknown_refs(
        repo,
        &entry.1,
        "taxonomy cluster `",
        "` references unknown segment `",
        "remove `",
        "` from `taxonomy.",
        "` or add the segment",
        entry.0.as_str(),
    )
}

impl Check for SchemaCheck {
    fn id(&self) -> (r: CheckId)
        ensures
            r == CheckId::Schema,
    {
        CheckId::Schema
    }

    /// Checks the cross-references of the arrow index.
    fn run(&self, repo: &LidRepo) -> (r: Vec<Finding>)
        ensures
            views(r@) == schema_findings(*repo),
    {
        let ghost segs = Seq::new(repo.index.arrows@.len(), |k: int| segment_findings(*repo, repo.index.arrows@[k]));
        let ghost clus = Seq::new(
            repo.index.taxonomy@.len(),
            |k: int| cluster_findings(*repo, repo.index.taxonomy@[k]),
        );
        let mut out: Vec<Finding> = Vec::new();
        let mut k: usize = 0;
        while k < repo.index.arrows.len()
            invariant
                0 <= k <= repo.index.arrows@.len(),
                segs == Seq::new(repo.index.arrows@.len(), |k: int| segment_findings(*repo, repo.index.arrows@[k])),
                views(out@) == flat(segs.take(k as int)),
            decreases repo.index.arrows@.len() - k,
        {
            proof {
                lemma_flat_take(segs, k as int);
            }
            append_findings(&mut out, segment_exec(repo, &repo.index.arrows[k]));
            k = k + 1;
        }
        proof {
            lemma_flat_all(segs);
        }
        let ghost head = views(out@);
        let mut c: usize = 0;
        while c < repo.index.taxonomy.len()
            invariant
                0 <= c <= repo.index.taxonomy@.len(),
                head == flat(segs),
                clus == Seq::new(
                    repo.index.taxonomy@.len(),
                    |k: int| cluster_findings(*repo, repo.index.taxonomy@[k]),
                ),
                views(out@) == head + flat(clus.take(c as int)),
            decreases repo.index.taxonomy@.len() - c,
        {
            proof {
                lemma_flat_take(clus, c as int);
            }
            append_findings(&mut out, cluster_exec(repo, &repo.index.taxonomy[c]));
            assert(head + flat(clus.take(c as int)) + clus[c as int] =~= head + flat(clus.take(c + 1)));
            c = c + 1;
        }
        proof {
            lemma_flat_all(clus);
        }
        out
    }
}

} // verus!
