//! Typed data model for LID artifacts: the arrow index, arrow detail
//! docs, spec files, LLDs, decision docs and `@spec` citations.
//!
//! Paths are held as `/`-separated strings (see `crate::paths`); dates as
//! their ISO text.

use vstd::prelude::*;

use crate::ids::{GitSha, SegmentId, SpecId};
use crate::order::{lemma_lex_lt_irreflexive, lemma_lex_lt_transitive, lex_lt, str_lt};

verus! {

/// Lifecycle status of an arrow segment, as encoded in `index.yaml`.
#[derive(Debug, Clone, Copy, PartialEq, Eq, Structural, Hash)]
pub enum Status {
    Unmapped,
    Mapped,
    Audited,
    Okay,
    Partial,
    Broken,
    Stale,
    Obsolete,
    Merged,
}

/// The `SCREAMING_SNAKE_CASE` spelling of a status.
pub open spec fn status_name(s: Status) -> Seq<char> {
    match s {
        Status::Unmapped => "UNMAPPED"@,
        Status::Mapped => "MAPPED"@,
        Status::Audited => "AUDITED"@,
        Status::Okay => "OK"@,
        Status::Partial => "PARTIAL"@,
        Status::Broken => "BROKEN"@,
        Status::Stale => "STALE"@,
        Status::Obsolete => "OBSOLETE"@,
        Status::Merged => "MERGED"@,
    }
}

impl Status {
    /// The spelling used in `index.yaml`.
    pub fn as_str(self) -> (r: &'static str)
        ensures
            r@ == status_name(self),
    {
        match self {
            Status::Unmapped => "UNMAPPED",
            Status::Mapped => "MAPPED",
            Status::Audited => "AUDITED",
            Status::Okay => "OK",
            Status::Partial => "PARTIAL",
            Status::Broken => "BROKEN",
            Status::Stale => "STALE",
            Status::Obsolete => "OBSOLETE",
            Status::Merged => "MERGED",
        }
    }
}

/// One arrow segment — the value under `arrows.{segment-id}`.
#[derive(Debug, Clone)]
pub struct Segment {
    pub status: Status,
    pub sampled: Option<String>,
    pub audited: Option<String>,
    pub audited_sha: Option<GitSha>,
    pub blocks: Vec<SegmentId>,
    pub blocked_by: Vec<SegmentId>,
    /// Relative filename of the segment's detail doc (relative to `docs/arrows/`).
    pub detail: String,
    pub next: Option<String>,
    pub drift: Option<String>,
    /// Target segment when `status == Merged`.
    pub merged_into: Option<SegmentId>,
    pub children: Vec<SegmentId>,
    pub parent: Option<SegmentId>,
}

/// Files known to exist but not yet attached to any arrow segment.
#[derive(Debug, Clone, Default)]
pub struct UnmappedDocs {
    pub llds: Vec<String>,
    pub specs: Vec<String>,
    /// Intent-tree files (schema v2) not yet attached to a segment.
    pub intent: Vec<String>,
}

#[derive(Debug, Clone, Default)]
pub struct Unmapped {
    pub docs: UnmappedDocs,
}

/// Top-level `docs/arrows/index.yaml`.
///
/// `taxonomy` and `arrows` are ordered maps, held as key-ordered vectors of
/// entries with distinct keys.
#[derive(Debug, Clone)]
pub struct ArrowIndex {
    pub schema_version: u32,
    pub last_updated: Option<String>,
    pub taxonomy: Vec<(String, Vec<SegmentId>)>,
    pub arrows: Vec<(SegmentId, Segment)>,
    pub unmapped: Unmapped,
}

/// The keys of `arrows` strictly ascend (so none occurs twice), as the
/// entries of an ordered map come.
pub open spec fn keys_ascending(arrows: Seq<(SegmentId, Segment)>) -> bool {
    forall|i: int, j: int| 0 <= i < j < arrows.len() ==> lex_lt(#[trigger] arrows[i].0@, #[trigger] arrows[j].0@)
}

/// The key at `k` comes strictly after the key before it.
pub open spec fn ascends_at(arrows: Seq<(SegmentId, Segment)>, k: int) -> bool {
    lex_lt(arrows[k - 1].0@, arrows[k].0@)
}

/// Strictly ascending neighbours make the whole sequence ascend.
proof fn lemma_neighbours_ascend(arrows: Seq<(SegmentId, Segment)>, n: int)
    requires
        0 <= n <= arrows.len(),
        forall|k: int| 0 < k < n ==> #[trigger] ascends_at(arrows, k),
    ensures
        forall|i: int, j: int| 0 <= i < j < n ==> lex_lt(#[trigger] arrows[i].0@, #[trigger] arrows[j].0@),
    decreases n,
{
    if n > 1 {
        lemma_neighbours_ascend(arrows, n - 1);
        assert(ascends_at(arrows, n - 1));
        assert forall|i: int, j: int| 0 <= i < j < n implies lex_lt(#[trigger] arrows[i].0@, #[trigger] arrows[j].0@) by {
            if j == n - 1 && i < n - 2 {
                assert(lex_lt(arrows[i].0@, arrows[n - 2].0@));
                lemma_lex_lt_transitive(arrows[i].0@, arrows[n - 2].0@, arrows[n - 1].0@);
            }
        }
    }
}

/// In key-ascending entries no key occurs twice: an entry is found again
/// by its key alone.
pub proof fn law_ascending_keys_are_unique(arrows: Seq<(SegmentId, Segment)>)
    requires
        keys_ascending(arrows),
    ensures
        forall|i: int, j: int|
            0 <= i < arrows.len() && 0 <= j < arrows.len() && #[trigger] arrows[i].0@ == #[trigger] arrows[j].0@
                ==> i == j,
{
    assert forall|i: int, j: int|
        0 <= i < arrows.len() && 0 <= j < arrows.len() && #[trigger] arrows[i].0@ == #[trigger] arrows[j].0@ implies i
        == j by {
        if i < j {
            lemma_lex_lt_irreflexive(arrows[i].0@);
            assert(lex_lt(arrows[i].0@, arrows[j].0@));
        } else if j < i {
            lemma_lex_lt_irreflexive(arrows[j].0@);
            assert(lex_lt(arrows[j].0@, arrows[i].0@));
        }
    }
}

impl ArrowIndex {
    /// Whether the segment keys strictly ascend, as in an ordered map.
    pub fn has_ascending_keys(&self) -> (r: bool)
        ensures
            r == keys_ascending(self.arrows@),
    {
        let n = self.arrows.len();
        let mut k: usize = 1;
        while k < n
            invariant
                1 <= k <= n || n == 0,
                n == self.arrows@.len(),
                forall|q: int| 0 < q < k && q < n ==> #[trigger] ascends_at(self.arrows@, q),
            decreases n - k,
        {
            if !str_lt(self.arrows[k - 1].0.as_str(), self.arrows[k].0.as_str()) {
                assert(!ascends_at(self.arrows@, k as int));
                return false;
            }
            k = k + 1;
        }
        proof {
            lemma_neighbours_ascend(self.arrows@, n as int);
        }
        true
    }
}

/// Kind of relationship represented by an [`Edge`].
#[derive(Debug, Clone, Copy, PartialEq, Eq, Structural, Hash)]
pub enum EdgeKind {
    /// `from` blocks `to`.
    Blocks,
    /// `from.merged_into = to`.
    MergedInto,
}

/// Directed relationship between two segments.
#[derive(Debug, Clone)]
pub struct Edge {
    pub from: SegmentId,
    pub to: SegmentId,
    pub kind: EdgeKind,
}

/// The canonical `### {Kind}` subsection names recognised under `## References`.
pub open spec fn known_reference_sections() -> Seq<Seq<char>> {
    seq!["HLD"@, "LLD"@, "EARS"@, "Tests"@, "Code"@]
}

/// Bullets under `## References / ### {Kind}` in an arrow doc.
#[derive(Debug, Clone, Default)]
pub struct ArrowReferences {
    pub hld: Vec<String>,
    pub lld: Vec<String>,
    pub ears: Vec<String>,
    pub tests: Vec<String>,
    pub code: Vec<String>,
}

/// A parsed arrow detail doc.
#[derive(Debug, Clone)]
pub struct ArrowDoc {
    pub path: String,
    pub references: ArrowReferences,
    /// H3 heading names under `## References` that are not known sections.
    pub unrecognized_reference_sections: Vec<String>,
}

/// Where a `@spec` citation appears, and the role of the file.
#[derive(Debug, Clone, Copy, PartialEq, Eq, Structural, Hash)]
pub enum CitationKind {
    /// A regular source file.
    Code,
    /// A test file.
    Test,
    /// A spec file under `docs/specs/`.
    Spec,
    /// Anywhere else (docs prose, examples, fixtures).
    Other,
}

/// Lowercase spelling of a citation kind.
pub open spec fn citation_kind_name(k: CitationKind) -> Seq<char> {
    match k {
        CitationKind::Code => "code"@,
        CitationKind::Test => "test"@,
        CitationKind::Spec => "spec"@,
        CitationKind::Other => "other"@,
    }
}

impl CitationKind {
    /// The canonical lowercase string.
    pub fn as_str(self) -> (r: &'static str)
        ensures
            r@ == citation_kind_name(self),
    {
        match self {
            CitationKind::Code => "code",
            CitationKind::Test => "test",
            CitationKind::Spec => "spec",
            CitationKind::Other => "other",
        }
    }
}

/// One occurrence of `@spec SPEC-ID` in some file.
#[derive(Debug, Clone)]
pub struct SpecCitation {
    pub id: SpecId,
    pub file: String,
    /// 1-based line number.
    pub line: usize,
    pub kind: CitationKind,
}

/// Where a decision document is scoped within the project.
#[derive(Debug, Clone)]
pub enum DecisionScope {
    /// Project-level decision (`docs/decisions/`).
    Project,
    /// Per-node decision (`docs/intent/<node>/decisions/`).
    Node { segment: String },
}

/// A parsed standalone decision document.
#[derive(Debug, Clone)]
pub struct DecisionDoc {
    pub path: String,
    pub scope: DecisionScope,
    /// First H1 heading; empty when none.
    pub title: String,
}

/// A row in an LLD's `Decisions & Alternatives` table.
#[derive(Debug, Clone)]
pub struct DecisionRow {
    pub decision: String,
    pub chosen: String,
    pub alternatives: String,
    pub rationale: String,
    pub inferred: bool,
}

/// A parsed LLD document.
#[derive(Debug, Clone)]
pub struct LldDoc {
    pub path: String,
    pub decisions: Vec<DecisionRow>,
}

/// Status marker on a spec line.
#[derive(Debug, Clone, Copy, PartialEq, Eq, Structural, Hash)]
pub enum SpecStatus {
    /// `[x]`.
    Implemented,
    /// `[ ]`.
    Open,
    /// `[D]`.
    Deferred,
}

/// One requirement line inside a spec file.
#[derive(Debug, Clone)]
pub struct SpecLine {
    pub id: SpecId,
    pub status: SpecStatus,
    pub text: String,
    /// 1-based line number.
    pub line: usize,
}

/// A parsed spec file.
#[derive(Debug, Clone)]
pub struct SpecFile {
    pub path: String,
    pub specs: Vec<SpecLine>,
    pub implementing_artifacts: Vec<String>,
    pub lld: Option<String>,
    /// The `prefix:` value of the YAML frontmatter, when present.
    pub prefix: Option<String>,
}

} // verus!
