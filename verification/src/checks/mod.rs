//! Coherence checks.
//!
//! Each check reads a `LidRepo` and returns every finding it can produce;
//! checks never modify the repo and never stop at the first finding.

pub mod arrow_doc_structure;
pub mod coverage;
pub mod dag;
pub mod decisions_structure;
pub mod implementing_artifacts;
pub mod lld_decisions;
pub mod orphans;
pub mod path_coherent_prefix;
pub mod references;
pub mod resolve;
pub mod reverse_orphan;
pub mod schema;
pub mod spec_id_format;
pub mod spec_status_counts;

use vstd::prelude::*;

use crate::ids::SpecId;
use crate::repo::LidRepo;
use crate::text::{cat, str_eq};

verus! {

/// Stable identifier for a check.
#[derive(Debug, Clone, Copy, PartialEq, Eq, Structural, Hash, PartialOrd, Ord)]
pub enum CheckId {
    Schema,
    ReferenceCoherence,
    Coverage,
    Orphan,
    ReverseOrphan,
    SpecIdFormat,
    SpecStatusCounts,
    LldDecisions,
    Dag,
    ImplementingArtifacts,
    PathCoherentPrefix,
    ArrowDocStructure,
    DecisionsStructure,
}

/// Every check identifier, in registry order.
pub open spec fn all_check_ids() -> Seq<CheckId> {
    seq![
        CheckId::Schema,
        CheckId::ReferenceCoherence,
        CheckId::Coverage,
        CheckId::Orphan,
        CheckId::ReverseOrphan,
        CheckId::SpecIdFormat,
        CheckId::SpecStatusCounts,
        CheckId::LldDecisions,
        CheckId::Dag,
        CheckId::ImplementingArtifacts,
        CheckId::PathCoherentPrefix,
        CheckId::ArrowDocStructure,
        CheckId::DecisionsStructure,
    ]
}

/// The kebab-case name of a check.
pub open spec fn check_id_name(id: CheckId) -> Seq<char> {
    match id {
        CheckId::Schema => "schema"@,
        CheckId::ReferenceCoherence => "reference-coherence"@,
        CheckId::Coverage => "coverage"@,
        CheckId::Orphan => "orphan"@,
        CheckId::ReverseOrphan => "reverse-orphan"@,
        CheckId::SpecIdFormat => "spec-id-format"@,
        CheckId::SpecStatusCounts => "spec-status-counts"@,
        CheckId::LldDecisions => "lld-decisions"@,
        CheckId::Dag => "dag"@,
        CheckId::ImplementingArtifacts => "implementing-artifacts"@,
        CheckId::PathCoherentPrefix => "path-coherent-prefix"@,
        CheckId::ArrowDocStructure => "arrow-doc-structure"@,
        CheckId::DecisionsStructure => "decisions-structure"@,
    }
}

/// The check whose kebab-case name is `s`, if any.
pub open spec fn check_id_by_name(s: Seq<char>) -> Option<CheckId> {
    if exists|id: CheckId| check_id_name(id) == s {
        Some(choose|id: CheckId| check_id_name(id) == s)
    } else {
        None
    }
}

impl CheckId {
    /// The kebab-case string form used by JSON output and the `--only` flag.
    pub fn as_str(self) -> (r: &'static str)
        ensures
            r@ == check_id_name(self),
    {
        match self {
            CheckId::Schema => "schema",
            CheckId::ReferenceCoherence => "reference-coherence",
            CheckId::Coverage => "coverage",
            CheckId::Orphan => "orphan",
            CheckId::ReverseOrphan => "reverse-orphan",
            CheckId::SpecIdFormat => "spec-id-format",
            CheckId::SpecStatusCounts => "spec-status-counts",
            CheckId::LldDecisions => "lld-decisions",
            CheckId::Dag => "dag",
            CheckId::ImplementingArtifacts => "implementing-artifacts",
            CheckId::PathCoherentPrefix => "path-coherent-prefix",
            CheckId::ArrowDocStructure => "arrow-doc-structure",
            CheckId::DecisionsStructure => "decisions-structure",
        }
    }

    /// The check whose kebab-case name is `s`, if any.
    pub fn from_name(s: &str) -> (r: Option<CheckId>)
        ensures
            r == check_id_by_name(s@),
            r matches Some(id) ==> check_id_name(id) == s@,
            r is None ==> forall|id: CheckId| check_id_name(id) != s@,
    {
        let ids: [CheckId; 13] = [
            CheckId::Schema,
            CheckId::ReferenceCoherence,
            CheckId::Coverage,
            CheckId::Orphan,
            CheckId::ReverseOrphan,
            CheckId::SpecIdFormat,
            CheckId::SpecStatusCounts,
            CheckId::LldDecisions,
            CheckId::Dag,
            CheckId::ImplementingArtifacts,
            CheckId::PathCoherentPrefix,
            CheckId::ArrowDocStructure,
            CheckId::DecisionsStructure,
        ];
        assert(ids@ == all_check_ids());
        let mut i: usize = 0;
        while i < 13
            invariant
                0 <= i <= 13,
                ids@ == all_check_ids(),
                forall|j: int| 0 <= j < i ==> check_id_name(#[trigger] all_check_ids()[j]) != s@,
            decreases 13 - i,
        {
            if str_eq(ids[i].as_str(), s) {
                proof {
                    let c = choose|id: CheckId| check_id_name(id) == s@;
                    assert(check_id_name(ids[i as int]) == s@);
                    lemma_check_id_name_injective(c, ids[i as int]);
                }
                return Some(ids[i]);
            }
            i = i + 1;
        }
        assert forall|id: CheckId| check_id_name(id) != s@ by {
            lemma_all_check_ids_complete(id);
        }
        None
    }

    /// Parse a kebab-case check name; the error text names the bad value.
    pub fn parse_name(s: &str) -> (r: Result<CheckId, String>)
        ensures
            r is Ok <==> check_id_by_name(s@) is Some,
            r matches Ok(id) ==> Some(id) == check_id_by_name(s@) && check_id_name(id) == s@,
            r matches Err(msg) ==> (forall|id: CheckId| check_id_name(id) != s@) && msg@ == "unknown check id `"@ + s@ + "`"@,
    {
        match CheckId::from_name(s) {
            Some(id) => Ok(id),
            None => {
                let mut m = cat("unknown check id `", s);
                m.append("`");
                Err(m)
            },
        }
    }
}

/// Every check identifier occurs in `all_check_ids`.
pub proof fn lemma_all_check_ids_complete(id: CheckId)
    ensures
        all_check_ids().contains(id),
{
    let s = all_check_ids();
    match id {
        CheckId::Schema => assert(s[0] == id),
        CheckId::ReferenceCoherence => assert(s[1] == id),
        CheckId::Coverage => assert(s[2] == id),
        CheckId::Orphan => assert(s[3] == id),
        CheckId::ReverseOrphan => assert(s[4] == id),
        CheckId::SpecIdFormat => assert(s[5] == id),
        CheckId::SpecStatusCounts => assert(s[6] == id),
        CheckId::LldDecisions => assert(s[7] == id),
        CheckId::Dag => assert(s[8] == id),
        CheckId::ImplementingArtifacts => assert(s[9] == id),
        CheckId::PathCoherentPrefix => assert(s[10] == id),
        CheckId::ArrowDocStructure => assert(s[11] == id),
        CheckId::DecisionsStructure => assert(s[12] == id),
    }
}

impl std::str::FromStr for CheckId {
    type Err = String;

    fn from_str(s: &str) -> (r: Result<CheckId, String>)
        ensures
            r is Ok <==> check_id_by_name(s@) is Some,
            r matches Ok(id) ==> Some(id) == check_id_by_name(s@),
            r matches Err(msg) ==> msg@ == "unknown check id `"@ + s@ + "`"@,
    {
        CheckId::parse_name(s)
    }
}

/// How serious a finding is; ordered `Info < Warning < Error`.
#[derive(Debug, Clone, Copy, PartialEq, Eq, Structural, Hash, PartialOrd, Ord)]
pub enum Severity {
    Info,
    Warning,
    Error,
}

/// The lowercase spelling of a severity.
pub open spec fn severity_name(s: Severity) -> Seq<char> {
    match s {
        Severity::Error => "error"@,
        Severity::Warning => "warning"@,
        Severity::Info => "info"@,
    }
}

/// The severity whose lowercase spelling is `s`, if any.
pub open spec fn severity_by_name(s: Seq<char>) -> Option<Severity> {
    if s == "error"@ {
        Some(Severity::Error)
    } else if s == "warning"@ {
        Some(Severity::Warning)
    } else if s == "info"@ {
        Some(Severity::Info)
    } else {
        None
    }
}

/// Numeric rank of a severity: `Info` 0, `Warning` 1, `Error` 2.
pub open spec fn severity_rank(s: Severity) -> int {
    match s {
        Severity::Info => 0,
        Severity::Warning => 1,
        Severity::Error => 2,
    }
}

impl Severity {
    /// The lowercase string form used by JSON output and `--fail-on`.
    pub fn as_str(self) -> (r: &'static str)
        ensures
            r@ == severity_name(self),
    {
        match self {
            Severity::Error => "error",
            Severity::Warning => "warning",
            Severity::Info => "info",
        }
    }

    /// `Info` 0, `Warning` 1, `Error` 2.
    pub fn rank(self) -> (r: u8)
        ensures
            r == severity_rank(self),
    {
        match self {
            Severity::Info => 0,
            Severity::Warning => 1,
            Severity::Error => 2,
        }
    }

    /// Whether `self` is at least as serious as `threshold`.
    pub fn at_least(self, threshold: Severity) -> (r: bool)
        ensures
            r == (severity_rank(self) >= severity_rank(threshold)),
    {
        self.rank() >= threshold.rank()
    }

    /// Parse `error`, `warning` or `info`; the error text names the bad value.
    pub fn parse_name(s: &str) -> (r: Result<Severity, String>)
        ensures
            r is Ok <==> severity_by_name(s@) is Some,
            r matches Ok(sev) ==> Some(sev) == severity_by_name(s@) && severity_name(sev) == s@,
            r matches Err(msg) ==> (forall|sev: Severity| severity_name(sev) != s@) && msg@
                == "unknown severity `"@ + s@ + "` (expected one of: error, warning, info)"@,
    {
        proof {
            reveal_strlit("error");
            reveal_strlit("warning");
            reveal_strlit("info");
        }
        if str_eq("error", s) {
            Ok(Severity::Error)
        } else if str_eq("warning", s) {
            Ok(Severity::Warning)
        } else if str_eq("info", s) {
            Ok(Severity::Info)
        } else {
            let mut m = cat("unknown severity `", s);
            m.append("` (expected one of: error, warning, info)");
            Err(m)
        }
    }
}

impl std::str::FromStr for Severity {
    type Err = String;

    fn from_str(s: &str) -> (r: Result<Severity, String>)
        ensures
            r is Ok <==> severity_by_name(s@) is Some,
            r matches Ok(sev) ==> Some(sev) == severity_by_name(s@),
            r matches Err(msg) ==> msg@ == "unknown severity `"@ + s@ + "` (expected one of: error, warning, info)"@,
    {
        Severity::parse_name(s)
    }
}

/// Broad grouping that mirrors the audit-checklist's sections.
#[derive(Debug, Clone, Copy, PartialEq, Eq, Structural, Hash)]
pub enum Category {
    Schema,
    References,
    Coverage,
    Staleness,
    Dag,
    Lint,
    Orphans,
}

/// A location in the repository: a file and, optionally, a 1-based line.
#[derive(Debug, Clone)]
pub struct Location {
    pub path: String,
    pub line: Option<usize>,
}

/// One observation produced by a check.
#[derive(Debug, Clone)]
pub struct Finding {
    pub check: CheckId,
    pub severity: Severity,
    pub category: Category,
    pub message: String,
    pub location: Option<Location>,
    pub spec: Option<SpecId>,
    pub remediation: Option<String>,
}

/// A finding as plain values.
pub struct FindingView {
    pub check: CheckId,
    pub severity: Severity,
    pub category: Category,
    pub message: Seq<char>,
    /// The location's path and line.
    pub location: Option<(Seq<char>, Option<usize>)>,
    pub spec: Option<Seq<char>>,
    pub remediation: Option<Seq<char>>,
}

impl View for Finding {
    type V = FindingView;

    open spec fn view(&self) -> FindingView {
        FindingView {
            check: self.check,
            severity: self.severity,
            category: self.category,
            message: self.message@,
            location: match self.location {
                Some(l) => Some((l.path@, l.line)),
                None => None,
            },
            spec: match self.spec {
                Some(s) => Some(s@),
                None => None,
            },
            remediation: match self.remediation {
                Some(r) => Some(r@),
                None => None,
            },
        }
    }
}

/// The views of a sequence of findings.
pub open spec fn views(fs: Seq<Finding>) -> Seq<FindingView> {
    fs.map_values(|f: Finding| f@)
}

/// The concatenation of `s`, in order.
pub open spec fn flat<A>(s: Seq<Seq<A>>) -> Seq<A>
    decreases s.len(),
{
    if s.len() == 0 {
        Seq::empty()
    } else {
        flat(s.drop_last()) + s.last()
    }
}

/// Concatenating one more block appends it.
pub proof fn lemma_flat_take<A>(s: Seq<Seq<A>>, i: int)
    requires
        0 <= i < s.len(),
    ensures
        flat(s.take(i + 1)) == flat(s.take(i)) + s[i],
{
    assert(s.take(i + 1).drop_last() =~= s.take(i));
}

/// When every item of every block satisfies `p`, every item of their
/// concatenation does.
pub proof fn lemma_flat_forall<A>(bs: Seq<Seq<A>>, p: spec_fn(A) -> bool)
    requires
        forall|i: int, k: int| 0 <= i < bs.len() && 0 <= k < bs[i].len() ==> p(#[trigger] bs[i][k]),
    ensures
        forall|k: int| 0 <= k < flat(bs).len() ==> p(#[trigger] flat(bs)[k]),
    decreases bs.len(),
{
    if bs.len() > 0 {
        let init = bs.drop_last();
        assert forall|i: int, k: int| 0 <= i < init.len() && 0 <= k < init[i].len() implies p(#[trigger] init[i][k]) by {
            assert(init[i] == bs[i]);
        }
        lemma_flat_forall(init, p);
        assert forall|k: int| 0 <= k < flat(bs).len() implies p(#[trigger] flat(bs)[k]) by {
            let n = flat(init).len();
            if k < n {
                assert(flat(bs)[k] == flat(init)[k]);
            } else {
                assert(flat(bs)[k] == bs[bs.len() - 1][k - n]);
            }
        }
    }
}

/// Blocks of at most one item concatenate to at most one item per block.
pub proof fn lemma_flat_len_at_most_one<A>(bs: Seq<Seq<A>>)
    requires
        forall|i: int| 0 <= i < bs.len() ==> (#[trigger] bs[i]).len() <= 1,
    ensures
        flat(bs).len() <= bs.len(),
    decreases bs.len(),
{
    if bs.len() > 0 {
        assert forall|i: int| 0 <= i < bs.drop_last().len() implies (#[trigger] bs.drop_last()[i]).len() <= 1 by {
            assert(bs.drop_last()[i] == bs[i]);
        }
        lemma_flat_len_at_most_one(bs.drop_last());
        assert(bs[bs.len() - 1].len() <= 1);
    }
}

/// The sum of `c` over the entries of `s`.
pub open spec fn sum_of<T>(s: Seq<T>, c: spec_fn(T) -> nat) -> nat
    decreases s.len(),
{
    if s.len() == 0 {
        0
    } else {
        sum_of(s.drop_last(), c) + c(s.last())
    }
}

/// Blocks whose lengths are `c` of the matching entries of `s`
/// concatenate to `sum_of(s, c)` items.
pub proof fn lemma_flat_len_sum<A, T>(s: Seq<T>, bs: Seq<Seq<A>>, c: spec_fn(T) -> nat)
    requires
        bs.len() == s.len(),
        forall|j: int| 0 <= j < s.len() ==> (#[trigger] bs[j]).len() == c(s[j]),
    ensures
        flat(bs).len() == sum_of(s, c),
    decreases s.len(),
{
    if s.len() > 0 {
        let s0 = s.drop_last();
        let b0 = bs.drop_last();
        assert forall|j: int| 0 <= j < s0.len() implies (#[trigger] b0[j]).len() == c(s0[j]) by {
            assert(b0[j] == bs[j] && s0[j] == s[j]);
        }
        lemma_flat_len_sum(s0, b0, c);
        assert(bs[bs.len() - 1].len() == c(s[s.len() - 1]));
    }
}

/// Blocks of one item where `p` holds of the matching entry of `s`, and
/// of none elsewhere, concatenate to as many items as `s` has entries
/// that satisfy `p`.
pub proof fn lemma_flat_len_count<A, T>(s: Seq<T>, bs: Seq<Seq<A>>, p: spec_fn(T) -> bool)
    requires
        bs.len() == s.len(),
        forall|j: int| 0 <= j < s.len() ==> (#[trigger] bs[j]).len() == (if p(s[j]) { 1nat } else { 0nat }),
    ensures
        flat(bs).len() == s.filter(p).len(),
    decreases s.len(),
{
    reveal_with_fuel(Seq::filter, 1);
    if s.len() > 0 {
        let s0 = s.drop_last();
        let b0 = bs.drop_last();
        assert forall|j: int| 0 <= j < s0.len() implies (#[trigger] b0[j]).len() == (if p(s0[j]) { 1nat } else { 0nat }) by {
            assert(b0[j] == bs[j] && s0[j] == s[j]);
        }
        lemma_flat_len_count(s0, b0, p);
        assert(bs[bs.len() - 1].len() == (if p(s[s.len() - 1]) { 1nat } else { 0nat }));
    }
}

/// An item of a block is an item of the concatenation.
pub proof fn lemma_flat_contains<A>(bs: Seq<Seq<A>>, i: int, j: int)
    requires
        0 <= i < bs.len(),
        0 <= j < bs[i].len(),
    ensures
        flat(bs).contains(bs[i][j]),
    decreases bs.len(),
{
    let init = bs.drop_last();
    if i == bs.len() - 1 {
        assert(flat(bs)[flat(init).len() + j] == bs[i][j]);
    } else {
        assert(init[i] == bs[i]);
        lemma_flat_contains(init, i, j);
        let q = choose|q: int| 0 <= q < flat(init).len() && flat(init)[q] == bs[i][j];
        assert(flat(bs)[q] == bs[i][j]);
    }
}

/// Concatenation of every block of `s`.
pub proof fn lemma_flat_all<A>(s: Seq<Seq<A>>)
    ensures
        flat(s.take(s.len() as int)) == flat(s),
{
    assert(s.take(s.len() as int) =~= s);
}

/// Append `f` to `out`.
pub fn push_finding(out: &mut Vec<Finding>, f: Finding)
    ensures
        views(final(out)@) == views(old(out)@).push(f@),
{
    out.push(f);
    assert(views(out@) =~= views(old(out)@).push(f@));
}

/// Append all of `more` to `out`.
pub fn append_findings(out: &mut Vec<Finding>, more: Vec<Finding>)
    ensures
        views(final(out)@) == views(old(out)@) + views(more@),
{
    let mut i: usize = 0;
    let ghost start = views(out@);
    while i < more.len()
        invariant
            0 <= i <= more@.len(),
            views(out@) == start + views(more@.take(i as int)),
        decreases more@.len() - i,
    {
        assert(views(more@.take(i + 1)) =~= views(more@.take(i as int)).push(more@[i as int]@));
        push_finding(out, more[i].clone_finding());
        i = i + 1;
    }
    assert(more@.take(more@.len() as int) =~= more@);
}

/// A finding located at `path` (no line).
pub fn finding_at(
    check: CheckId,
    severity: Severity,
    category: Category,
    message: String,
    path: String,
    remediation: Option<String>,
) -> (r: Finding)
    ensures
        r@ == (FindingView {
            check,
            severity,
            category,
            message: message@,
            location: Some((path@, None)),
            spec: None,
            remediation: match remediation {
                Some(x) => Some(x@),
                None => None,
            },
        }),
{
    Finding {
        check,
        severity,
        category,
        message,
        location: Some(Location { path, line: None }),
        spec: None,
        remediation,
    }
}

/// A finding about spec `spec`, located at `path`:`line`.
pub fn finding_on_line(
    check: CheckId,
    severity: Severity,
    category: Category,
    message: String,
    path: String,
    line: usize,
    spec: SpecId,
    remediation: String,
) -> (r: Finding)
    ensures
        r@ == (FindingView {
            check,
            severity,
            category,
            message: message@,
            location: Some((path@, Some(line))),
            spec: Some(spec@),
            remediation: Some(remediation@),
        }),
{
    Finding {
        check,
        severity,
        category,
        message,
        location: Some(Location { path, line: Some(line) }),
        spec: Some(spec),
        remediation: Some(remediation),
    }
}

impl Finding {
    /// A copy of this finding.
    pub fn clone_finding(&self) -> (r: Finding)
        ensures
            r@ == self@,
    {
        Finding {
            check: self.check,
            severity: self.severity,
            category: self.category,
            message: self.message.clone(),
            location: match &self.location {
                Some(l) => Some(Location { path: l.path.clone(), line: l.line }),
                None => None,
            },
            spec: match &self.spec {
                Some(s) => Some(s.clone()),
                None => None,
            },
            remediation: match &self.remediation {
                Some(x) => Some(x.clone()),
                None => None,
            },
        }
    }
}

/// A coherence check: a stable identifier and a run over a repository.
pub trait Check {
    /// Stable identifier for this check (also stamped onto its findings).
    fn id(&self) -> CheckId;

    /// Run the check against `repo` and return all findings produced.
    fn run(&self, repo: &LidRepo) -> Vec<Finding>;
}

} // verus!

verus! {

/// The default ordered list of checks of a `lidc check` run.
pub open spec fn default_check_ids() -> Seq<CheckId> {
    seq![
        CheckId::Schema,
        CheckId::ReferenceCoherence,
        CheckId::Orphan,
        CheckId::ReverseOrphan,
        CheckId::SpecIdFormat,
        CheckId::Coverage,
        CheckId::SpecStatusCounts,
        CheckId::LldDecisions,
        CheckId::Dag,
        CheckId::ImplementingArtifacts,
        CheckId::PathCoherentPrefix,
        CheckId::ArrowDocStructure,
        CheckId::DecisionsStructure,
    ]
}

/// The default ordered list of checks to run; adapters use this rather
/// than naming checks themselves.
pub fn default_checks() -> (r: Vec<CheckId>)
    ensures
        r@ == default_check_ids(),
{
    let r = vec![
        CheckId::Schema,
        CheckId::ReferenceCoherence,
        CheckId::Orphan,
        CheckId::ReverseOrphan,
        CheckId::SpecIdFormat,
        CheckId::Coverage,
        CheckId::SpecStatusCounts,
        CheckId::LldDecisions,
        CheckId::Dag,
        CheckId::ImplementingArtifacts,
        CheckId::PathCoherentPrefix,
        CheckId::ArrowDocStructure,
        CheckId::DecisionsStructure,
    ];
    assert(r@ =~= default_check_ids());
    r
}

/// What the check `id` finds in `repo`.
pub open spec fn check_findings(id: CheckId, repo: LidRepo) -> Seq<FindingView> {
    match id {
        CheckId::Schema => schema::schema_findings(repo),
        CheckId::ReferenceCoherence => references::reference_findings(repo),
        CheckId::Coverage => coverage::coverage_findings(repo),
        CheckId::Orphan => orphans::orphan_findings(repo),
        CheckId::ReverseOrphan => reverse_orphan::reverse_orphan_findings(repo),
        CheckId::SpecIdFormat => spec_id_format::spec_id_format_findings(repo),
        CheckId::SpecStatusCounts => spec_status_counts::spec_status_findings(repo),
        CheckId::LldDecisions => lld_decisions::lld_decisions_findings(repo),
        CheckId::Dag => dag::dag_findings(repo),
        CheckId::ImplementingArtifacts => implementing_artifacts::implementing_artifacts_findings(repo),
        CheckId::PathCoherentPrefix => path_coherent_prefix::path_coherent_prefix_findings(repo),
        CheckId::ArrowDocStructure => arrow_doc_structure::arrow_doc_structure_findings(repo),
        CheckId::DecisionsStructure => decisions_structure::decisions_structure_findings(repo),
    }
}

/// Run the check named `id` against `repo`.
pub fn run_check(id: CheckId, repo: &LidRepo) -> (r: Vec<Finding>)
    ensures
        views(r@) == check_findings(id, *repo),
{
    match id {
        CheckId::Schema => schema::SchemaCheck.run(repo),
        CheckId::ReferenceCoherence => references::ReferenceCoherenceCheck.run(repo),
        CheckId::Coverage => coverage::CoverageCheck.run(repo),
        CheckId::Orphan => orphans::OrphanCheck.run(repo),
        CheckId::ReverseOrphan => reverse_orphan::ReverseOrphanCheck.run(repo),
        CheckId::SpecIdFormat => spec_id_format::SpecIdFormatCheck.run(repo),
        CheckId::SpecStatusCounts => spec_status_counts::SpecStatusCountsCheck.run(repo),
        CheckId::LldDecisions => lld_decisions::LldDecisionsCheck.run(repo),
        CheckId::Dag => dag::DagCheck.run(repo),
        CheckId::ImplementingArtifacts => implementing_artifacts::ImplementingArtifactsCheck.run(repo),
        CheckId::PathCoherentPrefix => path_coherent_prefix::PathCoherentPrefixCheck.run(repo),
        CheckId::ArrowDocStructure => arrow_doc_structure::ArrowDocStructureCheck.run(repo),
        CheckId::DecisionsStructure => decisions_structure::DecisionsStructureCheck.run(repo),
    }
}

/// `id` passes the `--only` filter (no filter passes every check).
pub open spec fn selected(only: Option<Seq<CheckId>>, id: CheckId) -> bool {
    match only {
        None => true,
        Some(ids) => ids.contains(id),
    }
}

/// The filter's view.
pub open spec fn only_view(only: Option<Vec<CheckId>>) -> Option<Seq<CheckId>> {
    match only {
        Some(v) => Some(v@),
        None => None,
    }
}

/// What running `ids` in order, skipping those the filter rejects, finds.
pub open spec fn run_findings(ids: Seq<CheckId>, only: Option<Seq<CheckId>>, repo: LidRepo) -> Seq<FindingView> {
    flat(Seq::new(
        ids.len(),
        |k: int|
            if selected(only, ids[k]) {
                check_findings(ids[k], repo)
            } else {
                Seq::empty()
            },
    ))
}

fn is_selected(only: &Option<Vec<CheckId>>, id: CheckId) -> (r: bool)
    ensures
        r == selected(
            only_view(*only),
            id,
        ),
{
    match only {
        None => true,
        Some(v) => {
            let mut k: usize = 0;
            while k < v.len()
                invariant
                    0 <= k <= v@.len(),
                    only_view(*only) == Some(v@),
                    forall|j: int| 0 <= j < k ==> v@[j] != id,
                decreases v@.len() - k,
            {
                if v[k] == id {
                    assert(v@[k as int] == id);
                    assert(v@.contains(id));
                    return true;
                }
                k = k + 1;
            }
            false
        },
    }
}

/// Run the checks `ids` in order against `repo`, skipping those not in
/// `only` when a filter is given, and collect every finding.
pub fn run_checks(ids: &Vec<CheckId>, only: &Option<Vec<CheckId>>, repo: &LidRepo) -> (r: Vec<Finding>)
    ensures
        views(r@) == run_findings(
            ids@,
            only_view(*only),
            *repo,
        ),
{
    let ghost o = only_view(*only);
    let ghost blocks = Seq::new(
        ids@.len(),
        |k: int|
            if selected(o, ids@[k]) {
                check_findings(ids@[k], *repo)
            } else {
                Seq::empty()
            },
    );
    let mut out: Vec<Finding> = Vec::new();
    let mut k: usize = 0;
    while k < ids.len()
        invariant
            0 <= k <= ids@.len(),
            o == only_view(*only),
            blocks == Seq::new(
                ids@.len(),
                |k: int|
                    if selected(o, ids@[k]) {
                        check_findings(ids@[k], *repo)
                    } else {
                        Seq::empty()
                    },
            ),
            views(out@) == flat(blocks.take(k as int)),
        decreases ids@.len() - k,
    {
        proof {
            lemma_flat_take(blocks, k as int);
        }
        if is_selected(only, ids[k]) {
            append_findings(&mut out, run_check(ids[k], repo));
        } else {
            assert(views(out@) =~= views(out@) + blocks[k as int]);
        }
        k = k + 1;
    }
    proof {
        lemma_flat_all(blocks);
    }
    out
}

} // verus!

verus! {

/// The first value of `values` that names no check, from index `k` on.
pub open spec fn first_unknown(values: Seq<Seq<char>>, k: int) -> Option<Seq<char>>
    decreases values.len() - k,
{
    if k < 0 || k >= values.len() {
        None
    } else if forall|id: CheckId| check_id_name(id) != values[k] {
        Some(values[k])
    } else {
        first_unknown(values, k + 1)
    }
}

/// The checks named in `values`, each once, in `CheckId` order.
pub open spec fn named_checks(values: Seq<Seq<char>>) -> Seq<CheckId> {
    all_check_ids().filter(|id: CheckId| values.contains(check_id_name(id)))
}

/// Read the `--only` values: none means no filter; otherwise the named
/// checks, each once and in `CheckId` order; the first unknown name is an
/// error.
pub fn parse_only(values: &Vec<String>) -> (r: Result<Option<Vec<CheckId>>, String>)
    ensures
        values@.len() == 0 ==> r matches Ok(None),
        values@.len() > 0 ==> match first_unknown(values@.map_values(|s: String| s@), 0) {
            Some(bad) => r matches Err(m) && m@ == "invalid --only value: "@ + ("unknown check id `"@ + bad + "`"@),
            None => r matches Ok(Some(v)) && v@ == named_checks(values@.map_values(|s: String| s@)),
        },
{
    if values.len() == 0 {
        return Ok(None);
    }
    let ghost vs = values@.map_values(|s: String| s@);
    let mut parsed: Vec<CheckId> = Vec::new();
    let mut k: usize = 0;
    while k < values.len()
        invariant
            0 <= k <= values@.len(),
            vs == values@.map_values(|s: String| s@),
            first_unknown(vs, 0) == first_unknown(vs, k as int),
            parsed@.len() == k,
            forall|q: int| 0 <= q < k ==> check_id_name(#[trigger] parsed@[q]) == vs[q],
        decreases values@.len() - k,
    {
        assert(vs[k as int] == values@[k as int]@);
        match CheckId::parse_name(values[k].as_str()) {
            Ok(id) => {
                parsed.push(id);
            },
            Err(e) => {
                let mut m = String::from_str("invalid --only value: ");
                m.append(e.as_str());
                assert(first_unknown(vs, k as int) == Some(vs[k as int]));
                return Err(m);
            },
        }
        k = k + 1;
    }
    let all: [CheckId; 13] = [
        CheckId::Schema,
        CheckId::ReferenceCoherence,
        CheckId::Coverage,
        CheckId::Orphan,
        CheckId::ReverseOrphan,
        CheckId::SpecIdFormat,
        CheckId::SpecStatusCounts,
        CheckId::LldDecisions,
        CheckId::Dag,
        CheckId::ImplementingArtifacts,
        CheckId::PathCoherentPrefix,
        CheckId::ArrowDocStructure,
        CheckId::DecisionsStructure,
    ];
    assert(all@ == all_check_ids());
    let mut out: Vec<CheckId> = Vec::new();
    let mut i: usize = 0;
    while i < 13
        invariant
            0 <= i <= 13,
            all@ == all_check_ids(),
            vs == values@.map_values(|s: String| s@),
            parsed@.len() == vs.len(),
            forall|q: int| 0 <= q < vs.len() ==> check_id_name(#[trigger] parsed@[q]) == vs[q],
            out@ == all_check_ids().take(i as int).filter(|id: CheckId| vs.contains(check_id_name(id))),
        decreases 13 - i,
    {
        let id = all[i];
        let mut j: usize = 0;
        while j < parsed.len() && parsed[j] != id
            invariant
                0 <= j <= parsed@.len(),
                forall|q: int| 0 <= q < j ==> parsed@[q] != id,
            decreases parsed@.len() - j,
        {
            j = j + 1;
        }
        let ghost pre = all_check_ids().take(i as int);
        proof {
            assert(all_check_ids().take(i + 1) =~= pre.push(id));
            pre.lemma_filter_push(id, |x: CheckId| vs.contains(check_id_name(x)));
            if j < parsed@.len() {
                assert(vs[j as int] == check_id_name(id));
                assert(vs.contains(check_id_name(id)));
            } else {
                assert forall|q: int| 0 <= q < vs.len() implies vs[q] != check_id_name(id) by {
                    assert(check_id_name(parsed@[q]) == vs[q]);
                    lemma_check_id_name_injective(parsed@[q], id);
                }
            }
        }
        if j < parsed.len() {
            out.push(id);
        }
        i = i + 1;
    }
    assert(all_check_ids().take(13) =~= all_check_ids());
    Ok(Some(out))
}

/// Distinct checks have distinct names.
pub proof fn lemma_check_id_name_injective(a: CheckId, b: CheckId)
    ensures
        check_id_name(a) == check_id_name(b) ==> a == b,
{
    reveal_strlit("schema");
    reveal_strlit("reference-coherence");
    reveal_strlit("coverage");
    reveal_strlit("orphan");
    reveal_strlit("reverse-orphan");
    reveal_strlit("spec-id-format");
    reveal_strlit("spec-status-counts");
    reveal_strlit("lld-decisions");
    reveal_strlit("dag");
    reveal_strlit("implementing-artifacts");
    reveal_strlit("path-coherent-prefix");
    reveal_strlit("arrow-doc-structure");
    reveal_strlit("decisions-structure");
    if check_id_name(a) == check_id_name(b) && a != b {
        let x = check_id_name(a);
        let y = check_id_name(b);
        assert(x.len() == y.len());
        assert(x[0] == y[0]);
        assert(x[x.len() - 1] == y[y.len() - 1]);
        assert(x[1] == y[1]);
        assert(x[2] == y[2]);
        assert(x[3] == y[3]);
        assert(false);
    }
}

/// Reading the name of a check back gives the same check.
pub proof fn law_check_id_name_round_trip(id: CheckId)
    ensures
        check_id_by_name(check_id_name(id)) == Some(id),
{
    let c = choose|x: CheckId| check_id_name(x) == check_id_name(id);
    lemma_check_id_name_injective(c, id);
}

/// Reading the spelling of a severity back gives the same severity.
pub proof fn law_severity_name_round_trip(sev: Severity)
    ensures
        severity_by_name(severity_name(sev)) == Some(sev),
{
    reveal_strlit("error");
    reveal_strlit("warning");
    reveal_strlit("info");
    assert("error"@.len() == 5 && "warning"@.len() == 7 && "info"@.len() == 4);
}

/// Some finding is at least as serious as `threshold`.
pub open spec fn any_at_least(fs: Seq<FindingView>, threshold: Severity) -> bool {
    exists|i: int| 0 <= i < fs.len() && severity_rank(#[trigger] fs[i].severity) >= severity_rank(threshold)
}

/// Whether a check run fails under `--fail-on threshold`: some finding
/// has a severity at or above the threshold.
pub fn fails_at(findings: &Vec<Finding>, threshold: Severity) -> (r: bool)
    ensures
        r == any_at_least(views(findings@), threshold),
{
    let mut i: usize = 0;
    while i < findings.len()
        invariant
            0 <= i <= findings@.len(),
            forall|j: int| 0 <= j < i ==> severity_rank(#[trigger] findings@[j].severity) < severity_rank(threshold),
        decreases findings@.len() - i,
    {
        if findings[i].severity.at_least(threshold) {
            assert(views(findings@)[i as int].severity == findings@[i as int].severity);
            return true;
        }
        i = i + 1;
    }
    assert forall|j: int| 0 <= j < views(findings@).len() implies severity_rank(#[trigger] views(findings@)[j].severity) < severity_rank(threshold) by {
        assert(views(findings@)[j].severity == findings@[j].severity);
    }
    false
}

/// The exit status of a check run: 1 when it fails under `threshold`, else 0.
pub fn check_exit_code(findings: &Vec<Finding>, threshold: Severity) -> (r: u8)
    ensures
        r == (if any_at_least(views(findings@), threshold) { 1u8 } else { 0u8 }),
{
    if fails_at(findings, threshold) {
        1
    } else {
        0
    }
}

/// Lowering the `--fail-on` threshold never turns a failing run into a
/// passing one: a run that fails at `high` fails at every lower threshold.
pub proof fn law_fail_on_monotone(fs: Seq<FindingView>, low: Severity, high: Severity)
    requires
        severity_rank(low) <= severity_rank(high),
        any_at_least(fs, high),
    ensures
        any_at_least(fs, low),
{
    let i = choose|i: int| 0 <= i < fs.len() && severity_rank(#[trigger] fs[i].severity) >= severity_rank(high);
    assert(severity_rank(fs[i].severity) >= severity_rank(low));
}

proof fn lemma_flat_single<A>(s: Seq<Seq<A>>, k0: int)
    requires
        0 <= k0 < s.len(),
        forall|k: int| 0 <= k < s.len() && k != k0 ==> (#[trigger] s[k]).len() == 0,
    ensures
        flat(s) == s[k0],
    decreases s.len(),
{
    if k0 == s.len() - 1 {
        lemma_flat_none(s.drop_last());
        assert(flat(s.drop_last()) + s[k0] =~= s[k0]);
    } else {
        lemma_flat_single(s.drop_last(), k0);
        assert(s.last().len() == 0);
        assert(flat(s.drop_last()) + s.last() =~= flat(s.drop_last()));
    }
}

proof fn lemma_flat_none<A>(s: Seq<Seq<A>>)
    requires
        forall|k: int| 0 <= k < s.len() ==> (#[trigger] s[k]).len() == 0,
    ensures
        flat(s) == Seq::<A>::empty(),
    decreases s.len(),
{
    if s.len() > 0 {
        lemma_flat_none(s.drop_last());
        assert(s.last().len() == 0);
        assert(flat(s.drop_last()) + s.last() =~= Seq::<A>::empty());
    }
}

/// Running a list of distinct checks with `--only` naming one of them
/// finds exactly what that check finds.
pub proof fn law_only_single_check(ids: Seq<CheckId>, id: CheckId, repo: LidRepo)
    requires
        ids.contains(id),
        ids.no_duplicates(),
    ensures
        run_findings(ids, Some(seq![id]), repo) == check_findings(id, repo),
{
    let only = Some(seq![id]);
    let blocks = Seq::new(
        ids.len(),
        |k: int|
            if selected(only, ids[k]) {
                check_findings(ids[k], repo)
            } else {
                Seq::empty()
            },
    );
    let k0 = ids.index_of(id);
    assert forall|k: int| 0 <= k < blocks.len() && k != k0 implies (#[trigger] blocks[k]).len() == 0 by {
        assert(ids[k] != id);
        assert(!seq![id].contains(ids[k])) by {
            if seq![id].contains(ids[k]) {
                let j = choose|j: int| 0 <= j < 1 && seq![id][j] == ids[k];
                assert(seq![id][j] == id);
            }
        }
    }
    assert(seq![id][0] == id);
    assert(selected(only, ids[k0]));
    lemma_flat_single(blocks, k0);
}

/// Without `--only`, a run finds what every listed check finds, in order.
pub proof fn law_no_filter_runs_every_check(ids: Seq<CheckId>, repo: LidRepo)
    ensures
        run_findings(ids, None, repo) == flat(ids.map_values(|id: CheckId| check_findings(id, repo))),
{
    let blocks = Seq::new(
        ids.len(),
        |k: int|
            if selected(None, ids[k]) {
                check_findings(ids[k], repo)
            } else {
                Seq::empty()
            },
    );
    assert(blocks =~= ids.map_values(|id: CheckId| check_findings(id, repo)));
}

/// `lidc check --only ID` finds exactly what the check `ID` finds.
pub proof fn law_only_flag_runs_just_that_check(id: CheckId, repo: LidRepo)
    ensures
        run_findings(default_check_ids(), Some(seq![id]), repo) == check_findings(id, repo),
{
    let d = default_check_ids();
    assert(d.no_duplicates()) by {
        assert forall|i: int, j: int| 0 <= i < d.len() && 0 <= j < d.len() && i != j implies d[i] != d[j] by {
            assert(d.len() == 13);
        }
    }
    match id {
        CheckId::Schema => assert(d[0] == id),
        CheckId::ReferenceCoherence => assert(d[1] == id),
        CheckId::Orphan => assert(d[2] == id),
        CheckId::ReverseOrphan => assert(d[3] == id),
        CheckId::SpecIdFormat => assert(d[4] == id),
        CheckId::Coverage => assert(d[5] == id),
        CheckId::SpecStatusCounts => assert(d[6] == id),
        CheckId::LldDecisions => assert(d[7] == id),
        CheckId::Dag => assert(d[8] == id),
        CheckId::ImplementingArtifacts => assert(d[9] == id),
        CheckId::PathCoherentPrefix => assert(d[10] == id),
        CheckId::ArrowDocStructure => assert(d[11] == id),
        CheckId::DecisionsStructure => assert(d[12] == id),
    }
    law_only_single_check(d, id, repo);
}

} // verus!
