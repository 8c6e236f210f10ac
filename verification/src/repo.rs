//! Aggregate state for one LID-shaped project.

use vstd::prelude::*;

use crate::checks::resolve::{resolve_arrow_ref, resolved_ref};
use crate::checks::{flat, lemma_flat_all, lemma_flat_take};
use crate::error::LidError;
use crate::lsp::rename::{path_less, path_lt};
use crate::model::{ArrowDoc, ArrowIndex, DecisionDoc, DecisionScope, LldDoc, SpecCitation, SpecFile};
use crate::paths::{
    components, extension, file_name, is_absolute, join, join_path, join_strings, join_with, path_components,
    path_eq, path_extension, path_file_name, path_is_absolute, path_strip_prefix, same_path, strip_prefix,
};
use crate::text::{ascii_upper, ends_with, str_eq, str_ends_with, to_ascii_upper};

verus! {

/// Schema versions this library can interpret.
pub open spec fn supported_schema_versions() -> Seq<u32> {
    seq![2u32]
}

/// Whether `v` is a supported `schema_version`.
pub fn is_supported_schema_version(v: u32) -> (r: bool)
    ensures
        r == supported_schema_versions().contains(v),
{
    assert(supported_schema_versions()[0] == 2u32);
    v == 2
}

/// Some entry of `present` names the same place as `p`.
pub open spec fn present_in(present: Seq<String>, p: Seq<char>) -> bool {
    exists|k: int| 0 <= k < present.len() && same_path((#[trigger] present[k])@, p)
}

/// Whether some entry of `present` names the same place as `p`.
pub fn is_present(present: &Vec<String>, p: &str) -> (r: bool)
    ensures
        r == present_in(present@, p@),
{
    let mut k: usize = 0;
    while k < present.len()
        invariant
            0 <= k <= present@.len(),
            forall|j: int| 0 <= j < k ==> !same_path((#[trigger] present@[j])@, p@),
        decreases present@.len() - k,
    {
        if path_eq(present[k].as_str(), p) {
            return true;
        }
        k = k + 1;
    }
    false
}

/// Everything the coherence checks consult about one project.
///
/// `present_paths` lists the absolute paths that were found on disk among
/// those the checks ask about (see `LidRepo::probe_paths`).
#[derive(Debug, Clone)]
pub struct LidRepo {
    /// Absolute path to the project root (parent of `docs/`).
    pub root: String,
    pub index: ArrowIndex,
    pub specs: Vec<SpecFile>,
    pub llds: Vec<LldDoc>,
    pub arrow_docs: Vec<ArrowDoc>,
    pub citations: Vec<SpecCitation>,
    pub decision_docs: Vec<DecisionDoc>,
    pub present_paths: Vec<String>,
}

/// A file name that is not an artifact: `README.md` (any ASCII case) or a
/// name starting with `_`.
pub open spec fn non_artifact_name(name: Seq<char>) -> bool {
    ascii_upper(name) == "README.MD"@ || (name.len() > 0 && name[0] == '_')
}

/// The file at `path` is not an artifact (see `non_artifact_name`); a path
/// without a file name is not excluded.
pub fn is_non_artifact_filename(path: &str) -> (r: bool)
    ensures
        r == (file_name(path@) matches Some(n) && non_artifact_name(n)),
{
    match path_file_name(path) {
        Some(n) => {
            let u = to_ascii_upper(n.as_str());
            let v = crate::text::chars_of(n.as_str());
            str_eq(u.as_str(), "README.MD") || (v.len() > 0 && v[0] == '_')
        },
        None => false,
    }
}

/// A markdown artifact whose file name ends with `suffix`.
pub open spec fn md_artifact(path: Seq<char>, suffix: Seq<char>) -> bool {
    &&& extension(path) == Some("md"@)
    &&& !(file_name(path) matches Some(n) && non_artifact_name(n))
    &&& file_name(path) matches Some(n) && ends_with(n, suffix)
}

/// Whether `path` is a markdown artifact whose file name ends with `suffix`.
pub fn is_md_artifact(path: &str, suffix: &str) -> (r: bool)
    ensures
        r == md_artifact(path@, suffix@),
{
    let md = match path_extension(path) {
        Some(e) => str_eq(e.as_str(), "md"),
        None => false,
    };
    if !md || is_non_artifact_filename(path) {
        return false;
    }
    match path_file_name(path) {
        Some(n) => str_ends_with(n.as_str(), suffix),
        None => false,
    }
}

/// `x` placed before the first path greater than it.
pub open spec fn insert_path(s: Seq<Seq<char>>, x: Seq<char>) -> Seq<Seq<char>>
    decreases s.len(),
{
    if s.len() == 0 {
        seq![x]
    } else if path_lt(x, s[0]) {
        seq![x] + s
    } else {
        seq![s[0]] + insert_path(s.drop_first(), x)
    }
}

/// `s` in path order, stably.
pub open spec fn sorted_paths(s: Seq<Seq<char>>) -> Seq<Seq<char>>
    decreases s.len(),
{
    if s.len() == 0 {
        Seq::empty()
    } else {
        insert_path(sorted_paths(s.drop_last()), s.last())
    }
}

proof fn lemma_insert_path_at(s: Seq<Seq<char>>, x: Seq<char>, p: int)
    requires
        0 <= p <= s.len(),
        forall|k: int| 0 <= k < p ==> !path_lt(x, #[trigger] s[k]),
        p < s.len() ==> path_lt(x, s[p]),
    ensures
        insert_path(s, x) == s.insert(p, x),
    decreases p,
{
    if p == 0 {
        assert(s.insert(0, x) =~= seq![x] + s);
    } else {
        lemma_insert_path_at(s.drop_first(), x, p - 1);
        assert(seq![s[0]] + s.drop_first().insert(p - 1, x) =~= s.insert(p, x));
    }
}

/// The markdown artifacts among `paths` whose file name ends with
/// `suffix` (`.md` for every markdown file), in path order.
pub fn select_md_paths(paths: &Vec<String>, suffix: &str) -> (r: Vec<String>)
    ensures
        r@.map_values(|s: String| s@) == sorted_paths(
            paths@.map_values(|s: String| s@).filter(|p: Seq<char>| md_artifact(p, suffix@)),
        ),
{
    let ghost src = paths@.map_values(|s: String| s@).filter(|p: Seq<char>| md_artifact(p, suffix@));
    let ghost all = paths@.map_values(|s: String| s@);
    let mut out: Vec<String> = Vec::new();
    let mut k: usize = 0;
    while k < paths.len()
        invariant
            0 <= k <= paths@.len(),
            all == paths@.map_values(|s: String| s@),
            out@.map_values(|s: String| s@) == sorted_paths(
                all.take(k as int).filter(|p: Seq<char>| md_artifact(p, suffix@)),
            ),
        decreases paths@.len() - k,
    {
        let ghost pre = all.take(k as int);
        proof {
            assert(all.take(k + 1) =~= pre.push(all[k as int]));
            pre.lemma_filter_push(all[k as int], |p: Seq<char>| md_artifact(p, suffix@));
            assert(all[k as int] == paths@[k as int]@);
        }
        let x = paths[k].as_str();
        if is_md_artifact(x, suffix) {
            let mut p: usize = 0;
            while p < out.len() && !path_less(x, out[p].as_str())
                invariant
                    0 <= p <= out@.len(),
                    forall|q: int| 0 <= q < p ==> !path_lt(x@, (#[trigger] out@[q])@),
                decreases out@.len() - p,
            {
                p = p + 1;
            }
            let ghost before = out@.map_values(|s: String| s@);
            proof {
                assert forall|q: int| 0 <= q < p implies !path_lt(x@, #[trigger] before[q]) by {
                    assert(before[q] == out@[q]@);
                }
                if p < out@.len() {
                    assert(before[p as int] == out@[p as int]@);
                }
                lemma_insert_path_at(before, x@, p as int);
                let f = pre.filter(|p: Seq<char>| md_artifact(p, suffix@));
                assert(f.push(x@).drop_last() =~= f);
            }
            out.insert(p, x.to_owned());
            assert(out@.map_values(|s: String| s@) =~= before.insert(p as int, x@));
        }
        k = k + 1;
    }
    assert(all.take(k as int) =~= all);
    out
}

/// `cs` as a path, absolute when `abs`.
pub open spec fn path_from(abs: bool, cs: Seq<Seq<char>>) -> Seq<char> {
    if abs {
        seq!['/'] + join_with(cs, '/')
    } else {
        join_with(cs, '/')
    }
}

/// `p` and each of its ancestors, nearest first (`Path::ancestors`).
pub open spec fn ancestors(p: Seq<char>) -> Seq<Seq<char>> {
    let c = components(p);
    Seq::new(c.len() + 1, |i: int| path_from(is_absolute(p), c.take(c.len() - i)))
}

/// The directories to look in for `docs/arrows/index.yaml`, nearest
/// first: `start` and each of its ancestors.
pub fn discover_candidates(start: &str) -> (r: Vec<String>)
    ensures
        r@.map_values(|s: String| s@) == ancestors(start@),
{
    let cs = path_components(start);
    let abs = path_is_absolute(start);
    let ghost c = components(start@);
    assert(cs@.map_values(|s: String| s@) =~= c);
    let n = cs.len();
    let mut out: Vec<String> = Vec::new();
    let mut m: usize = n;
    let mut done = false;
    while !done
        invariant
            0 <= m <= n == cs@.len(),
            c == cs@.map_values(|s: String| s@),
            c == components(start@),
            abs == is_absolute(start@),
            !done ==> out@.map_values(|s: String| s@) == ancestors(start@).take(n - m),
            done ==> out@.map_values(|s: String| s@) == ancestors(start@),
        decreases m + if done {
            0int
        } else {
            1int
        },
    {
        let mut parts: Vec<String> = Vec::new();
        let mut j: usize = 0;
        while j < m
            invariant
                0 <= j <= m <= n == cs@.len(),
                c == cs@.map_values(|s: String| s@),
                parts@.map_values(|s: String| s@) == c.take(j as int),
            decreases m - j,
        {
            let ghost before = parts@.map_values(|s: String| s@);
            let x = cs[j].clone();
            assert(c[j as int] == cs@[j as int]@);
            parts.push(x);
            assert(parts@.map_values(|s: String| s@) =~= before.push(c[j as int]));
            assert(c.take(j + 1) =~= c.take(j as int).push(c[j as int]));
            j = j + 1;
        }
        let body = join_strings(&parts, 0, '/');
        assert(parts@.skip(0).map_values(|s: String| s@) =~= c.take(m as int));
        let dir = if abs {
            let mut d = String::from_str("/");
            proof {
                reveal_strlit("/");
            }
            d.append(body.as_str());
            assert(d@ =~= seq!['/'] + body@);
            d
        } else {
            body
        };
        assert(dir@ == path_from(abs, c.take(m as int)));
        let ghost before = out@.map_values(|s: String| s@);
        let ghost i = n - m;
        assert(ancestors(start@)[i] == path_from(is_absolute(start@), c.take(c.len() - i)));
        let ghost dv = dir@;
        out.push(dir);
        assert(out@.map_values(|s: String| s@) =~= before.push(dv));
        assert(ancestors(start@).take(i + 1) =~= ancestors(start@).take(i).push(ancestors(start@)[i]));
        assert(out@.map_values(|s: String| s@) =~= ancestors(start@).take(i + 1));
        if m == 0 {
            done = true;
            assert(ancestors(start@).take(n + 1) =~= ancestors(start@));
        } else {
            m = m - 1;
        }
    }
    out
}

/// `<dir>/docs/arrows/index.yaml`.
pub fn index_yaml_of(dir: &str) -> (r: String)
    ensures
        r@ == crate::checks::schema::index_yaml(dir@),
{
    let a = join(dir, "docs");
    let b = join(a.as_str(), "arrows");
    join(b.as_str(), "index.yaml")
}

/// The scope of a decision doc found at `path`: project-level under
/// `<root>/docs/decisions/`, per-node under
/// `<root>/docs/intent/<node>/decisions/`; `None` elsewhere.
pub open spec fn decision_scope_at(root: Seq<char>, path: Seq<char>) -> Option<Option<Seq<char>>> {
    match strip_prefix(path, join_path(root, "docs"@)) {
        None => None,
        Some(rel) => {
            let c = components(rel);
            if c.len() >= 2 && c[0] == "decisions"@ {
                Some(None)
            } else if c.len() >= 4 && c[0] == "intent"@ && c[2] == "decisions"@ {
                Some(Some(c[1]))
            } else {
                None
            }
        },
    }
}

/// The scope of a decision doc found at `path`, if it is one.
pub fn decision_scope_of(root: &str, path: &str) -> (r: Option<DecisionScope>)
    ensures
        r is None <==> decision_scope_at(root@, path@) is None,
        r matches Some(s) ==> (match s {
            DecisionScope::Project => decision_scope_at(root@, path@) == Some(None::<Seq<char>>),
            DecisionScope::Node { segment } => decision_scope_at(root@, path@) == Some(Some(segment@)),
        }),
{
    let docs = join(root, "docs");
    let rel = match path_strip_prefix(path, docs.as_str()) {
        Some(r) => r,
        None => return None,
    };
    let c = path_components(rel.as_str());
    if c.len() >= 2 && str_eq(c[0].as_str(), "decisions") {
        Some(DecisionScope::Project)
    } else if c.len() >= 4 && str_eq(c[0].as_str(), "intent") && str_eq(c[2].as_str(), "decisions") {
        Some(DecisionScope::Node { segment: c[1].clone() })
    } else {
        None
    }
}

/// The paths the checks ask about: every path named by an arrow doc's
/// reference bullets (`HLD`, `LLD`, `EARS`, `Tests`, `Code`), doc by doc,
/// then every implementing artifact, spec file by spec file, resolved
/// against `root`.
pub open spec fn probe_list(repo: LidRepo) -> Seq<Seq<char>> {
    let root = repo.root@;
    flat(Seq::new(
        repo.arrow_docs@.len(),
        |i: int|
            {
                let r = repo.arrow_docs@[i].references;
                let all = r.hld@ + r.lld@ + r.ears@ + r.tests@ + r.code@;
                flat(Seq::new(
                    all.len(),
                    |k: int|
                        match resolved_ref(root, all[k]@) {
                            Some(p) => seq![p],
                            None => Seq::empty(),
                        },
                ))
            },
    )) + flat(Seq::new(
        repo.specs@.len(),
        |i: int| repo.specs@[i].implementing_artifacts@.map_values(|a: String| join_path(root, a@)),
    ))
}

/// Refuse a `schema_version` this library cannot interpret, naming the
/// versions it can.
pub fn check_schema_version(v: u32) -> (r: Result<(), LidError>)
    ensures
        r is Ok <==> supported_schema_versions().contains(v),
        r matches Err(e) ==> e matches LidError::UnsupportedSchemaVersion { found, supported } && found == v
            && supported@ == supported_schema_versions(),
{
    if !is_supported_schema_version(v) {
        let supported = vec![2u32];
        assert(supported@ =~= supported_schema_versions());
        return Err(LidError::UnsupportedSchemaVersion { found: v, supported });
    }
    Ok(())
}

impl LidRepo {
    /// Assemble a repository from what was read at `root`; a
    /// `schema_version` this library cannot interpret is refused.
    /// `present_paths` starts empty (see `probe_paths`).
    pub fn assemble(
        root: String,
        index: ArrowIndex,
        specs: Vec<SpecFile>,
        llds: Vec<LldDoc>,
        arrow_docs: Vec<ArrowDoc>,
        citations: Vec<SpecCitation>,
        decision_docs: Vec<DecisionDoc>,
    ) -> (r: Result<LidRepo, LidError>)
        ensures
            r is Ok <==> supported_schema_versions().contains(index.schema_version),
            r matches Ok(repo) ==> repo.root@ == root@ && repo.index == index && repo.specs == specs && repo.llds
                == llds && repo.arrow_docs == arrow_docs && repo.citations == citations && repo.decision_docs
                == decision_docs && repo.present_paths@.len() == 0,
            r matches Err(e) ==> e matches LidError::UnsupportedSchemaVersion { found, supported } && found
                == index.schema_version && supported@ == supported_schema_versions(),
    {
        if let Err(e) = check_schema_version(index.schema_version) {
            return Err(e);
        }
        Ok(
            LidRepo {
                root,
                index,
                specs,
                llds,
                arrow_docs,
                citations,
                decision_docs,
                present_paths: Vec::new(),
            },
        )
    }

    /// Every path the checks ask about (see `probe_list`); the caller
    /// records which of them exist in `present_paths`.
    pub fn probe_paths(&self) -> (r: Vec<String>)
        ensures
            r@.map_values(|s: String| s@) == probe_list(*self),
    {
        let root = self.root.as_str();
        let ghost blocks = Seq::new(
            self.arrow_docs@.len(),
            |i: int|
                {
                    let r = self.arrow_docs@[i].references;
                    let all = r.hld@ + r.lld@ + r.ears@ + r.tests@ + r.code@;
                    flat(Seq::new(
                        all.len(),
                        |k: int|
                            match resolved_ref(self.root@, all[k]@) {
                                Some(p) => seq![p],
                                None => Seq::empty(),
                            },
                    ))
                },
        );
        let mut out: Vec<String> = Vec::new();
        let mut i: usize = 0;
        while i < self.arrow_docs.len()
            invariant
                0 <= i <= self.arrow_docs@.len(),
                root@ == self.root@,
                blocks == Seq::new(
                    self.arrow_docs@.len(),
                    |i: int|
                        {
                            let r = self.arrow_docs@[i].references;
                            let all = r.hld@ + r.lld@ + r.ears@ + r.tests@ + r.code@;
                            flat(Seq::new(
                                all.len(),
                                |k: int|
                                    match resolved_ref(self.root@, all[k]@) {
                                        Some(p) => seq![p],
                                        None => Seq::empty(),
                                    },
                            ))
                        },
                ),
                out@.map_values(|s: String| s@) == flat(blocks.take(i as int)),
            decreases self.arrow_docs@.len() - i,
        {
            proof {
                lemma_flat_take(blocks, i as int);
            }
            let r = &self.arrow_docs[i].references;
            let mut all: Vec<String> = r.hld.clone();
            let mut t = r.lld.clone();
            all.append(&mut t);
            let mut t = r.ears.clone();
            all.append(&mut t);
            let mut t = r.tests.clone();
            all.append(&mut t);
            let mut t = r.code.clone();
            all.append(&mut t);
            assert(all@ =~= r.hld@ + r.lld@ + r.ears@ + r.tests@ + r.code@);
            let ghost inner = Seq::new(
                all@.len(),
                |k: int|
                    match resolved_ref(self.root@, all@[k]@) {
                        Some(p) => seq![p],
                        None => Seq::<Seq<char>>::empty(),
                    },
            );
            assert(flat(inner) == blocks[i as int]);
            let ghost head = out@.map_values(|s: String| s@);
            let mut k: usize = 0;
            while k < all.len()
                invariant
                    0 <= k <= all@.len(),
                    root@ == self.root@,
                    inner == Seq::new(
                        all@.len(),
                        |k: int|
                            match resolved_ref(self.root@, all@[k]@) {
                                Some(p) => seq![p],
                                None => Seq::<Seq<char>>::empty(),
                            },
                    ),
                    out@.map_values(|s: String| s@) == head + flat(inner.take(k as int)),
                decreases all@.len() - k,
            {
                proof {
                    lemma_flat_take(inner, k as int);
                }
                let ghost before = out@.map_values(|s: String| s@);
                match resolve_arrow_ref(root, all[k].as_str()) {
                    Some(p) => {
                        out.push(p);
                    },
                    None => {},
                }
                assert(out@.map_values(|s: String| s@) =~= before + inner[k as int]);
                assert(head + flat(inner.take(k as int)) + inner[k as int] =~= head + flat(inner.take(k + 1)));
                k = k + 1;
            }
            proof {
                lemma_flat_all(inner);
            }
            i = i + 1;
        }
        proof {
            lemma_flat_all(blocks);
        }
        let ghost head = out@.map_values(|s: String| s@);
        let ghost ab = Seq::new(
            self.specs@.len(),
            |i: int| self.specs@[i].implementing_artifacts@.map_values(|a: String| join_path(self.root@, a@)),
        );
        let mut f: usize = 0;
        while f < self.specs.len()
            invariant
                0 <= f <= self.specs@.len(),
                root@ == self.root@,
                ab == Seq::new(
                    self.specs@.len(),
                    |i: int| self.specs@[i].implementing_artifacts@.map_values(|a: String| join_path(self.root@, a@)),
                ),
                out@.map_values(|s: String| s@) == head + flat(ab.take(f as int)),
            decreases self.specs@.len() - f,
        {
            proof {
                lemma_flat_take(ab, f as int);
            }
            let arts = &self.specs[f].implementing_artifacts;
            let ghost h2 = out@.map_values(|s: String| s@);
            let mut k: usize = 0;
            while k < arts.len()
                invariant
                    0 <= f < self.specs@.len(),
                    0 <= k <= arts@.len(),
                    root@ == self.root@,
                    arts@ == self.specs@[f as int].implementing_artifacts@,
                    out@.map_values(|s: String| s@) == h2 + arts@.take(k as int).map_values(
                        |a: String| join_path(self.root@, a@),
                    ),
                decreases arts@.len() - k,
            {
                let p = join(root, arts[k].as_str());
                let ghost before = out@.map_values(|s: String| s@);
                out.push(p);
                assert(out@.map_values(|s: String| s@) =~= before.push(join_path(self.root@, arts@[k as int]@)));
                assert(arts@.take(k + 1) =~= arts@.take(k as int).push(arts@[k as int]));
                assert(out@.map_values(|s: String| s@) =~= h2 + arts@.take(k + 1).map_values(
                    |a: String| join_path(self.root@, a@),
                ));
                k = k + 1;
            }
            assert(arts@.take(k as int) =~= arts@);
            assert(head + flat(ab.take(f as int)) + ab[f as int] =~= head + flat(ab.take(f + 1)));
            f = f + 1;
        }
        proof {
            lemma_flat_all(ab);
        }
        out
    }
}

} // verus!
