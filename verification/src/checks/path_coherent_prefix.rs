//! Path-prefix coherence check: a spec at `docs/intent/{a}/{b}/…-specs.md`
//! should declare `prefix: A-B` (its folder names upper-cased and joined
//! by hyphens). A mismatch is a warning, so projects can adopt the
//! convention gradually.

use vstd::prelude::*;

use crate::checks::{
    flat, lemma_flat_all, lemma_flat_len_count, lemma_flat_take, push_finding, views, Category, Check, CheckId, Finding,
    FindingView, Severity,
};
use crate::model::SpecFile;
use crate::paths::{components, join_strings, join_with, path_components, path_strip_prefix, strip_prefix};
use crate::repo::LidRepo;
use crate::text::{cat, str_eq, to_upper, unicode_upper};

verus! {

/// The path-prefix coherence check.
pub struct PathCoherentPrefixCheck;

/// The folders between `<root>/docs/intent/` and a spec file; `None`
/// outside `docs/intent/` or directly in it.
pub open spec fn intent_folders(root: Seq<char>, spec_path: Seq<char>) -> Option<Seq<Seq<char>>> {
    match strip_prefix(spec_path, root) {
        None => None,
        Some(rel) => match strip_prefix(rel, "docs/intent"@) {
            None => None,
            Some(under) => {
                let c = components(under);
                if c.len() <= 1 {
                    None
                } else {
                    Some(c.drop_last())
                }
            },
        },
    }
}

/// The prefix a spec file's place implies: the folders between
/// `<root>/docs/intent/` and the file, upper-cased, joined by `-`; `None`
/// outside `docs/intent/` or directly in it.
pub open spec fn derived_prefix(root: Seq<char>, spec_path: Seq<char>) -> Option<Seq<char>> {
    match intent_folders(root, spec_path) {
        None => None,
        Some(f) => Some(join_with(f.map_values(|x: Seq<char>| unicode_upper(x)), '-')),
    }
}

/// The folders between `<root>/docs/intent/` and the spec file at
/// `spec_path`, outermost first.
pub fn intent_folders_of(root: &str, spec_path: &str) -> (r: Option<Vec<String>>)
    ensures
        r matches Some(v) ==> intent_folders(root@, spec_path@) == Some(v@.map_values(|s: String| s@)),
        r is None ==> intent_folders(root@, spec_path@) is None,
{
    let rel = match path_strip_prefix(spec_path, root) {
        Some(rel) => rel,
        None => return None,
    };
    let under = match path_strip_prefix(rel.as_str(), "docs/intent") {
        Some(u) => u,
        None => return None,
    };
    let mut comps = path_components(under.as_str());
    if comps.len() <= 1 {
        return None;
    }
    let ghost c = components(under@);
    comps.pop();
    assert(comps@.map_values(|s: String| s@) =~= c.drop_last());
    Some(comps)
}

/// Derive the expected spec prefix from an absolute spec file path.
pub fn derive_prefix(root: &str, spec_path: &str) -> (r: Option<String>)
    ensures
        r matches Some(p) ==> derived_prefix(root@, spec_path@) == Some(p@),
        r is None ==> derived_prefix(root@, spec_path@) is None,
{
    let folders = match intent_folders_of(root, spec_path) {
        Some(f) => f,
        None => return None,
    };
    let ghost c = folders@.map_values(|s: String| s@);
    let mut parts: Vec<String> = Vec::new();
    let mut k: usize = 0;
    while k < folders.len()
        invariant
            c == folders@.map_values(|s: String| s@),
            0 <= k <= folders@.len(),
            parts@.len() == k,
            forall|j: int| 0 <= j < k ==> (#[trigger] parts@[j])@ == unicode_upper(c[j]),
        decreases folders@.len() - k,
    {
        parts.push(to_upper(folders[k].as_str()));
        k = k + 1;
    }
    let r = join_strings(&parts, 0, '-');
    assert(parts@.skip(0).map_values(|s: String| s@) =~= c.map_values(|x: Seq<char>| unicode_upper(x)));
    Some(r)
}

/// The finding for a declared prefix that differs from the derived one.
pub open spec fn prefix_finding(file: SpecFile, declared: Seq<char>, expected: Seq<char>) -> FindingView {
    FindingView {
        check: CheckId::PathCoherentPrefix,
        severity: Severity::Warning,
        category: Category::Schema,
        message: "declared prefix `"@ + declared + "` does not match path-derived prefix `"@ + expected + "`"@,
        location: Some((file.path@, None)),
        spec: None,
        remediation: Some(
            "update `prefix:` frontmatter to `"@ + expected
                + "` or move the file to the matching `docs/intent/` folder"@,
        ),
    }
}

/// Findings for one spec file.
pub open spec fn prefix_file(root: Seq<char>, file: SpecFile) -> Seq<FindingView> {
    match file.prefix {
        None => Seq::empty(),
        Some(declared) => match derived_prefix(root, file.path@) {
            None => Seq::empty(),
            Some(expected) => if declared@ == expected {
                Seq::empty()
            } else {
                seq![prefix_finding(file, declared@, expected)]
            },
        },
    }
}

/// Findings of the path-prefix check, file by file.
pub open spec fn path_coherent_prefix_findings(repo: LidRepo) -> Seq<FindingView> {
    flat(Seq::new(repo.specs@.len(), |i: int| prefix_file(repo.root@, repo.specs@[i])))
}

/// The file declares a prefix that differs from the one its folders give.
pub open spec fn prefix_mismatch(root: Seq<char>) -> spec_fn(SpecFile) -> bool {
    |f: SpecFile|
        f.prefix matches Some(d) && derived_prefix(root, f.path@) matches Some(e) && d@ != e
}

/// The check reports exactly one finding per spec file whose declared
/// prefix differs from the one its place under `docs/intent/` gives: a
/// file whose prefix is its folders upper-cased and joined by `-` gets
/// none, nor does a file without a prefix or outside `docs/intent/`.
pub proof fn law_path_prefix_count(repo: LidRepo)
    ensures
        path_coherent_prefix_findings(repo).len() == repo.specs@.filter(prefix_mismatch(repo.root@)).len(),
{
    lemma_flat_len_count(
        repo.specs@,
        Seq::new(repo.specs@.len(), |i: int| prefix_file(repo.root@, repo.specs@[i])),
        prefix_mismatch(repo.root@),
    );
}

impl Check for PathCoherentPrefixCheck {
    fn id(&self) -> (r: CheckId)
        ensures
            r == CheckId::PathCoherentPrefix,
    {
        CheckId::PathCoherentPrefix
    }

    /// Flags each spec file whose declared prefix differs from the derived one.
    fn run(&self, repo: &LidRepo) -> (r: Vec<Finding>)
        ensures
            views(r@) == path_coherent_prefix_findings(*repo),
    {
        let ghost blocks = Seq::new(repo.specs@.len(), |i: int| prefix_file(repo.root@, repo.specs@[i]));
        let mut out: Vec<Finding> = Vec::new();
        let mut i: usize = 0;
        while i < repo.specs.len()
            invariant
                0 <= i <= repo.specs@.len(),
                blocks == Seq::new(repo.specs@.len(), |i: int| prefix_file(repo.root@, repo.specs@[i])),
                views(out@) == flat(blocks.take(i as int)),
            decreases repo.specs@.len() - i,
        {
            proof {
                lemma_flat_take(blocks, i as int);
            }
            let file = &repo.specs[i];
            match &file.prefix {
                None => {},
                Some(declared) => match derive_prefix(repo.root.as_str(), file.path.as_str()) {
                    None => {},
                    Some(expected) => {
                        if !str_eq(declared.as_str(), expected.as_str()) {
                            let mut msg = cat("declared prefix `", declared.as_str());
                            msg.append("` does not match path-derived prefix `");
                            msg.append(expected.as_str());
                            msg.append("`");
                            let mut fix = cat("update `prefix:` frontmatter to `", expected.as_str());
                            fix.append("` or move the file to the matching `docs/intent/` folder");
                            let f = crate::checks::finding_at(
                                CheckId::PathCoherentPrefix,
                                Severity::Warning,
                                Category::Schema,
                                msg,
                                file.path.clone(),
                                Some(fix),
                            );
                            push_finding(&mut out, f);
                        }
                    },
                },
            }
            i = i + 1;
        }
        proof {
            lemma_flat_all(blocks);
        }
        out
    }
}

} // verus!
