//! Scaffolding for new segments: the suggested spec-ID prefix, and the
//! text and places of the stub files a new segment starts with.

use vstd::prelude::*;

use crate::paths::{join, join_path};
use crate::text::{cat, push_char, chars_of, to_upper, unicode_upper};

verus! {

/// Index of the first `-` in `p`, or its length.
pub open spec fn dash_index(p: Seq<char>) -> int
    decreases p.len(),
{
    if p.len() == 0 {
        0
    } else if p[0] == '-' {
        0
    } else {
        1 + dash_index(p.drop_first())
    }
}

/// The namespace of a prefix: its part before the first `-`.
pub open spec fn namespace(p: Seq<char>) -> Seq<char> {
    p.take(dash_index(p))
}

/// How many prefixes have namespace `n`.
pub open spec fn ns_count(ps: Seq<Seq<char>>, n: Seq<char>) -> nat {
    ps.filter(|p: Seq<char>| namespace(p) == n).len()
}

/// The namespace of the first prefix from `i` on whose (non-empty)
/// namespace accounts for a strict majority of `ps`.
pub open spec fn majority_from(ps: Seq<Seq<char>>, i: int) -> Option<Seq<char>>
    decreases ps.len() - i,
{
    if i < 0 || i >= ps.len() {
        None
    } else if namespace(ps[i]).len() > 0 && 2 * ns_count(ps, namespace(ps[i])) > ps.len() {
        Some(namespace(ps[i]))
    } else {
        majority_from(ps, i + 1)
    }
}

/// `upper` behind the majority namespace of `ps` and a `-`, or `upper`
/// alone when no namespace holds a strict majority.
pub open spec fn namespaced(upper: Seq<char>, ps: Seq<Seq<char>>) -> Seq<char> {
    match majority_from(ps, 0) {
        Some(ns) => ns + "-"@ + upper,
        None => upper,
    }
}

/// The suggested prefix for `segment` given the existing prefixes.
pub open spec fn suggested_prefix(segment: Seq<char>, ps: Seq<Seq<char>>) -> Seq<char> {
    namespaced(unicode_upper(segment), ps)
}

proof fn lemma_dash_index(p: Seq<char>)
    ensures
        0 <= dash_index(p) <= p.len(),
        forall|k: int| 0 <= k < dash_index(p) ==> p[k] != '-',
        dash_index(p) < p.len() ==> p[dash_index(p)] == '-',
    decreases p.len(),
{
    if p.len() > 0 && p[0] != '-' {
        lemma_dash_index(p.drop_first());
        assert forall|k: int| 0 <= k < dash_index(p) implies p[k] != '-' by {
            if k > 0 {
                assert(p[k] == p.drop_first()[k - 1]);
            }
        }
    }
}

fn namespace_of(p: &str) -> (r: String)
    ensures
        r@ == namespace(p@),
{
    let v = chars_of(p);
    proof {
        lemma_dash_index(p@);
    }
    let mut k: usize = 0;
    while k < v.len() && v[k] != '-'
        invariant
            0 <= k <= v@.len(),
            v@ == p@,
            forall|q: int| 0 <= q < k ==> v@[q] != '-',
            0 <= dash_index(p@) <= p@.len(),
            forall|q: int| 0 <= q < dash_index(p@) ==> p@[q] != '-',
            dash_index(p@) < p@.len() ==> p@[dash_index(p@)] == '-',
        decreases v@.len() - k,
    {
        k = k + 1;
    }
    assert(k == dash_index(p@));
    crate::text::string_of(&v, 0, k)
}

/// Suggest a spec-ID prefix for a new segment: `NAMESPACE-SEGMENT` when one
/// namespace (the part of an existing prefix before its first `-`) holds a
/// strict majority of the existing prefixes, else the upper-cased segment.
pub fn suggest_prefix(segment_id: &str, existing_prefixes: &Vec<String>) -> (r: String)
    ensures
        r@ == suggested_prefix(segment_id@, existing_prefixes@.map_values(|s: String| s@)),
{
    let upper = to_upper(segment_id);
    namespaced_prefix(upper, existing_prefixes)
}

/// Put the majority namespace of `existing_prefixes` (if one holds a
/// strict majority) and a `-` in front of the upper-cased segment name.
pub fn namespaced_prefix(upper: String, existing_prefixes: &Vec<String>) -> (r: String)
    ensures
        r@ == namespaced(upper@, existing_prefixes@.map_values(|s: String| s@)),
{
    let ghost ps = existing_prefixes@.map_values(|s: String| s@);
    let n = existing_prefixes.len();
    let mut i: usize = 0;
    while i < n
        invariant
            0 <= i <= n == existing_prefixes@.len(),
            ps == existing_prefixes@.map_values(|s: String| s@),
            majority_from(ps, 0) == majority_from(ps, i as int),
        decreases n - i,
    {
        let ns = namespace_of(existing_prefixes[i].as_str());
        assert(ps[i as int] == existing_prefixes@[i as int]@);
        if ns.as_str().unicode_len() > 0 {
            let mut count: usize = 0;
            let mut j: usize = 0;
            while j < n
                invariant
                    0 <= j <= n == existing_prefixes@.len(),
                    ps == existing_prefixes@.map_values(|s: String| s@),
                    count == ps.take(j as int).filter(|p: Seq<char>| namespace(p) == ns@).len(),
                    count <= j,
                decreases n - j,
            {
                let ghost pre = ps.take(j as int);
                proof {
                    assert(ps.take(j + 1) =~= pre.push(ps[j as int]));
                    pre.lemma_filter_push(ps[j as int], |p: Seq<char>| namespace(p) == ns@);
                    assert(ps[j as int] == existing_prefixes@[j as int]@);
                }
                let other = namespace_of(existing_prefixes[j].as_str());
                if crate::text::str_eq(other.as_str(), ns.as_str()) {
                    count = count + 1;
                }
                j = j + 1;
            }
            assert(ps.take(n as int) =~= ps);
            assert(count == ns_count(ps, ns@));
            if count > n - count {
                let mut out = ns;
                out.append("-");
                out.append(upper.as_str());
                return out;
            }
        }
        i = i + 1;
    }
    upper
}

/// `docs/intent/<segment>` under `root`.
pub open spec fn intent_dir(root: Seq<char>, segment: Seq<char>) -> Seq<char> {
    join_path(join_path(join_path(root, "docs"@), "intent"@), segment)
}

/// Where the stub spec file and design doc of a new segment go.
pub fn intent_paths(root: &str, segment_id: &str) -> (r: (String, String, String))
    ensures
        r.0@ == intent_dir(root@, segment_id@),
        r.1@ == join_path(intent_dir(root@, segment_id@), segment_id@ + "-specs.md"@),
        r.2@ == join_path(intent_dir(root@, segment_id@), segment_id@ + "-design.md"@),
{
    let a = join(root, "docs");
    let b = join(a.as_str(), "intent");
    let dir = join(b.as_str(), segment_id);
    let specs_name = cat(segment_id, "-specs.md");
    let design_name = cat(segment_id, "-design.md");
    let specs = join(dir.as_str(), specs_name.as_str());
    let design = join(dir.as_str(), design_name.as_str());
    (dir, specs, design)
}

/// Where the stub arrow doc `detail` of a new segment goes.
pub fn arrow_doc_path(root: &str, detail: &str) -> (r: String)
    ensures
        r@ == join_path(join_path(join_path(root@, "docs"@), "arrows"@), detail@),
{
    let a = join(root, "docs");
    let b = join(a.as_str(), "arrows");
    join(b.as_str(), detail)
}

/// The stub spec file: `prefix:` frontmatter and a title.
pub open spec fn specs_stub(segment: Seq<char>, prefix: Seq<char>) -> Seq<char> {
    "---\nprefix: "@ + prefix + "\n---\n\n# "@ + segment + " specs\n"@
}

/// The stub spec file of a new segment.
pub fn specs_stub_text(segment_id: &str, spec_prefix: &str) -> (r: String)
    ensures
        r@ == specs_stub(segment_id@, spec_prefix@),
{
    let mut out = cat("---\nprefix: ", spec_prefix);
    out.append("\n---\n\n# ");
    out.append(segment_id);
    out.append(" specs\n");
    out
}

/// The stub design doc: a title, an overview and a decisions heading.
pub open spec fn design_stub(segment: Seq<char>) -> Seq<char> {
    "# "@ + segment + " design\n\n## Overview\n\n<!-- Describe the design for "@ + segment
        + " here. -->\n\n## Decisions\n"@
}

/// The stub design doc of a new segment.
pub fn design_stub_text(segment_id: &str) -> (r: String)
    ensures
        r@ == design_stub(segment_id@),
{
    let mut out = cat("# ", segment_id);
    out.append(" design\n\n## Overview\n\n<!-- Describe the design for ");
    out.append(segment_id);
    out.append(" here. -->\n\n## Decisions\n");
    out
}

/// `s` with each `-` written as a space.
pub open spec fn dashes_to_spaces(s: Seq<char>) -> Seq<char> {
    s.map_values(|c: char| if c == '-' { ' ' } else { c })
}

/// The stub arrow doc: a title, an overview, and references to the
/// segment's design doc and spec file.
pub open spec fn arrow_stub(segment: Seq<char>) -> Seq<char> {
    "# "@ + dashes_to_spaces(segment) + "\n\n## Overview\n\n<!-- Describe the "@ + segment
        + " segment here. -->\n\n## References\n\n### LLD\n- `docs/intent/"@ + segment + "/"@ + segment
        + "-design.md`\n\n### EARS\n- `docs/intent/"@ + segment + "/"@ + segment + "-specs.md`\n"@
}

/// The stub arrow doc of a new segment.
pub fn arrow_stub_text(segment_id: &str) -> (r: String)
    ensures
        r@ == arrow_stub(segment_id@),
{
    let v = chars_of(segment_id);
    let mut title = String::new();
    let mut k: usize = 0;
    while k < v.len()
        invariant
            0 <= k <= v@.len(),
            v@ == segment_id@,
            title@ == dashes_to_spaces(v@.take(k as int)),
        decreases v@.len() - k,
    {
        push_char(&mut title, if v[k] == '-' { ' ' } else { v[k] });
        assert(dashes_to_spaces(v@.take(k + 1)) =~= dashes_to_spaces(v@.take(k as int)).push(
            if v@[k as int] == '-' { ' ' } else { v@[k as int] },
        ));
        k = k + 1;
    }
    assert(v@.take(k as int) =~= v@);
    let mut out = cat("# ", title.as_str());
    out.append("\n\n## Overview\n\n<!-- Describe the ");
    out.append(segment_id);
    out.append(" segment here. -->\n\n## References\n\n### LLD\n- `docs/intent/");
    out.append(segment_id);
    out.append("/");
    out.append(segment_id);
    out.append("-design.md`\n\n### EARS\n- `docs/intent/");
    out.append(segment_id);
    out.append("/");
    out.append(segment_id);
    out.append("-specs.md`\n");
    out
}

/// The `index.yaml` of a new project with one unmapped segment.
pub open spec fn init_index(segment: Seq<char>, detail: Seq<char>) -> Seq<char> {
    "schema_version: 2\narrows:\n  "@ + segment + ":\n    status: UNMAPPED\n    detail: "@ + detail + "\n"@
}

/// The `index.yaml` of a new project with one unmapped segment.
pub fn init_index_text(segment_id: &str, detail: &str) -> (r: String)
    ensures
        r@ == init_index(segment_id@, detail@),
{
    let mut out = cat("schema_version: 2\narrows:\n  ", segment_id);
    out.append(":\n    status: UNMAPPED\n    detail: ");
    out.append(detail);
    out.append("\n");
    out
}

/// The detail file of a new project's first segment: `<segment>/overview.md`.
pub fn init_detail(segment_id: &str) -> (r: String)
    ensures
        r@ == segment_id@ + "/overview.md"@,
{
    cat(segment_id, "/overview.md")
}

} // verus!
