//! Renaming a spec ID across the workspace: the `**SPEC-ID**` token of
//! its definition and every `@spec` citation change together.
//!
//! A rename is planned first (which ID, to what, and which files to read),
//! then the edits are computed from the current text of those files — the
//! editor's buffer where one is open, else the file on disk — so the
//! ranges match what the editor will apply them to.

use vstd::prelude::*;

use crate::checks::reverse_orphan::{defined_in, is_defined};
use crate::checks::{flat, lemma_flat_all, lemma_flat_take};
use crate::ids::{is_spec_id, SpecId};
use crate::lsp::{
    byte_range_to_lsp_range, byte_span, cite_at, cites_of, def_at, def_end, def_start, id_at_position,
    line_cites, line_of, sat32, saturate_u32, spec_id_at_cursor, Pos, Span,
};
use crate::model::{SpecCitation, SpecFile};
use crate::order::{lex_lt, str_lt};
use crate::parse::markdown::{content_lines, find_spec_line_match, is_spec_line, spec_line_id};
use crate::parse::source::find_citations_in_line;
use crate::paths::{components, is_absolute, path_components, path_eq, path_is_absolute, same_path};
use crate::repo::LidRepo;
use crate::text::{cat, lines_of, str_eq};

verus! {

/// Why a rename was refused.
#[derive(Debug)]
pub enum RenameError {
    /// The cursor is not on a spec ID.
    NotOnSpec,
    /// The new name is not a valid spec ID.
    InvalidNewName { value: String },
    /// The new name already names a spec.
    Collision { id: String },
}

impl RenameError {
    /// The message shown to the user.
    pub fn message(&self) -> (r: String)
        ensures
            r@ == match *self {
                RenameError::NotOnSpec => "cursor is not on a spec ID"@,
                RenameError::InvalidNewName { value } => "`"@ + value@ + "` is not a valid spec ID"@,
                RenameError::Collision { id } => "spec ID `"@ + id@ + "` is already in use"@,
            },
    {
        match self {
            RenameError::NotOnSpec => String::from_str("cursor is not on a spec ID"),
            RenameError::InvalidNewName { value } => {
                let mut m = cat("`", value.as_str());
                m.append("` is not a valid spec ID");
                m
            },
            RenameError::Collision { id } => {
                let mut m = cat("spec ID `", id.as_str());
                m.append("` is already in use");
                m
            },
        }
    }
}

/// The span to type the new name into: the spec ID under the cursor.
pub open spec fn prepare_span(text: Seq<char>, pos: Pos) -> Option<Span> {
    match line_of(text, pos) {
        None => None,
        Some(line) => match cite_at(line, pos.character as int) {
            Some(t) => Some(byte_span(pos.line, t.1, t.2)),
            None => if def_at(line, pos.character as int) {
                Some(byte_span(pos.line, def_start(line), def_end(line)))
            } else {
                None
            },
        },
    }
}

/// The span of the spec ID under the cursor, for the editor to let the
/// user type into; `None` when the cursor is on no spec ID.
pub fn prepare_rename_at_position(text: &str, position: Pos) -> (r: Option<Span>)
    ensures
        r == prepare_span(text@, position),
{
    let line = match crate::lsp::line_at(text, position.line) {
        Some(l) => l,
        None => return None,
    };
    assert(line_of(text@, position) == Some(line@));
    let c = position.character as usize;
    let cs = find_citations_in_line(line.as_str());
    assert(cites_of(cs@, line@));
    let mut k: usize = 0;
    while k < cs.len()
        invariant
            0 <= k <= cs@.len(),
            cites_of(cs@, line@),
            line_of(text@, position) == Some(line@),
            c == position.character,
            crate::lsp::first_cover(line_cites(line@), c as int, 0) == crate::lsp::first_cover(
                line_cites(line@),
                c as int,
                k as int,
            ),
        decreases cs@.len() - k,
    {
        if cs[k].byte_range.start <= c && c <= cs[k].byte_range.end {
            return Some(byte_range_to_lsp_range(position.line, cs[k].byte_range.start, cs[k].byte_range.end));
        }
        k = k + 1;
    }
    match find_spec_line_match(line.as_str()) {
        Some(m) => {
            if m.id_byte_range.start <= c && c <= m.id_byte_range.end {
                Some(byte_range_to_lsp_range(position.line, m.id_byte_range.start, m.id_byte_range.end))
            } else {
                None
            }
        },
        None => None,
    }
}

/// Components compare as `std::path::Component` does: `..` before any name,
/// names by their text.
pub open spec fn comp_lt(a: Seq<char>, b: Seq<char>) -> bool {
    if a == b {
        false
    } else if a == seq!['.', '.'] {
        true
    } else if b == seq!['.', '.'] {
        false
    } else {
        lex_lt(a, b)
    }
}

/// Lexicographic order on component lists.
pub open spec fn comps_lt(x: Seq<Seq<char>>, y: Seq<Seq<char>>) -> bool
    decreases x.len(),
{
    if x.len() == 0 {
        y.len() > 0
    } else if y.len() == 0 {
        false
    } else if x[0] != y[0] {
        comp_lt(x[0], y[0])
    } else {
        comps_lt(x.drop_first(), y.drop_first())
    }
}

/// The order of `Path`: component by component, the root first.
pub open spec fn path_lt(a: Seq<char>, b: Seq<char>) -> bool {
    if is_absolute(a) != is_absolute(b) {
        is_absolute(a)
    } else {
        comps_lt(components(a), components(b))
    }
}

proof fn lemma_comp_lt_transitive(a: Seq<char>, b: Seq<char>, c: Seq<char>)
    requires
        comp_lt(a, b),
        comp_lt(b, c),
    ensures
        comp_lt(a, c),
{
    if a != seq!['.', '.'] {
        crate::order::lemma_lex_lt_transitive(a, b, c);
        if a == c {
            crate::order::lemma_lex_lt_transitive(a, b, a);
            crate::order::lemma_lex_lt_irreflexive(a);
        }
    }
}

/// No component list sorts before itself.
pub proof fn lemma_comps_lt_irreflexive(x: Seq<Seq<char>>)
    ensures
        !comps_lt(x, x),
    decreases x.len(),
{
    if x.len() > 0 {
        lemma_comps_lt_irreflexive(x.drop_first());
    }
}

/// `comps_lt` is transitive.
pub proof fn lemma_comps_lt_transitive(x: Seq<Seq<char>>, y: Seq<Seq<char>>, z: Seq<Seq<char>>)
    requires
        comps_lt(x, y),
        comps_lt(y, z),
    ensures
        comps_lt(x, z),
    decreases x.len(),
{
    if x.len() > 0 && y.len() > 0 && z.len() > 0 {
        if x[0] == y[0] && y[0] == z[0] {
            lemma_comps_lt_transitive(x.drop_first(), y.drop_first(), z.drop_first());
        } else if x[0] != y[0] && y[0] != z[0] {
            lemma_comp_lt_transitive(x[0], y[0], z[0]);
            if x[0] == z[0] {
                lemma_comp_lt_transitive(x[0], y[0], x[0]);
            }
        }
    }
}

/// No path sorts before itself.
pub proof fn lemma_path_lt_irreflexive(a: Seq<char>)
    ensures
        !path_lt(a, a),
{
    lemma_comps_lt_irreflexive(components(a));
}

/// `path_lt` is transitive.
pub proof fn lemma_path_lt_transitive(a: Seq<char>, b: Seq<char>, c: Seq<char>)
    requires
        path_lt(a, b),
        path_lt(b, c),
    ensures
        path_lt(a, c),
{
    if is_absolute(a) == is_absolute(b) && is_absolute(b) == is_absolute(c) {
        lemma_comps_lt_transitive(components(a), components(b), components(c));
    }
}

/// `x` added to the ordered set `s` (kept as is when an equal path is there).
pub open spec fn set_insert(s: Seq<Seq<char>>, x: Seq<char>) -> Seq<Seq<char>>
    decreases s.len(),
{
    if s.len() == 0 {
        seq![x]
    } else if same_path(x, s[0]) {
        s
    } else if path_lt(x, s[0]) {
        seq![x] + s
    } else {
        seq![s[0]] + set_insert(s.drop_first(), x)
    }
}

/// The distinct paths of `s`, ordered.
pub open spec fn path_set(s: Seq<Seq<char>>) -> Seq<Seq<char>>
    decreases s.len(),
{
    if s.len() == 0 {
        Seq::empty()
    } else {
        set_insert(path_set(s.drop_last()), s.last())
    }
}

proof fn lemma_comps_lt_total(x: Seq<Seq<char>>, y: Seq<Seq<char>>)
    requires
        x != y,
    ensures
        comps_lt(x, y) || comps_lt(y, x),
    decreases x.len(),
{
    if x.len() > 0 && y.len() > 0 {
        if x[0] == y[0] {
            if x.drop_first() == y.drop_first() {
                assert(x =~= seq![x[0]] + x.drop_first());
                assert(y =~= seq![y[0]] + y.drop_first());
            }
            lemma_comps_lt_total(x.drop_first(), y.drop_first());
        } else if x[0] != seq!['.', '.'] && y[0] != seq!['.', '.'] {
            crate::order::lemma_lex_lt_total(x[0], y[0]);
        }
    } else if x.len() == 0 && y.len() == 0 {
        assert(x =~= y);
    }
}

/// Of two paths that are not the same, one sorts before the other.
pub proof fn lemma_path_lt_total(a: Seq<char>, b: Seq<char>)
    requires
        !same_path(a, b),
    ensures
        path_lt(a, b) || path_lt(b, a),
{
    if is_absolute(a) == is_absolute(b) {
        lemma_comps_lt_total(components(a), components(b));
    }
}

/// Each path of `s` sorts strictly before every later one.
pub open spec fn paths_ascending(s: Seq<Seq<char>>) -> bool {
    forall|i: int, j: int| 0 <= i < j < s.len() ==> path_lt(#[trigger] s[i], #[trigger] s[j])
}

/// Some entry of `s` is the same path as `p`.
pub open spec fn has_path(s: Seq<Seq<char>>, p: Seq<char>) -> bool {
    exists|k: int| 0 <= k < s.len() && same_path(#[trigger] s[k], p)
}

proof fn lemma_set_insert_props(s: Seq<Seq<char>>, x: Seq<char>)
    requires
        paths_ascending(s),
    ensures
        paths_ascending(set_insert(s, x)),
        forall|e: Seq<char>| #[trigger] set_insert(s, x).contains(e) ==> s.contains(e) || e == x,
        forall|e: Seq<char>| s.contains(e) ==> #[trigger] set_insert(s, x).contains(e),
        has_path(set_insert(s, x), x),
    decreases s.len(),
{
    let t = set_insert(s, x);
    if s.len() == 0 {
        assert(same_path(t[0], x));
        assert forall|e: Seq<char>| #[trigger] t.contains(e) implies s.contains(e) || e == x by {
            let k = choose|k: int| 0 <= k < t.len() && t[k] == e;
        }
    } else if same_path(x, s[0]) {
        assert(same_path(t[0], x));
    } else if path_lt(x, s[0]) {
        assert(same_path(t[0], x));
        assert forall|i: int, j: int| 0 <= i < j < t.len() implies path_lt(#[trigger] t[i], #[trigger] t[j]) by {
            if i == 0 {
                if j - 1 > 0 {
                    lemma_path_lt_transitive(x, s[0], s[j - 1]);
                }
            } else {
                assert(t[i] == s[i - 1] && t[j] == s[j - 1]);
            }
        }
        assert forall|e: Seq<char>| #[trigger] t.contains(e) implies s.contains(e) || e == x by {
            let k = choose|k: int| 0 <= k < t.len() && t[k] == e;
            if k > 0 {
                assert(s[k - 1] == e);
            }
        }
        assert forall|e: Seq<char>| s.contains(e) implies #[trigger] t.contains(e) by {
            let k = choose|k: int| 0 <= k < s.len() && s[k] == e;
            assert(t[k + 1] == e);
        }
    } else {
        lemma_path_lt_total(x, s[0]);
        let rest = s.drop_first();
        let u = set_insert(rest, x);
        assert(paths_ascending(rest)) by {
            assert forall|i: int, j: int| 0 <= i < j < rest.len() implies path_lt(#[trigger] rest[i], #[trigger] rest[j]) by {
                assert(rest[i] == s[i + 1] && rest[j] == s[j + 1]);
            }
        }
        lemma_set_insert_props(rest, x);
        let q = choose|q: int| 0 <= q < u.len() && same_path(#[trigger] u[q], x);
        assert(same_path(t[q + 1], x));
        assert forall|i: int, j: int| 0 <= i < j < t.len() implies path_lt(#[trigger] t[i], #[trigger] t[j]) by {
            assert(t[j] == u[j - 1]);
            if i == 0 {
                let e = u[j - 1];
                assert(u.contains(e));
                assert(rest.contains(e) || e == x);
                if e != x {
                    let k = choose|k: int| 0 <= k < rest.len() && rest[k] == e;
                    assert(s[k + 1] == e);
                }
            } else {
                assert(t[i] == u[i - 1]);
            }
        }
        assert forall|e: Seq<char>| #[trigger] t.contains(e) implies s.contains(e) || e == x by {
            let k = choose|k: int| 0 <= k < t.len() && t[k] == e;
            if k > 0 {
                assert(u[k - 1] == e);
                assert(u.contains(e));
                if rest.contains(e) {
                    let m = choose|m: int| 0 <= m < rest.len() && rest[m] == e;
                    assert(s[m + 1] == e);
                }
            } else {
                assert(s[0] == e);
            }
        }
        assert forall|e: Seq<char>| s.contains(e) implies #[trigger] t.contains(e) by {
            let k = choose|k: int| 0 <= k < s.len() && s[k] == e;
            if k > 0 {
                assert(rest[k - 1] == e);
                assert(rest.contains(e));
                assert(u.contains(e));
                let m = choose|m: int| 0 <= m < u.len() && u[m] == e;
                assert(t[m + 1] == e);
            } else {
                assert(t[0] == e);
            }
        }
    }
}

/// The set of paths a rename plan keeps of the citing files is strictly
/// ascending (so no file twice), holds only given paths, and holds every
/// given path (as the same path).
pub proof fn law_path_set_sorted_unique(paths: Seq<Seq<char>>)
    ensures
        paths_ascending(path_set(paths)),
        forall|e: Seq<char>| #[trigger] path_set(paths).contains(e) ==> paths.contains(e),
        forall|k: int| 0 <= k < paths.len() ==> has_path(path_set(paths), #[trigger] paths[k]),
    decreases paths.len(),
{
    if paths.len() > 0 {
        let p = paths.drop_last();
        let x = paths.last();
        let t = path_set(paths);
        law_path_set_sorted_unique(p);
        lemma_set_insert_props(path_set(p), x);
        assert forall|e: Seq<char>| #[trigger] t.contains(e) implies paths.contains(e) by {
            if p.contains(e) {
                let k = choose|k: int| 0 <= k < p.len() && p[k] == e;
                assert(paths[k] == e);
            } else {
                assert(paths[paths.len() - 1] == e);
            }
        }
        assert forall|k: int| 0 <= k < paths.len() implies has_path(t, #[trigger] paths[k]) by {
            if k < paths.len() - 1 {
                assert(p[k] == paths[k]);
                assert(has_path(path_set(p), p[k]));
                let j = choose|j: int| 0 <= j < path_set(p).len() && same_path(#[trigger] path_set(p)[j], p[k]);
                let e = path_set(p)[j];
                assert(path_set(p).contains(e));
                assert(t.contains(e));
                let m = choose|m: int| 0 <= m < t.len() && t[m] == e;
                assert(same_path(t[m], paths[k]));
            }
        }
    }
}

proof fn lemma_set_insert_at(s: Seq<Seq<char>>, x: Seq<char>, p: int)
    requires
        0 <= p <= s.len(),
        forall|k: int| 0 <= k < p ==> !same_path(x, #[trigger] s[k]) && !path_lt(x, s[k]),
    ensures
        p < s.len() && same_path(x, s[p]) ==> set_insert(s, x) == s,
        p < s.len() && !same_path(x, s[p]) && path_lt(x, s[p]) ==> set_insert(s, x) == s.insert(p, x),
        p == s.len() ==> set_insert(s, x) == s.insert(p, x),
    decreases p,
{
    if p == 0 {
        assert(s.insert(0, x) =~= seq![x] + s);
    } else {
        lemma_set_insert_at(s.drop_first(), x, p - 1);
        assert(seq![s[0]] + s.drop_first().insert(p - 1, x) =~= s.insert(p, x));
        assert(seq![s[0]] + s.drop_first() =~= s);
    }
}

fn comps_less(x: &Vec<String>, y: &Vec<String>) -> (r: bool)
    ensures
        r == comps_lt(x@.map_values(|s: String| s@), y@.map_values(|s: String| s@)),
{
    let ghost xs = x@.map_values(|s: String| s@);
    let ghost ys = y@.map_values(|s: String| s@);
    let mut i: usize = 0;
    assert(xs.skip(0) =~= xs);
    assert(ys.skip(0) =~= ys);
    while i < x.len() && i < y.len() && str_eq(x[i].as_str(), y[i].as_str())
        invariant
            0 <= i <= x@.len(),
            i <= y@.len(),
            xs == x@.map_values(|s: String| s@),
            ys == y@.map_values(|s: String| s@),
            comps_lt(xs, ys) == comps_lt(xs.skip(i as int), ys.skip(i as int)),
        decreases x@.len() - i,
    {
        assert(xs.skip(i as int).drop_first() =~= xs.skip(i + 1));
        assert(ys.skip(i as int).drop_first() =~= ys.skip(i + 1));
        i = i + 1;
    }
    if i == x.len() {
        return i < y.len();
    }
    if i == y.len() {
        return false;
    }
    let a = x[i].as_str();
    let b = y[i].as_str();
    assert(xs.skip(i as int)[0] == a@);
    assert(ys.skip(i as int)[0] == b@);
    proof {
        reveal_strlit("..");
        assert(".."@ =~= seq!['.', '.']);
    }
    if str_eq(a, "..") {
        assert(a@ =~= seq!['.', '.']);
        return true;
    }
    if str_eq(b, "..") {
        assert(b@ =~= seq!['.', '.']);
        return false;
    }
    proof {
        reveal_strlit("..");
        assert(".."@ =~= seq!['.', '.']);
    }
    str_lt(a, b)
}

/// Whether `a` sorts before `b` as paths.
pub fn path_less(a: &str, b: &str) -> (r: bool)
    ensures
        r == path_lt(a@, b@),
{
    let aa = path_is_absolute(a);
    let ba = path_is_absolute(b);
    if aa != ba {
        return aa;
    }
    let x = path_components(a);
    let y = path_components(b);
    assert(x@.map_values(|s: String| s@) =~= components(a@));
    assert(y@.map_values(|s: String| s@) =~= components(b@));
    comps_less(&x, &y)
}

/// The distinct paths of `paths`, ordered as `Path` orders them.
pub fn sorted_path_set(paths: &Vec<String>) -> (r: Vec<String>)
    ensures
        r@.map_values(|s: String| s@) == path_set(paths@.map_values(|s: String| s@)),
{
    let ghost src = paths@.map_values(|s: String| s@);
    let mut out: Vec<String> = Vec::new();
    let mut k: usize = 0;
    while k < paths.len()
        invariant
            0 <= k <= paths@.len(),
            src == paths@.map_values(|s: String| s@),
            out@.map_values(|s: String| s@) == path_set(src.take(k as int)),
        decreases paths@.len() - k,
    {
        let x = paths[k].as_str();
        let mut p: usize = 0;
        while p < out.len() && !path_eq(x, out[p].as_str()) && !path_less(x, out[p].as_str())
            invariant
                0 <= p <= out@.len(),
                forall|q: int| 0 <= q < p ==> !same_path(x@, (#[trigger] out@[q])@) && !path_lt(x@, out@[q]@),
            decreases out@.len() - p,
        {
            p = p + 1;
        }
        let ghost before = out@.map_values(|s: String| s@);
        proof {
            assert forall|q: int| 0 <= q < p implies !same_path(x@, #[trigger] before[q]) && !path_lt(x@, before[q]) by {
                assert(before[q] == out@[q]@);
            }
            if p < out@.len() {
                assert(before[p as int] == out@[p as int]@);
            }
            lemma_set_insert_at(before, x@, p as int);
            assert(src.take(k + 1).drop_last() =~= src.take(k as int));
            assert(src[k as int] == x@);
        }
        if p < out.len() && path_eq(x, out[p].as_str()) {
        } else {
            out.insert(p, x.to_owned());
            assert(out@.map_values(|s: String| s@) =~= before.insert(p as int, x@));
        }
        k = k + 1;
    }
    assert(src.take(k as int) =~= src);
    out
}

/// What a rename will do: the ID, its new name, and the files to read.
#[derive(Debug)]
pub struct RenamePlan {
    pub old_id: SpecId,
    pub new_id: SpecId,
    /// Spec files that define the old ID, in repository order.
    pub spec_paths: Vec<String>,
    /// Files citing the old ID, each once, ordered as paths.
    pub citation_paths: Vec<String>,
}

/// The spec files defining `id`, in order.
pub open spec fn defining_files(files: Seq<SpecFile>, id: Seq<char>) -> Seq<Seq<char>> {
    files.filter(|f: SpecFile| exists|j: int| 0 <= j < f.specs@.len() && (#[trigger] f.specs@[j]).id@ == id).map_values(
        |f: SpecFile| f.path@,
    )
}

/// The files citing `id`, each once, ordered.
pub open spec fn citing_files(cites: Seq<SpecCitation>, id: Seq<char>) -> Seq<Seq<char>> {
    path_set(cites.filter(|c: SpecCitation| c.id@ == id).map_values(|c: SpecCitation| c.file@))
}

/// The outcome of planning a rename: an error, nothing to do (`None`, the
/// new name is the old one), or a plan.
pub open spec fn plan_ok(repo: LidRepo, text: Seq<char>, pos: Pos, new_name: Seq<char>, r: Result<Option<RenamePlan>, RenameError>) -> bool {
    match id_at_position(text, pos) {
        None => r matches Err(RenameError::NotOnSpec),
        Some(old) => if !is_spec_id(new_name) {
            r matches Err(RenameError::InvalidNewName { value }) && value@ == new_name
        } else if new_name == old {
            r matches Ok(None)
        } else if defined_in(repo.specs@, new_name) {
            r matches Err(RenameError::Collision { id }) && id@ == new_name
        } else {
            r matches Ok(Some(p)) && p.old_id@ == old && p.new_id@ == new_name && p.spec_paths@.map_values(
                |s: String| s@,
            ) == defining_files(repo.specs@, old) && p.citation_paths@.map_values(|s: String| s@) == citing_files(
                repo.citations@,
                old,
            )
        },
    }
}

fn file_defines(f: &SpecFile, id: &SpecId) -> (r: bool)
    ensures
        r == exists|j: int| 0 <= j < f.specs@.len() && (#[trigger] f.specs@[j]).id@ == id@,
{
    let mut j: usize = 0;
    while j < f.specs.len()
        invariant
            0 <= j <= f.specs@.len(),
            forall|q: int| 0 <= q < j ==> (#[trigger] f.specs@[q]).id@ != id@,
        decreases f.specs@.len() - j,
    {
        if f.specs[j].id.same(id) {
            return true;
        }
        j = j + 1;
    }
    false
}

/// Plan renaming the spec ID under the cursor to `new_name`.
pub fn plan_rename(repo: &LidRepo, text: &str, position: Pos, new_name: &str) -> (r: Result<Option<RenamePlan>, RenameError>)
    ensures
        plan_ok(*repo, text@, position, new_name@, r),
{
    let old_id = match spec_id_at_cursor(text, position) {
        Some(id) => id,
        None => return Err(RenameError::NotOnSpec),
    };
    let new_id = match SpecId::parse(new_name) {
        Ok(id) => id,
        Err(_) => return Err(RenameError::InvalidNewName { value: new_name.to_owned() }),
    };
    if new_id.same(&old_id) {
        return Ok(None);
    }
    if is_defined(&repo.specs, &new_id) {
        return Err(RenameError::Collision { id: new_id.as_str().to_owned() });
    }
    let files = &repo.specs;
    let mut spec_paths: Vec<String> = Vec::new();
    let mut i: usize = 0;
    while i < files.len()
        invariant
            0 <= i <= files@.len(),
            files == &repo.specs,
            spec_paths@.map_values(|s: String| s@) == defining_files(files@.take(i as int), old_id@),
        decreases files@.len() - i,
    {
        let ghost pre = files@.take(i as int);
        proof {
            assert(files@.take(i + 1) =~= pre.push(files@[i as int]));
            pre.lemma_filter_push(
                files@[i as int],
                |f: SpecFile| exists|j: int| 0 <= j < f.specs@.len() && (#[trigger] f.specs@[j]).id@ == old_id@,
            );
        }
        let ghost before = spec_paths@.map_values(|s: String| s@);
        if file_defines(&files[i], &old_id) {
            spec_paths.push(files[i].path.clone());
            assert(spec_paths@.map_values(|s: String| s@) =~= before.push(files@[i as int].path@));
        }
        i = i + 1;
    }
    assert(files@.take(i as int) =~= files@);
    let cites = &repo.citations;
    let mut cited: Vec<String> = Vec::new();
    let mut k: usize = 0;
    while k < cites.len()
        invariant
            0 <= k <= cites@.len(),
            cites == &repo.citations,
            cited@.map_values(|s: String| s@) == cites@.take(k as int).filter(|c: SpecCitation| c.id@ == old_id@).map_values(
                |c: SpecCitation| c.file@,
            ),
        decreases cites@.len() - k,
    {
        let ghost pre = cites@.take(k as int);
        proof {
            assert(cites@.take(k + 1) =~= pre.push(cites@[k as int]));
            pre.lemma_filter_push(cites@[k as int], |c: SpecCitation| c.id@ == old_id@);
        }
        let ghost before = cited@.map_values(|s: String| s@);
        if cites[k].id.same(&old_id) {
            cited.push(cites[k].file.clone());
            assert(cited@.map_values(|s: String| s@) =~= before.push(cites@[k as int].file@));
        }
        k = k + 1;
    }
    assert(cites@.take(k as int) =~= cites@);
    let citation_paths = sorted_path_set(&cited);
    Ok(Some(RenamePlan { old_id, new_id, spec_paths, citation_paths }))
}

/// One text replacement.
#[derive(Debug, Clone)]
pub struct TextEditData {
    pub range: Span,
    pub new_text: String,
}

/// The edits for one document.
#[derive(Debug)]
pub struct FileEdits {
    pub uri: String,
    pub edits: Vec<TextEditData>,
}

/// A replacement as plain values.
pub open spec fn edit_view(e: TextEditData) -> (Span, Seq<char>) {
    (e.range, e.new_text@)
}

/// Replacements as plain values.
pub open spec fn edit_views(es: Seq<TextEditData>) -> Seq<(Span, Seq<char>)> {
    es.map_values(|e: TextEditData| edit_view(e))
}

/// Per-document edits as plain values.
pub open spec fn changes_view(cs: Seq<FileEdits>) -> Seq<(Seq<char>, Seq<(Span, Seq<char>)>)> {
    cs.map_values(|c: FileEdits| (c.uri@, edit_views(c.edits@)))
}

/// Edits replacing the ID of each line of `content` that defines `old`.
pub open spec fn definition_edits(content: Seq<char>, old: Seq<char>, new_name: Seq<char>) -> Seq<(Span, Seq<char>)> {
    let ls = lines_of(content);
    flat(Seq::new(
        ls.len(),
        |i: int|
            if is_spec_line(ls[i]) && spec_line_id(ls[i]) == old {
                seq![(byte_span(sat32(i), def_start(ls[i]), def_end(ls[i])), new_name)]
            } else {
                Seq::empty()
            },
    ))
}

/// Edits replacing each `@spec` citation of `old` on `line`, line `i` of
/// its document.
pub open spec fn line_citation_edits(line: Seq<char>, i: int, old: Seq<char>, new_name: Seq<char>) -> Seq<(Span, Seq<char>)> {
    flat(line_citation_blocks(line_cites(line), i, old, new_name))
}

/// One block of edits per citation of `cs`: a replacement for each that
/// cites `old`, nothing for the others.
pub open spec fn line_citation_blocks(
    cs: Seq<(Seq<char>, int, int)>,
    i: int,
    old: Seq<char>,
    new_name: Seq<char>,
) -> Seq<Seq<(Span, Seq<char>)>> {
    Seq::new(
        cs.len(),
        |k: int|
            if cs[k].0 == old {
                seq![(byte_span(sat32(i), cs[k].1, cs[k].2), new_name)]
            } else {
                Seq::empty()
            },
    )
}

/// Edits replacing each `@spec` citation of `old` in `content`.
pub open spec fn citation_edits(content: Seq<char>, old: Seq<char>, new_name: Seq<char>) -> Seq<(Span, Seq<char>)> {
    let ls = lines_of(content);
    flat(Seq::new(ls.len(), |i: int| line_citation_edits(ls[i], i, old, new_name)))
}

/// Index of the first entry for `uri`; -1 when none.
pub open spec fn uri_index(m: Seq<(Seq<char>, Seq<(Span, Seq<char>)>)>, uri: Seq<char>) -> int
    decreases m.len(),
{
    if m.len() == 0 {
        -1
    } else if uri_index(m.drop_last(), uri) != -1 {
        uri_index(m.drop_last(), uri)
    } else if m.last().0 == uri {
        m.len() - 1
    } else {
        -1
    }
}

/// `edits` added under `uri` (appended to its entry, or a new entry);
/// nothing when there are no edits.
pub open spec fn merge_in(m: Seq<(Seq<char>, Seq<(Span, Seq<char>)>)>, uri: Seq<char>, edits: Seq<(Span, Seq<char>)>) -> Seq<(Seq<char>, Seq<(Span, Seq<char>)>)> {
    if edits.len() == 0 {
        m
    } else {
        let k = uri_index(m, uri);
        if k == -1 {
            m.push((uri, edits))
        } else {
            m.update(k, (uri, m[k].1 + edits))
        }
    }
}

/// The document text read for a file, with its URI; `None` when it could
/// not be read.
pub open spec fn read_view(r: Option<(String, String)>) -> Option<(Seq<char>, Seq<char>)> {
    match r {
        Some(t) => Some((t.0@, t.1@)),
        None => None,
    }
}

/// The edits of a rename from `old` to `new_name`, given what was read of
/// the defining files and of the citing files, in that order.
pub open spec fn rename_changes(
    old: Seq<char>,
    new_name: Seq<char>,
    spec_reads: Seq<Option<(Seq<char>, Seq<char>)>>,
    cite_reads: Seq<Option<(Seq<char>, Seq<char>)>>,
) -> Seq<(Seq<char>, Seq<(Span, Seq<char>)>)>
    decreases spec_reads.len() + cite_reads.len(),
{
    if cite_reads.len() > 0 {
        let m = rename_changes(old, new_name, spec_reads, cite_reads.drop_last());
        match cite_reads.last() {
            Some((u, c)) => merge_in(m, u, citation_edits(c, old, new_name)),
            None => m,
        }
    } else if spec_reads.len() > 0 {
        let m = rename_changes(old, new_name, spec_reads.drop_last(), cite_reads);
        match spec_reads.last() {
            Some((u, c)) => merge_in(m, u, definition_edits(c, old, new_name)),
            None => m,
        }
    } else {
        Seq::empty()
    }
}

fn definition_edits_exec(content: &str, old: &SpecId, new_name: &str) -> (r: Vec<TextEditData>)
    ensures
        edit_views(r@) == definition_edits(content@, old@, new_name@),
{
    let lines = content_lines(content);
    let ghost ls = lines_of(content@);
    let ghost blocks = Seq::new(
        ls.len(),
        |i: int|
            if is_spec_line(ls[i]) && spec_line_id(ls[i]) == old@ {
                seq![(byte_span(sat32(i), def_start(ls[i]), def_end(ls[i])), new_name@)]
            } else {
                Seq::empty()
            },
    );
    let mut out: Vec<TextEditData> = Vec::new();
    let mut i: usize = 0;
    while i < lines.len()
        invariant
            0 <= i <= lines@.len(),
            ls == lines_of(content@),
            lines@.len() == ls.len(),
            forall|j: int| 0 <= j < lines@.len() ==> (#[trigger] lines@[j])@ == ls[j],
            blocks == Seq::new(
                ls.len(),
                |i: int|
                    if is_spec_line(ls[i]) && spec_line_id(ls[i]) == old@ {
                        seq![(byte_span(sat32(i), def_start(ls[i]), def_end(ls[i])), new_name@)]
                    } else {
                        Seq::empty()
                    },
            ),
            edit_views(out@) == flat(blocks.take(i as int)),
        decreases lines@.len() - i,
    {
        proof {
            lemma_flat_take(blocks, i as int);
        }
        let ghost before = edit_views(out@);
        match find_spec_line_match(lines[i].as_str()) {
            Some(m) => {
                if m.id.same(old) {
                    let e = TextEditData {
                        range: byte_range_to_lsp_range(saturate_u32(i), m.id_byte_range.start, m.id_byte_range.end),
                        new_text: new_name.to_owned(),
                    };
                    out.push(e);
                    assert(edit_views(out@) =~= before.push(edit_view(e)));
                }
            },
            None => {},
        }
        assert(before + blocks[i as int] =~= edit_views(out@));
        i = i + 1;
    }
    proof {
        lemma_flat_all(blocks);
    }
    out
}

fn citation_line_edits(line: &str, idx: usize, old: &SpecId, new_name: &str) -> (r: Vec<TextEditData>)
    ensures
        edit_views(r@) == line_citation_edits(line@, idx as int, old@, new_name@),
{
    let cs = find_citations_in_line(line);
    assert(cites_of(cs@, line@));
    let ghost lc = line_cites(line@);
    let ghost blocks = Seq::new(
        lc.len(),
        |k: int|
            if lc[k].0 == old@ {
                seq![(byte_span(sat32(idx as int), lc[k].1, lc[k].2), new_name@)]
            } else {
                Seq::empty()
            },
    );
    let mut out: Vec<TextEditData> = Vec::new();
    let mut k: usize = 0;
    while k < cs.len()
        invariant
            0 <= k <= cs@.len(),
            cites_of(cs@, line@),
            lc == line_cites(line@),
            blocks == Seq::new(
                lc.len(),
                |k: int|
                    if lc[k].0 == old@ {
                        seq![(byte_span(sat32(idx as int), lc[k].1, lc[k].2), new_name@)]
                    } else {
                        Seq::empty()
                    },
            ),
            edit_views(out@) == flat(blocks.take(k as int)),
        decreases cs@.len() - k,
    {
        proof {
            lemma_flat_take(blocks, k as int);
        }
        let ghost before = edit_views(out@);
        if cs[k].id.same(old) {
            let e = TextEditData {
                range: byte_range_to_lsp_range(saturate_u32(idx), cs[k].byte_range.start, cs[k].byte_range.end),
                new_text: new_name.to_owned(),
            };
            out.push(e);
            assert(edit_views(out@) =~= before.push(edit_view(e)));
        }
        assert(before + blocks[k as int] =~= edit_views(out@));
        k = k + 1;
    }
    proof {
        lemma_flat_all(blocks);
    }
    out
}

fn citation_edits_exec(content: &str, old: &SpecId, new_name: &str) -> (r: Vec<TextEditData>)
    ensures
        edit_views(r@) == citation_edits(content@, old@, new_name@),
{
    let lines = content_lines(content);
    let ghost ls = lines_of(content@);
    let ghost blocks = Seq::new(ls.len(), |i: int| line_citation_edits(ls[i], i, old@, new_name@));
    let mut out: Vec<TextEditData> = Vec::new();
    let mut i: usize = 0;
    while i < lines.len()
        invariant
            0 <= i <= lines@.len(),
            ls == lines_of(content@),
            lines@.len() == ls.len(),
            forall|j: int| 0 <= j < lines@.len() ==> (#[trigger] lines@[j])@ == ls[j],
            blocks == Seq::new(ls.len(), |i: int| line_citation_edits(ls[i], i, old@, new_name@)),
            edit_views(out@) == flat(blocks.take(i as int)),
        decreases lines@.len() - i,
    {
        proof {
            lemma_flat_take(blocks, i as int);
        }
        let ghost before = edit_views(out@);
        let mut more = citation_line_edits(lines[i].as_str(), i, old, new_name);
        out.append(&mut more);
        assert(before + blocks[i as int] =~= edit_views(out@));
        i = i + 1;
    }
    proof {
        lemma_flat_all(blocks);
    }
    out
}

fn clone_edits(es: &Vec<TextEditData>) -> (r: Vec<TextEditData>)
    ensures
        edit_views(r@) == edit_views(es@),
{
    let mut out: Vec<TextEditData> = Vec::new();
    let mut k: usize = 0;
    while k < es.len()
        invariant
            0 <= k <= es@.len(),
            edit_views(out@) == edit_views(es@.take(k as int)),
        decreases es@.len() - k,
    {
        let ghost before = edit_views(out@);
        let e = TextEditData { range: es[k].range, new_text: es[k].new_text.clone() };
        assert(edit_view(e) == edit_view(es@[k as int]));
        out.push(e);
        assert(edit_views(out@) =~= before.push(edit_view(e)));
        assert(es@.take(k + 1) =~= es@.take(k as int).push(es@[k as int]));
        assert(edit_views(es@.take(k + 1)) =~= edit_views(es@.take(k as int)).push(edit_view(es@[k as int])));
        k = k + 1;
    }
    assert(es@.take(k as int) =~= es@);
    out
}

/// Add `edits` under `uri`.
fn merge_edits(m: &mut Vec<FileEdits>, uri: &str, edits: Vec<TextEditData>)
    ensures
        changes_view(final(m)@) == merge_in(changes_view(old(m)@), uri@, edit_views(edits@)),
{
    if edits.len() == 0 {
        return;
    }
    let ghost mv = changes_view(m@);
    let mut k: usize = 0;
    while k < m.len() && !str_eq(m[k].uri.as_str(), uri)
        invariant
            0 <= k <= m@.len(),
            mv == changes_view(m@),
            forall|q: int| 0 <= q < k ==> mv[q].0 != uri@,
        decreases m@.len() - k,
    {
        k = k + 1;
    }
    let found: Option<usize> = if k < m.len() {
        Some(k)
    } else {
        None
    };
    match found {
        Some(k) => {
            assert(mv[k as int].0 == uri@);
            proof {
                lemma_uri_index_first(mv, uri@, k as int);
            }
            let mut merged = clone_edits(&m[k].edits);
            let ghost ev = edit_views(edits@);
            let mut extra = edits;
            merged.append(&mut extra);
            assert(edit_views(merged@) =~= mv[k as int].1 + ev);
            let entry = FileEdits { uri: uri.to_owned(), edits: merged };
            m.set(k, entry);
            assert(changes_view(m@) =~= mv.update(k as int, (uri@, mv[k as int].1 + ev)));
        },
        None => {
            proof {
                lemma_uri_index_none(mv, uri@);
            }
            let ghost ev = edit_views(edits@);
            m.push(FileEdits { uri: uri.to_owned(), edits });
            assert(changes_view(m@) =~= mv.push((uri@, ev)));
        },
    }
}

proof fn lemma_uri_index(m: Seq<(Seq<char>, Seq<(Span, Seq<char>)>)>, uri: Seq<char>)
    ensures
        -1 <= uri_index(m, uri) < m.len(),
        uri_index(m, uri) != -1 ==> m[uri_index(m, uri)].0 == uri,
        uri_index(m, uri) == -1 ==> forall|q: int| 0 <= q < m.len() ==> m[q].0 != uri,
    decreases m.len(),
{
    if m.len() > 0 {
        lemma_uri_index(m.drop_last(), uri);
        assert forall|q: int| 0 <= q < m.len() - 1 implies m[q] == m.drop_last()[q] by {}
    }
}

/// Every edit writes `new_name`, no document has an empty list of edits,
/// and no document is listed twice.
pub open spec fn well_formed_changes(m: Seq<(Seq<char>, Seq<(Span, Seq<char>)>)>, new_name: Seq<char>) -> bool {
    &&& forall|q: int, j: int| 0 <= q < m.len() && 0 <= j < m[q].1.len() ==> (#[trigger] m[q].1[j]).1 == new_name
    &&& forall|q: int| 0 <= q < m.len() ==> (#[trigger] m[q].1).len() > 0
    &&& forall|q1: int, q2: int| 0 <= q1 < q2 < m.len() ==> (#[trigger] m[q1]).0 != (#[trigger] m[q2]).0
}

proof fn lemma_flat_writes<A>(s: Seq<Seq<(A, Seq<char>)>>, n: Seq<char>)
    requires
        forall|i: int, j: int| 0 <= i < s.len() && 0 <= j < s[i].len() ==> (#[trigger] s[i][j]).1 == n,
    ensures
        forall|j: int| 0 <= j < flat(s).len() ==> (#[trigger] flat(s)[j]).1 == n,
    decreases s.len(),
{
    if s.len() > 0 {
        lemma_flat_writes(s.drop_last(), n);
        let a = flat(s.drop_last());
        assert forall|j: int| 0 <= j < flat(s).len() implies (#[trigger] flat(s)[j]).1 == n by {
            if j < a.len() {
                assert(flat(s)[j] == a[j]);
            } else {
                assert(flat(s)[j] == s.last()[j - a.len()]);
                assert(s[s.len() - 1][j - a.len()] == s.last()[j - a.len()]);
            }
        }
    }
}

proof fn lemma_definition_edits_write(content: Seq<char>, old: Seq<char>, n: Seq<char>)
    ensures
        forall|j: int| 0 <= j < definition_edits(content, old, n).len() ==> (#[trigger] definition_edits(content, old, n)[j]).1 == n,
{
    let ls = lines_of(content);
    let blocks = Seq::new(
        ls.len(),
        |i: int|
            if is_spec_line(ls[i]) && spec_line_id(ls[i]) == old {
                seq![(byte_span(sat32(i), def_start(ls[i]), def_end(ls[i])), n)]
            } else {
                Seq::empty()
            },
    );
    lemma_flat_writes(blocks, n);
}

proof fn lemma_line_citation_edits_write(line: Seq<char>, i: int, old: Seq<char>, new_name: Seq<char>)
    ensures
        forall|j: int| 0 <= j < line_citation_edits(line, i, old, new_name).len() ==> (#[trigger] line_citation_edits(line, i, old, new_name)[j]).1 == new_name,
{
    lemma_flat_writes(line_citation_blocks(line_cites(line), i, old, new_name), new_name);
}

proof fn lemma_citation_edits_write(content: Seq<char>, old: Seq<char>, new_name: Seq<char>)
    ensures
        forall|j: int| 0 <= j < citation_edits(content, old, new_name).len() ==> (#[trigger] citation_edits(content, old, new_name)[j]).1 == new_name,
{
    let ls = lines_of(content);
    let blocks = Seq::new(ls.len(), |i: int| line_citation_edits(ls[i], i, old, new_name));
    assert forall|i: int, j: int| 0 <= i < blocks.len() && 0 <= j < blocks[i].len() implies (#[trigger] blocks[i][j]).1 == new_name by {
        lemma_line_citation_edits_write(ls[i], i, old, new_name);
    }
    lemma_flat_writes(blocks, new_name);
}

proof fn lemma_merge_in_well_formed(
    m: Seq<(Seq<char>, Seq<(Span, Seq<char>)>)>,
    uri: Seq<char>,
    edits: Seq<(Span, Seq<char>)>,
    n: Seq<char>,
)
    requires
        well_formed_changes(m, n),
        forall|j: int| 0 <= j < edits.len() ==> (#[trigger] edits[j]).1 == n,
    ensures
        well_formed_changes(merge_in(m, uri, edits), n),
{
    if edits.len() > 0 {
        lemma_uri_index(m, uri);
        let k = uri_index(m, uri);
        let r = merge_in(m, uri, edits);
        if k == -1 {
            assert forall|q: int, j: int| 0 <= q < r.len() && 0 <= j < r[q].1.len() implies (#[trigger] r[q].1[j]).1 == n by {
                if q < m.len() {
                    assert(r[q] == m[q]);
                }
            }
            assert forall|q1: int, q2: int| 0 <= q1 < q2 < r.len() implies (#[trigger] r[q1]).0 != (#[trigger] r[q2]).0 by {
                if q2 < m.len() {
                    assert(r[q1] == m[q1] && r[q2] == m[q2]);
                } else {
                    assert(r[q1] == m[q1]);
                }
            }
        } else {
            assert forall|q: int, j: int| 0 <= q < r.len() && 0 <= j < r[q].1.len() implies (#[trigger] r[q].1[j]).1 == n by {
                if q != k {
                    assert(r[q] == m[q]);
                } else {
                    assert(r[q].1 == m[k].1 + edits);
                    if j < m[k].1.len() {
                        assert(r[q].1[j] == m[k].1[j]);
                    } else {
                        assert(r[q].1[j] == edits[j - m[k].1.len()]);
                    }
                }
            }
            assert forall|q: int| 0 <= q < r.len() implies (#[trigger] r[q].1).len() > 0 by {
                if q != k {
                    assert(r[q] == m[q]);
                }
            }
            assert forall|q1: int, q2: int| 0 <= q1 < q2 < r.len() implies (#[trigger] r[q1]).0 != (#[trigger] r[q2]).0 by {
                assert(r[q1].0 == m[q1].0 && r[q2].0 == m[q2].0);
            }
        }
    }
}

/// A rename's edits write the new name and nothing else, list no document
/// without edits, and list each document once.
pub proof fn law_rename_edits_write_new_name(
    old: Seq<char>,
    new_name: Seq<char>,
    spec_reads: Seq<Option<(Seq<char>, Seq<char>)>>,
    cite_reads: Seq<Option<(Seq<char>, Seq<char>)>>,
)
    ensures
        well_formed_changes(rename_changes(old, new_name, spec_reads, cite_reads), new_name),
    decreases spec_reads.len() + cite_reads.len(),
{
    if cite_reads.len() > 0 {
        law_rename_edits_write_new_name(old, new_name, spec_reads, cite_reads.drop_last());
        let m = rename_changes(old, new_name, spec_reads, cite_reads.drop_last());
        match cite_reads.last() {
            Some((u, c)) => {
                lemma_citation_edits_write(c, old, new_name);
                lemma_merge_in_well_formed(m, u, citation_edits(c, old, new_name), new_name);
            },
            None => {},
        }
    } else if spec_reads.len() > 0 {
        law_rename_edits_write_new_name(old, new_name, spec_reads.drop_last(), cite_reads);
        let m = rename_changes(old, new_name, spec_reads.drop_last(), cite_reads);
        match spec_reads.last() {
            Some((u, c)) => {
                lemma_definition_edits_write(c, old, new_name);
                lemma_merge_in_well_formed(m, u, definition_edits(c, old, new_name), new_name);
            },
            None => {},
        }
    }
}

proof fn lemma_uri_index_first(m: Seq<(Seq<char>, Seq<(Span, Seq<char>)>)>, uri: Seq<char>, k: int)
    requires
        0 <= k < m.len(),
        m[k].0 == uri,
        forall|q: int| 0 <= q < k ==> m[q].0 != uri,
    ensures
        uri_index(m, uri) == k,
    decreases m.len(),
{
    if k < m.len() - 1 {
        lemma_uri_index_first(m.drop_last(), uri, k);
    } else {
        lemma_uri_index_none(m.drop_last(), uri);
    }
}

proof fn lemma_uri_index_none(m: Seq<(Seq<char>, Seq<(Span, Seq<char>)>)>, uri: Seq<char>)
    requires
        forall|q: int| 0 <= q < m.len() ==> m[q].0 != uri,
    ensures
        uri_index(m, uri) == -1,
    decreases m.len(),
{
    if m.len() > 0 {
        lemma_uri_index_none(m.drop_last(), uri);
    }
}

/// The read views.
pub open spec fn read_views(rs: Seq<Option<(String, String)>>) -> Seq<Option<(Seq<char>, Seq<char>)>> {
    rs.map_values(|r: Option<(String, String)>| read_view(r))
}

/// The edits of `plan`, given the `(uri, text)` read for each of its
/// defining files and each of its citing files (`None` where unreadable).
pub fn rename_edits(
    plan: &RenamePlan,
    spec_reads: &Vec<Option<(String, String)>>,
    cite_reads: &Vec<Option<(String, String)>>,
) -> (r: Vec<FileEdits>)
    ensures
        changes_view(r@) == rename_changes(
            plan.old_id@,
            plan.new_id@,
            read_views(spec_reads@),
            read_views(cite_reads@),
        ),
{
    let new_name = plan.new_id.as_str();
    let ghost sr = read_views(spec_reads@);
    let ghost cr = read_views(cite_reads@);
    let mut out: Vec<FileEdits> = Vec::new();
    let mut i: usize = 0;
    while i < spec_reads.len()
        invariant
            0 <= i <= spec_reads@.len(),
            new_name@ == plan.new_id@,
            sr == read_views(spec_reads@),
            changes_view(out@) == rename_changes(plan.old_id@, plan.new_id@, sr.take(i as int), Seq::empty()),
        decreases spec_reads@.len() - i,
    {
        proof {
            assert(sr.take(i + 1).drop_last() =~= sr.take(i as int));
        }
        match &spec_reads[i] {
            Some((u, c)) => {
                let es = definition_edits_exec(c.as_str(), &plan.old_id, new_name);
                merge_edits(&mut out, u.as_str(), es);
            },
            None => {},
        }
        i = i + 1;
    }
    assert(sr.take(i as int) =~= sr);
    assert(cr.take(0) =~= Seq::<Option<(Seq<char>, Seq<char>)>>::empty());
    let mut k: usize = 0;
    while k < cite_reads.len()
        invariant
            0 <= k <= cite_reads@.len(),
            new_name@ == plan.new_id@,
            sr == read_views(spec_reads@),
            cr == read_views(cite_reads@),
            changes_view(out@) == rename_changes(plan.old_id@, plan.new_id@, sr, cr.take(k as int)),
        decreases cite_reads@.len() - k,
    {
        proof {
            assert(cr.take(k + 1).drop_last() =~= cr.take(k as int));
        }
        match &cite_reads[k] {
            Some((u, c)) => {
                let es = citation_edits_exec(c.as_str(), &plan.old_id, new_name);
                merge_edits(&mut out, u.as_str(), es);
            },
            None => {},
        }
        k = k + 1;
    }
    assert(cr.take(k as int) =~= cr);
    out
}

} // verus!
