//! Resolving the path an arrow-doc reference bullet names.
//!
//! Bullets are kept verbatim by the parser. A bullet names a path in one
//! of two ways: its first inline code span (`` `docs/x.md` — prose``), or,
//! when it does not start with a code span, its first word, which ends at
//! white space or a `§` section anchor (`docs/hld.md §Auth`). The named
//! text counts as a path when it is non-empty, holds no white space, and
//! holds a `/` or a `.`; prose bullets name no path. A relative path is
//! resolved against the project root.

use vstd::prelude::*;

use crate::paths::{join, join_path};
use crate::text::{char_is_ws, chars_of, is_ws, string_of, trim, trim_range};

verus! {

/// First index at or after `i` holding a backtick; `t.len()` when none.
pub open spec fn tick_end(t: Seq<char>, i: int) -> int
    decreases t.len() - i,
{
    if i >= t.len() || i < 0 {
        t.len() as int
    } else if t[i] == '`' {
        i
    } else {
        tick_end(t, i + 1)
    }
}

/// First index at or after `i` holding white space or `§`; `t.len()` when none.
pub open spec fn word_end(t: Seq<char>, i: int) -> int
    decreases t.len() - i,
{
    if i >= t.len() || i < 0 {
        t.len() as int
    } else if is_ws(t[i]) || t[i] == '§' {
        i
    } else {
        word_end(t, i + 1)
    }
}

/// Non-empty, free of white space, and holding a `/` or a `.`.
pub open spec fn path_shaped(c: Seq<char>) -> bool {
    &&& c.len() > 0
    &&& forall|k: int| 0 <= k < c.len() ==> !is_ws(#[trigger] c[k])
    &&& exists|k: int| 0 <= k < c.len() && ((#[trigger] c[k]) == '/' || c[k] == '.')
}

/// The path text a reference bullet names, if any.
pub open spec fn arrow_ref_path(raw: Seq<char>) -> Option<Seq<char>> {
    let t = trim(raw);
    if t.len() == 0 {
        None
    } else if t[0] == '`' {
        let e = tick_end(t, 1);
        if e >= t.len() || !path_shaped(t.subrange(1, e)) {
            None
        } else {
            Some(t.subrange(1, e))
        }
    } else {
        let c = t.take(word_end(t, 0));
        if path_shaped(c) {
            Some(c)
        } else {
            None
        }
    }
}

/// The absolute path a reference bullet names, resolved against `root`.
pub open spec fn resolved_ref(root: Seq<char>, raw: Seq<char>) -> Option<Seq<char>> {
    match arrow_ref_path(raw) {
        Some(p) => Some(join_path(root, p)),
        None => None,
    }
}

fn is_path_shaped(v: &Vec<char>, lo: usize, hi: usize) -> (r: bool)
    requires
        lo <= hi <= v@.len(),
    ensures
        r == path_shaped(v@.subrange(lo as int, hi as int)),
{
    let ghost c = v@.subrange(lo as int, hi as int);
    if lo == hi {
        return false;
    }
    let mut sep = false;
    let mut k = lo;
    while k < hi
        invariant
            lo <= k <= hi <= v@.len(),
            c == v@.subrange(lo as int, hi as int),
            forall|q: int| 0 <= q < k - lo ==> !is_ws(#[trigger] c[q]),
            sep == exists|q: int| 0 <= q < k - lo && ((#[trigger] c[q]) == '/' || c[q] == '.'),
        decreases hi - k,
    {
        if char_is_ws(v[k]) {
            assert(c[k - lo] == v@[k as int]);
            return false;
        }
        if v[k] == '/' || v[k] == '.' {
            assert(c[k - lo] == v@[k as int]);
            sep = true;
        }
        assert(c[k - lo] == v@[k as int]);
        k = k + 1;
    }
    sep
}

/// The path text a reference bullet names, if any.
pub fn arrow_ref_path_exec(raw: &str) -> (r: Option<String>)
    ensures
        r matches Some(p) ==> arrow_ref_path(raw@) == Some(p@),
        r is None ==> arrow_ref_path(raw@) is None,
{
    let v = chars_of(raw);
    let (a, b) = trim_range(&v, 0, v.len());
    assert(v@.subrange(0, v@.len() as int) =~= v@);
    let ghost t = trim(raw@);
    assert(t == v@.subrange(a as int, b as int));
    if a == b {
        return None;
    }
    if v[a] == '`' {
        let mut e = a + 1;
        while e < b && v[e] != '`'
            invariant
                a < e <= b <= v@.len(),
                t == v@.subrange(a as int, b as int),
                tick_end(t, 1) == tick_end(t, e - a),
            decreases b - e,
        {
            e = e + 1;
        }
        if e >= b {
            return None;
        }
        assert(t.subrange(1, e - a) =~= v@.subrange(a + 1, e as int));
        if !is_path_shaped(&v, a + 1, e) {
            return None;
        }
        Some(string_of(&v, a + 1, e))
    } else {
        let mut e = a;
        while e < b && !(char_is_ws(v[e]) || v[e] == '§')
            invariant
                a <= e <= b <= v@.len(),
                t == v@.subrange(a as int, b as int),
                word_end(t, 0) == word_end(t, e - a),
            decreases b - e,
        {
            e = e + 1;
        }
        assert(t.take(e - a) =~= v@.subrange(a as int, e as int));
        if !is_path_shaped(&v, a, e) {
            return None;
        }
        Some(string_of(&v, a, e))
    }
}

/// The absolute path a reference bullet names, resolved against `root`;
/// `None` for an empty or prose-only bullet.
pub fn resolve_arrow_ref(root: &str, raw: &str) -> (r: Option<String>)
    ensures
        r matches Some(p) ==> resolved_ref(root@, raw@) == Some(p@),
        r is None ==> resolved_ref(root@, raw@) is None,
{
    match arrow_ref_path_exec(raw) {
        Some(p) => Some(join(root, p.as_str())),
        None => None,
    }
}

} // verus!
