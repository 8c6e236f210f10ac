//! Paths held as `/`-separated strings.
//!
//! A path is absolute when it starts with `/`; its components are the
//! pieces between separators, leaving out empty pieces and `.`. Two paths
//! name the same place when they agree on absoluteness and components.

use vstd::prelude::*;

use crate::text::{chars_of, push_char, string_of};

verus! {

/// A piece that counts as a component: non-empty and not `.`.
pub open spec fn is_normal_piece(s: Seq<char>) -> bool {
    s.len() > 0 && s != seq!['.']
}

/// The components of `rest`, given the current piece so far is `cur`.
pub open spec fn comps_acc(rest: Seq<char>, cur: Seq<char>) -> Seq<Seq<char>>
    decreases rest.len(),
{
    if rest.len() == 0 {
        if is_normal_piece(cur) {
            seq![cur]
        } else {
            Seq::empty()
        }
    } else if rest[0] == '/' {
        (if is_normal_piece(cur) {
            seq![cur]
        } else {
            Seq::empty()
        }) + comps_acc(rest.drop_first(), Seq::empty())
    } else {
        comps_acc(rest.drop_first(), cur.push(rest[0]))
    }
}

/// The components of path `p`.
pub open spec fn components(p: Seq<char>) -> Seq<Seq<char>> {
    comps_acc(p, Seq::empty())
}

/// `p` starts at the root.
pub open spec fn is_absolute(p: Seq<char>) -> bool {
    p.len() > 0 && p[0] == '/'
}

/// The pieces of `parts` separated by `sep`.
pub open spec fn join_with(parts: Seq<Seq<char>>, sep: char) -> Seq<char>
    decreases parts.len(),
{
    if parts.len() == 0 {
        Seq::empty()
    } else if parts.len() == 1 {
        parts[0]
    } else {
        join_with(parts.drop_last(), sep).push(sep) + parts.last()
    }
}

/// Two paths name the same place.
pub open spec fn same_path(a: Seq<char>, b: Seq<char>) -> bool {
    is_absolute(a) == is_absolute(b) && components(a) == components(b)
}

/// `rel` appended to `base` (`Path::join`): an absolute `rel` replaces `base`.
pub open spec fn join_path(base: Seq<char>, rel: Seq<char>) -> Seq<char> {
    if is_absolute(rel) || base.len() == 0 {
        rel
    } else if base.last() == '/' {
        base + rel
    } else {
        base.push('/') + rel
    }
}

/// `p` with `base` removed from its front, component-wise, as the
/// remaining components joined by `/`; `None` unless `base` is a prefix.
pub open spec fn strip_prefix(p: Seq<char>, base: Seq<char>) -> Option<Seq<char>> {
    let pc = components(p);
    let bc = components(base);
    if is_absolute(p) == is_absolute(base) && bc.len() <= pc.len() && pc.take(bc.len() as int) == bc {
        Some(join_with(pc.skip(bc.len() as int), '/'))
    } else {
        None
    }
}

/// `p` shown relative to `root` when it lies under it, else as is.
pub open spec fn relative_to(p: Seq<char>, root: Seq<char>) -> Seq<char> {
    match strip_prefix(p, root) {
        Some(r) => r,
        None => p,
    }
}

/// The final component, unless the path is empty or ends in `..`.
pub open spec fn file_name(p: Seq<char>) -> Option<Seq<char>> {
    let c = components(p);
    if c.len() == 0 || c.last() == seq!['.', '.'] {
        None
    } else {
        Some(c.last())
    }
}

/// Index of the last `.` in `s`, or -1.
pub open spec fn last_dot(s: Seq<char>) -> int
    decreases s.len(),
{
    if s.len() == 0 {
        -1
    } else if s.last() == '.' {
        s.len() - 1
    } else {
        last_dot(s.drop_last())
    }
}

/// The text after the last `.` of the file name (`Path::extension`): none
/// when the name has no `.`, when its only `.` leads, or when it is `..`.
pub open spec fn extension(p: Seq<char>) -> Option<Seq<char>> {
    match file_name(p) {
        Some(n) => if last_dot(n) <= 0 {
            None
        } else {
            Some(n.skip(last_dot(n) + 1))
        },
        None => None,
    }
}

/// The file name of `p`'s parent directory (`p.parent()?.file_name()`),
/// empty when there is none.
pub open spec fn parent_name(p: Seq<char>) -> Seq<char> {
    let c = components(p);
    if c.len() >= 2 && c[c.len() - 2] != seq!['.', '.'] {
        c[c.len() - 2]
    } else {
        Seq::empty()
    }
}

/// The name of the directory that holds `p`; empty when there is none.
pub fn path_parent_name(p: &str) -> (r: String)
    ensures
        r@ == parent_name(p@),
{
    let c = path_components(p);
    let n = c.len();
    if n >= 2 {
        let v = chars_of(c[n - 2].as_str());
        if !(v.len() == 2 && v[0] == '.' && v[1] == '.') {
            return c[n - 2].clone();
        }
        assert(v@ =~= seq!['.', '.']);
    }
    String::new()
}

/// Walk `cs`, popping the last kept component at each `..`; a `..` with
/// nothing left to pop removes the root. Returns absoluteness and the kept
/// components.
pub open spec fn norm_acc(cs: Seq<Seq<char>>, abs: bool, kept: Seq<Seq<char>>) -> (bool, Seq<Seq<char>>)
    decreases cs.len(),
{
    if cs.len() == 0 {
        (abs, kept)
    } else if cs[0] == seq!['.', '.'] {
        if kept.len() > 0 {
            norm_acc(cs.drop_first(), abs, kept.drop_last())
        } else {
            norm_acc(cs.drop_first(), false, kept)
        }
    } else {
        norm_acc(cs.drop_first(), abs, kept.push(cs[0]))
    }
}

/// `p` with `.` and `..` components resolved lexically, without looking at
/// the file system.
pub open spec fn normalized(p: Seq<char>) -> Seq<char> {
    let (a, kept) = norm_acc(components(p), is_absolute(p), Seq::empty());
    if a {
        seq!['/'] + join_with(kept, '/')
    } else {
        join_with(kept, '/')
    }
}

/// Resolve `..` and `.` components in `p` without touching the filesystem.
pub fn normalize_path(p: &str) -> (r: String)
    ensures
        r@ == normalized(p@),
{
    let cs = path_components(p);
    let ghost c = components(p@);
    let mut abs = path_is_absolute(p);
    let mut kept: Vec<String> = Vec::new();
    let mut k: usize = 0;
    assert(c.skip(0) =~= c);
    assert(kept@.map_values(|s: String| s@) =~= Seq::<Seq<char>>::empty());
    while k < cs.len()
        invariant
            cs@.len() == c.len(),
            forall|j: int| 0 <= j < cs@.len() ==> (#[trigger] cs@[j])@ == c[j],
            0 <= k <= cs@.len(),
            norm_acc(c, is_absolute(p@), Seq::empty()) == norm_acc(
                c.skip(k as int),
                abs,
                kept@.map_values(|s: String| s@),
            ),
        decreases cs@.len() - k,
    {
        let v = chars_of(cs[k].as_str());
        assert(c.skip(k as int).drop_first() =~= c.skip(k + 1));
        assert(c.skip(k as int)[0] == c[k as int]);
        if v.len() == 2 && v[0] == '.' && v[1] == '.' {
            assert(v@ =~= seq!['.', '.']);
            if kept.len() > 0 {
                let ghost before = kept@;
                kept.pop();
                assert(kept@.map_values(|s: String| s@) =~= before.map_values(|s: String| s@).drop_last());
            } else {
                abs = false;
            }
        } else {
            let ghost before = kept@;
            kept.push(cs[k].clone());
            assert(kept@.map_values(|s: String| s@) =~= before.map_values(|s: String| s@).push(c[k as int]));
        }
        k = k + 1;
    }
    assert(c.skip(k as int) =~= Seq::<Seq<char>>::empty());
    let body = join_strings(&kept, 0, '/');
    assert(kept@.skip(0) =~= kept@);
    if abs {
        let mut out = String::from_str("/");
        proof {
            reveal_strlit("/");
        }
        out.append(body.as_str());
        assert(out@ =~= seq!['/'] + body@);
        out
    } else {
        body
    }
}

/// Some component of `p` equals `name`.
pub open spec fn has_component(p: Seq<char>, name: Seq<char>) -> bool {
    components(p).contains(name)
}

proof fn lemma_normal_piece(cur: Seq<char>)
    ensures
        is_normal_piece(cur) == (cur.len() > 0 && !(cur.len() == 1 && cur[0] == '.')),
{
    if cur.len() == 1 {
        if cur[0] == '.' {
            assert(cur =~= seq!['.']);
        } else {
            assert(cur[0] != seq!['.'][0]);
        }
    } else {
        assert(cur.len() != seq!['.'].len());
    }
}

/// Spans of the components of `v`.
fn component_spans(v: &Vec<char>) -> (r: Vec<(usize, usize)>)
    ensures
        r@.len() == components(v@).len(),
        forall|k: int|
            0 <= k < r@.len() ==> (#[trigger] r@[k]).0 <= r@[k].1 <= v@.len() && v@.subrange(
                r@[k].0 as int,
                r@[k].1 as int,
            ) == components(v@)[k],
{
    let mut out: Vec<(usize, usize)> = Vec::new();
    let ghost mut done: Seq<Seq<char>> = Seq::empty();
    let mut start: usize = 0;
    let mut i: usize = 0;
    let n = v.len();
    assert(v@.skip(0) =~= v@);
    assert(v@.subrange(0, 0) =~= Seq::<char>::empty());
    assert(done + comps_acc(v@.skip(0), v@.subrange(0, 0)) =~= components(v@));
    while i < n
        invariant
            n == v@.len(),
            0 <= start <= i <= n,
            out@.len() == done.len(),
            forall|k: int|
                0 <= k < out@.len() ==> (#[trigger] out@[k]).0 <= out@[k].1 <= v@.len()
                    && v@.subrange(out@[k].0 as int, out@[k].1 as int) == done[k],
            components(v@) == done + comps_acc(v@.skip(i as int), v@.subrange(start as int, i as int)),
        decreases n - i,
    {
        let ghost rest = v@.skip(i as int);
        let ghost cur = v@.subrange(start as int, i as int);
        assert(rest.drop_first() =~= v@.skip(i + 1));
        if v[i] == '/' {
            let normal = i > start && !(i == start + 1 && v[start] == '.');
            assert(normal == is_normal_piece(cur)) by {
                lemma_normal_piece(cur);
            }
            let ghost old_out = out@;
            let ghost old_done = done;
            if normal {
                out.push((start, i));
                proof {
                    done = done.push(cur);
                }
            }
            proof {
                assert(v@.subrange((i + 1) as int, (i + 1) as int) =~= Seq::<char>::empty());
                let head: Seq<Seq<char>> = if is_normal_piece(cur) {
                    seq![cur]
                } else {
                    Seq::empty()
                };
                assert(comps_acc(rest, cur) == head + comps_acc(rest.drop_first(), Seq::empty()));
                assert(old_done + (head + comps_acc(rest.drop_first(), Seq::empty())) =~= done
                    + comps_acc(rest.drop_first(), Seq::empty()));
                assert forall|k: int| 0 <= k < out@.len() implies (#[trigger] out@[k]).0 <= out@[k].1
                    <= v@.len() && v@.subrange(out@[k].0 as int, out@[k].1 as int) == done[k] by {
                    if k < old_out.len() {
                        assert(out@[k] == old_out[k]);
                        assert(done[k] == old_done[k]);
                    }
                }
            }
            start = i + 1;
        } else {
            assert(cur.push(rest[0]) =~= v@.subrange(start as int, i + 1));
        }
        i = i + 1;
    }
    let ghost cur = v@.subrange(start as int, n as int);
    assert(v@.skip(n as int) =~= Seq::<char>::empty());
    let normal = n > start && !(n == start + 1 && v[start] == '.');
    assert(normal == is_normal_piece(cur)) by {
        lemma_normal_piece(cur);
    }
    let ghost old_out = out@;
    let ghost old_done = done;
    if normal {
        out.push((start, n));
        proof {
            done = done.push(cur);
        }
    }
    proof {
        assert(components(v@) =~= done);
        assert forall|k: int| 0 <= k < out@.len() implies (#[trigger] out@[k]).0 <= out@[k].1
            <= v@.len() && v@.subrange(out@[k].0 as int, out@[k].1 as int) == components(v@)[k] by {
            if k < old_out.len() {
                assert(out@[k] == old_out[k]);
                assert(done[k] == old_done[k]);
            }
        }
    }
    out
}

/// The components of a path, as strings.
pub fn path_components(p: &str) -> (r: Vec<String>)
    ensures
        r@.len() == components(p@).len(),
        forall|k: int| 0 <= k < r@.len() ==> (#[trigger] r@[k])@ == components(p@)[k],
{
    let v = chars_of(p);
    let spans = component_spans(&v);
    let mut out: Vec<String> = Vec::new();
    let mut k: usize = 0;
    while k < spans.len()
        invariant
            v@ == p@,
            spans@.len() == components(v@).len(),
            forall|j: int|
                0 <= j < spans@.len() ==> (#[trigger] spans@[j]).0 <= spans@[j].1 <= v@.len()
                    && v@.subrange(spans@[j].0 as int, spans@[j].1 as int) == components(v@)[j],
            0 <= k <= spans@.len(),
            out@.len() == k,
            forall|j: int| 0 <= j < k ==> (#[trigger] out@[j])@ == components(p@)[j],
        decreases spans@.len() - k,
    {
        let (a, b) = spans[k];
        let s = string_of(&v, a, b);
        out.push(s);
        k = k + 1;
    }
    out
}

/// Whether `p` starts at the root.
pub fn path_is_absolute(p: &str) -> (r: bool)
    ensures
        r == is_absolute(p@),
{
    let v = chars_of(p);
    v.len() > 0 && v[0] == '/'
}

/// `parts` joined by `sep`.
pub fn join_strings(parts: &Vec<String>, lo: usize, sep: char) -> (r: String)
    requires
        lo <= parts@.len(),
    ensures
        r@ == join_with(parts@.skip(lo as int).map_values(|s: String| s@), sep),
{
    let ghost all = parts@.skip(lo as int).map_values(|s: String| s@);
    let mut out = String::new();
    let mut k = lo;
    assert(all.take(0) =~= Seq::<Seq<char>>::empty());
    while k < parts.len()
        invariant
            lo <= k <= parts@.len(),
            all == parts@.skip(lo as int).map_values(|s: String| s@),
            out@ == join_with(all.take(k - lo), sep),
        decreases parts@.len() - k,
    {
        assert(all.take(k - lo + 1).drop_last() =~= all.take(k - lo));
        assert(all[k - lo] == parts@[k as int]@);
        if k > lo {
            push_char(&mut out, sep);
        } else {
            assert(all.take(1) =~= seq![all[0]]);
        }
        out.append(parts[k].as_str());
        k = k + 1;
    }
    assert(all.take(parts@.len() - lo) =~= all);
    out
}

/// `rel` appended to `base` (`Path::join`).
pub fn join(base: &str, rel: &str) -> (r: String)
    ensures
        r@ == join_path(base@, rel@),
{
    let b = chars_of(base);
    if path_is_absolute(rel) || b.len() == 0 {
        return rel.to_owned();
    }
    let mut s = base.to_owned();
    if b[b.len() - 1] != '/' {
        push_char(&mut s, '/');
    }
    s.append(rel);
    s
}

/// Component sequences compare equal.
fn comps_eq(a: &Vec<String>, b: &Vec<String>, n: usize) -> (r: bool)
    requires
        n <= a@.len(),
        n <= b@.len(),
    ensures
        r == (a@.take(n as int).map_values(|s: String| s@) == b@.take(n as int).map_values(
            |s: String| s@,
        )),
{
    let mut i: usize = 0;
    while i < n
        invariant
            n <= a@.len(),
            n <= b@.len(),
            0 <= i <= n,
            forall|j: int| 0 <= j < i ==> (#[trigger] a@[j])@ == b@[j]@,
        decreases n - i,
    {
        if a[i] != b[i] {
            assert(a@.take(n as int).map_values(|s: String| s@)[i as int] != b@.take(
                n as int,
            ).map_values(|s: String| s@)[i as int]);
            return false;
        }
        i = i + 1;
    }
    assert(a@.take(n as int).map_values(|s: String| s@) =~= b@.take(n as int).map_values(
        |s: String| s@,
    ));
    true
}

proof fn lemma_comps_view(r: Seq<String>, c: Seq<Seq<char>>)
    requires
        r.len() == c.len(),
        forall|k: int| 0 <= k < r.len() ==> (#[trigger] r[k])@ == c[k],
    ensures
        r.map_values(|s: String| s@) == c,
{
    assert(r.map_values(|s: String| s@) =~= c);
}

/// `p` with `base` removed from its front, component-wise.
pub fn path_strip_prefix(p: &str, base: &str) -> (r: Option<String>)
    ensures
        r matches Some(s) ==> strip_prefix(p@, base@) == Some(s@),
        r is None ==> strip_prefix(p@, base@) is None,
{
    let pc = path_components(p);
    let bc = path_components(base);
    proof {
        lemma_comps_view(pc@, components(p@));
        lemma_comps_view(bc@, components(base@));
    }
    if path_is_absolute(p) != path_is_absolute(base) || bc.len() > pc.len() {
        return None;
    }
    assert(bc@.take(bc@.len() as int) =~= bc@);
    assert(pc@.take(bc@.len() as int).map_values(|s: String| s@) =~= components(p@).take(
        bc@.len() as int,
    ));
    if !comps_eq(&pc, &bc, bc.len()) {
        return None;
    }
    let rest = join_strings(&pc, bc.len(), '/');
    assert(pc@.skip(bc@.len() as int).map_values(|s: String| s@) =~= components(p@).skip(
        bc@.len() as int,
    ));
    Some(rest)
}

/// `p` shown relative to `root` when it lies under it, else as is.
pub fn display_relative(p: &str, root: &str) -> (r: String)
    ensures
        r@ == relative_to(p@, root@),
{
    match path_strip_prefix(p, root) {
        Some(s) => s,
        None => p.to_owned(),
    }
}

/// Whether `a` and `b` name the same place.
pub fn path_eq(a: &str, b: &str) -> (r: bool)
    ensures
        r == same_path(a@, b@),
{
    let ac = path_components(a);
    let bc = path_components(b);
    proof {
        lemma_comps_view(ac@, components(a@));
        lemma_comps_view(bc@, components(b@));
    }
    if path_is_absolute(a) != path_is_absolute(b) || ac.len() != bc.len() {
        return false;
    }
    assert(ac@.take(ac@.len() as int) =~= ac@);
    assert(bc@.take(bc@.len() as int) =~= bc@);
    comps_eq(&ac, &bc, ac.len())
}

/// Whether some component of `p` equals `name`.
pub fn path_has_component(p: &str, name: &str) -> (r: bool)
    ensures
        r == has_component(p@, name@),
{
    let pc = path_components(p);
    let mut i: usize = 0;
    while i < pc.len()
        invariant
            pc@.len() == components(p@).len(),
            forall|k: int| 0 <= k < pc@.len() ==> (#[trigger] pc@[k])@ == components(p@)[k],
            0 <= i <= pc@.len(),
            forall|k: int| 0 <= k < i ==> components(p@)[k] != name@,
        decreases pc@.len() - i,
    {
        if crate::text::str_eq(pc[i].as_str(), name) {
            assert(components(p@)[i as int] == name@);
            return true;
        }
        i = i + 1;
    }
    false
}

/// The final component of `p`, unless empty or `..`.
pub fn path_file_name(p: &str) -> (r: Option<String>)
    ensures
        r matches Some(s) ==> file_name(p@) == Some(s@),
        r is None ==> file_name(p@) is None,
{
    let pc = path_components(p);
    if pc.len() == 0 {
        return None;
    }
    let last = pc[pc.len() - 1].clone();
    if crate::text::str_eq(last.as_str(), "..") {
        proof {
            reveal_strlit("..");
            assert(".."@ =~= seq!['.', '.']);
        }
        return None;
    }
    proof {
        reveal_strlit("..");
        assert(".."@ =~= seq!['.', '.']);
    }
    Some(last)
}

/// Index of the last `.` in `v`, or `None`.
fn last_dot_exec(v: &Vec<char>) -> (r: Option<usize>)
    ensures
        r matches Some(i) ==> last_dot(v@) == i && i < v@.len(),
        r is None ==> last_dot(v@) == -1,
{
    let mut i = v.len();
    assert(v@.take(v@.len() as int) =~= v@);
    while i > 0
        invariant
            0 <= i <= v@.len(),
            last_dot(v@) == last_dot(v@.take(i as int)),
        decreases i,
    {
        assert(v@.take(i as int).drop_last() =~= v@.take(i - 1));
        if v[i - 1] == '.' {
            return Some(i - 1);
        }
        i = i - 1;
    }
    assert(v@.take(0) =~= Seq::<char>::empty());
    None
}

/// The file name's text after its last `.` (`Path::extension`).
pub fn path_extension(p: &str) -> (r: Option<String>)
    ensures
        r matches Some(s) ==> extension(p@) == Some(s@),
        r is None ==> extension(p@) is None,
{
    match path_file_name(p) {
        None => None,
        Some(name) => {
            let v = chars_of(name.as_str());
            match last_dot_exec(&v) {
                None => None,
                Some(i) => {
                    if i == 0 {
                        None
                    } else {
                        let s = string_of(&v, i + 1, v.len());
                        assert(v@.subrange(i + 1, v@.len() as int) =~= v@.skip(i + 1));
                        Some(s)
                    }
                },
            }
        },
    }
}

} // verus!
