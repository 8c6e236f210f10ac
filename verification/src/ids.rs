//! Validated identifier newtypes: [`SpecId`], [`GitSha`] and [`SegmentId`].
//!
//! Each type keeps its string private; the only way to obtain a value is
//! through `parse`, which enforces the lexical shape, so invalid
//! identifiers cannot exist at runtime (stated as a type invariant).

use vstd::prelude::*;

use crate::error::LidError;
use crate::text::{chars_of, is_digit, is_upper};

verus! {

/// A character allowed inside a spec-ID block: `A`..=`Z` or `0`..=`9`.
pub open spec fn is_id_char(c: char) -> bool {
    is_upper(c) || is_digit(c)
}

/// The shape `^[A-Z][A-Z0-9]*(-[A-Z0-9]+)+$`: an uppercase letter first,
/// only uppercase letters, digits and hyphens, at least one hyphen, and
/// every hyphen followed by a non-hyphen.
pub open spec fn spec_id_shape(s: Seq<char>) -> bool {
    &&& s.len() >= 1
    &&& is_upper(s[0])
    &&& forall|i: int| 0 <= i < s.len() ==> is_id_char(#[trigger] s[i]) || s[i] == '-'
    &&& exists|i: int| 0 <= i < s.len() && #[trigger] s[i] == '-'
    &&& forall|i: int| 0 <= i < s.len() && #[trigger] s[i] == '-' ==> i + 1 < s.len() && s[i + 1] != '-'
}

/// At least one ASCII digit occurs in `s`.
pub open spec fn has_digit(s: Seq<char>) -> bool {
    exists|i: int| 0 <= i < s.len() && is_digit(#[trigger] s[i])
}

/// A syntactically valid spec ID: the shape plus at least one digit.
pub open spec fn is_spec_id(s: Seq<char>) -> bool {
    spec_id_shape(s) && has_digit(s)
}

/// Lowercase hexadecimal digit.
pub open spec fn is_lower_hex(c: char) -> bool {
    is_digit(c) || ('a' <= c && c <= 'f')
}

/// 7..=40 lowercase hexadecimal characters.
pub open spec fn is_git_sha(s: Seq<char>) -> bool {
    &&& 7 <= s.len() <= 40
    &&& forall|i: int| 0 <= i < s.len() ==> is_lower_hex(#[trigger] s[i])
}

/// A character allowed in a segment ID block: `a`..=`z` or `0`..=`9`.
pub open spec fn is_kebab_char(c: char) -> bool {
    ('a' <= c && c <= 'z') || is_digit(c)
}

/// Kebab case `^[a-z0-9]+(-[a-z0-9]+)*$`: non-empty, lowercase letters,
/// digits and hyphens only, no hyphen first, last or doubled.
pub open spec fn is_segment_id(s: Seq<char>) -> bool {
    &&& s.len() >= 1
    &&& s[0] != '-'
    &&& forall|i: int| 0 <= i < s.len() ==> is_kebab_char(#[trigger] s[i]) || s[i] == '-'
    &&& forall|i: int| 0 <= i < s.len() && #[trigger] s[i] == '-' ==> i + 1 < s.len() && s[i + 1] != '-'
}

pub(crate) fn check_spec_id_shape(v: &Vec<char>) -> (r: bool)
    ensures
        r == spec_id_shape(v@),
{
    let n = v.len();
    if n == 0 {
        return false;
    }
    if !(v[0] >= 'A' && v[0] <= 'Z') {
        return false;
    }
    let mut seen_hyphen = false;
    let mut i: usize = 0;
    while i < n
        invariant
            n == v@.len(),
            0 <= i <= n,
            n >= 1,
            is_upper(v@[0]),
            forall|j: int| 0 <= j < i ==> is_id_char(#[trigger] v@[j]) || v@[j] == '-',
            forall|j: int| 0 <= j < i && #[trigger] v@[j] == '-' ==> j + 1 < n && v@[j + 1] != '-',
            seen_hyphen <==> exists|j: int| 0 <= j < i && #[trigger] v@[j] == '-',
        decreases n - i,
    {
        let c = v[i];
        if c == '-' {
            if i + 1 >= n || v[i + 1] == '-' {
                assert(v@[i as int] == '-');
                return false;
            }
            seen_hyphen = true;
        } else if !((c >= 'A' && c <= 'Z') || (c >= '0' && c <= '9')) {
            assert(!(is_id_char(v@[i as int]) || v@[i as int] == '-'));
            return false;
        }
        i = i + 1;
    }
    seen_hyphen
}

pub(crate) fn check_has_digit(v: &Vec<char>) -> (r: bool)
    ensures
        r == has_digit(v@),
{
    let mut i: usize = 0;
    while i < v.len()
        invariant
            0 <= i <= v@.len(),
            forall|j: int| 0 <= j < i ==> !is_digit(#[trigger] v@[j]),
        decreases v@.len() - i,
    {
        if v[i] >= '0' && v[i] <= '9' {
            assert(is_digit(v@[i as int]));
            return true;
        }
        i = i + 1;
    }
    false
}

fn check_git_sha(v: &Vec<char>) -> (r: bool)
    ensures
        r == is_git_sha(v@),
{
    let n = v.len();
    if n < 7 || n > 40 {
        return false;
    }
    let mut i: usize = 0;
    while i < n
        invariant
            n == v@.len(),
            0 <= i <= n,
            forall|j: int| 0 <= j < i ==> is_lower_hex(#[trigger] v@[j]),
        decreases n - i,
    {
        let c = v[i];
        if !((c >= '0' && c <= '9') || (c >= 'a' && c <= 'f')) {
            assert(!is_lower_hex(v@[i as int]));
            return false;
        }
        i = i + 1;
    }
    true
}

fn check_segment_id(v: &Vec<char>) -> (r: bool)
    ensures
        r == is_segment_id(v@),
{
    let n = v.len();
    if n == 0 || v[0] == '-' {
        return false;
    }
    let mut i: usize = 0;
    while i < n
        invariant
            n == v@.len(),
            0 <= i <= n,
            forall|j: int| 0 <= j < i ==> is_kebab_char(#[trigger] v@[j]) || v@[j] == '-',
            forall|j: int| 0 <= j < i && #[trigger] v@[j] == '-' ==> j + 1 < n && v@[j + 1] != '-',
        decreases n - i,
    {
        let c = v[i];
        if c == '-' {
            if i + 1 >= n || v[i + 1] == '-' {
                assert(v@[i as int] == '-');
                return false;
            }
        } else if !((c >= 'a' && c <= 'z') || (c >= '0' && c <= '9')) {
            assert(!(is_kebab_char(v@[i as int]) || v@[i as int] == '-'));
            return false;
        }
        i = i + 1;
    }
    true
}

/// A LID spec identifier such as `AUTH-UI-001`.
///
/// Stable once assigned; the methodology forbids reuse after deletion.
#[derive(Debug, Hash, PartialOrd, Ord)]
pub struct SpecId(String);

impl SpecId {
    #[verifier::type_invariant]
    spec fn valid(self) -> bool {
        is_spec_id(self.0@)
    }

    /// The identifier's characters.
    pub closed spec fn chars(self) -> Seq<char> {
        self.0@
    }

    /// Every `SpecId` holds a valid spec ID.
    pub fn is_valid(&self) -> (r: bool)
        ensures
            r,
            is_spec_id(self@),
    {
        proof {
            use_type_invariant(self);
        }
        true
    }

    /// Parse a candidate string into a [`SpecId`].
    ///
    /// Returns `InvalidSpecId` when the input does not match the shape
    /// `^[A-Z][A-Z0-9]*(-[A-Z0-9]+)+$` or contains no digit.
    pub fn parse(value: &str) -> (r: Result<SpecId, LidError>)
        ensures
            r is Ok <==> is_spec_id(value@),
            r matches Ok(id) ==> id@ == value@,
            r matches Err(e) ==> e matches LidError::InvalidSpecId { value: v, .. } && v@ == value@,
    {
        let v = chars_of(value);
        if !check_spec_id_shape(&v) {
            return Err(
                LidError::InvalidSpecId {
                    value: value.to_owned(),
                    reason: "expected pattern ^[A-Z][A-Z0-9]*(-[A-Z0-9]+)+$",
                },
            );
        }
        if !check_has_digit(&v) {
            return Err(
                LidError::InvalidSpecId {
                    value: value.to_owned(),
                    reason: "must contain at least one digit",
                },
            );
        }
        Ok(SpecId(value.to_owned()))
    }

    /// Borrow the underlying string slice.
    pub fn as_str(&self) -> (r: &str)
        ensures
            r@ == self@,
    {
        self.0.as_str()
    }


    /// Whether two identifiers are the same.
    pub fn same(&self, other: &SpecId) -> (r: bool)
        ensures
            r == (self@ == other@),
    {
        self.0 == other.0
    }
}

impl View for SpecId {
    type V = Seq<char>;

    open spec fn view(&self) -> Seq<char> {
        self.chars()
    }
}

impl Clone for SpecId {
    fn clone(&self) -> (r: Self)
        ensures
            r@ == self@,
    {
        proof {
            use_type_invariant(self);
        }
        SpecId(self.0.clone())
    }
}

impl PartialEq for SpecId {
    fn eq(&self, other: &Self) -> (r: bool) {
        self.0 == other.0
    }
}

impl Eq for SpecId {}

impl vstd::std_specs::cmp::PartialEqSpecImpl for SpecId {
    open spec fn obeys_eq_spec() -> bool {
        true
    }

    open spec fn eq_spec(&self, other: &SpecId) -> bool {
        self@ == other@
    }
}

/// A git SHA-1 hash in its short or full lowercase-hex form (7..=40 chars).
#[derive(Debug, Hash, PartialOrd, Ord)]
pub struct GitSha(String);

impl GitSha {
    #[verifier::type_invariant]
    spec fn valid(self) -> bool {
        is_git_sha(self.0@)
    }

    /// The hash's characters.
    pub closed spec fn chars(self) -> Seq<char> {
        self.0@
    }

    /// Parse a candidate string into a [`GitSha`].
    ///
    /// Returns `InvalidGitSha` unless the input is 7..=40 lowercase
    /// hexadecimal characters.
    pub fn parse(value: &str) -> (r: Result<GitSha, LidError>)
        ensures
            r is Ok <==> is_git_sha(value@),
            r matches Ok(sha) ==> sha@ == value@,
            r matches Err(e) ==> e matches LidError::InvalidGitSha { value: v, .. } && v@ == value@,
    {
        let v = chars_of(value);
        if !check_git_sha(&v) {
            return Err(
                LidError::InvalidGitSha {
                    value: value.to_owned(),
                    reason: "expected 7..=40 lowercase hexadecimal characters",
                },
            );
        }
        Ok(GitSha(value.to_owned()))
    }

    /// Borrow the underlying string slice.
    pub fn as_str(&self) -> (r: &str)
        ensures
            r@ == self@,
    {
        self.0.as_str()
    }
}

impl View for GitSha {
    type V = Seq<char>;

    open spec fn view(&self) -> Seq<char> {
        self.chars()
    }
}

impl Clone for GitSha {
    fn clone(&self) -> (r: Self)
        ensures
            r@ == self@,
    {
        proof {
            use_type_invariant(self);
        }
        GitSha(self.0.clone())
    }
}

impl PartialEq for GitSha {
    fn eq(&self, other: &Self) -> (r: bool) {
        self.0 == other.0
    }
}

impl Eq for GitSha {}

impl vstd::std_specs::cmp::PartialEqSpecImpl for GitSha {
    open spec fn obeys_eq_spec() -> bool {
        true
    }

    open spec fn eq_spec(&self, other: &GitSha) -> bool {
        self@ == other@
    }
}

/// An arrow segment identifier in kebab case, such as `linked-intent-dev`.
#[derive(Debug, Hash, PartialOrd, Ord)]
pub struct SegmentId(String);

impl SegmentId {
    #[verifier::type_invariant]
    spec fn valid(self) -> bool {
        is_segment_id(self.0@)
    }

    /// The identifier's characters.
    pub closed spec fn chars(self) -> Seq<char> {
        self.0@
    }

    /// Parse a candidate string into a [`SegmentId`].
    ///
    /// Returns `InvalidSegmentId` unless the input is kebab case.
    pub fn parse(value: &str) -> (r: Result<SegmentId, LidError>)
        ensures
            r is Ok <==> is_segment_id(value@),
            r matches Ok(s) ==> s@ == value@,
            r matches Err(e) ==> e matches LidError::InvalidSegmentId { value: v, .. } && v@ == value@,
    {
        let v = chars_of(value);
        if !check_segment_id(&v) {
            return Err(
                LidError::InvalidSegmentId {
                    value: value.to_owned(),
                    reason: "expected kebab case ^[a-z0-9]+(-[a-z0-9]+)*$",
                },
            );
        }
        Ok(SegmentId(value.to_owned()))
    }

    /// Borrow the underlying string slice.
    pub fn as_str(&self) -> (r: &str)
        ensures
            r@ == self@,
    {
        self.0.as_str()
    }

}

impl View for SegmentId {
    type V = Seq<char>;

    open spec fn view(&self) -> Seq<char> {
        self.chars()
    }
}

impl Clone for SegmentId {
    fn clone(&self) -> (r: Self)
        ensures
            r@ == self@,
    {
        proof {
            use_type_invariant(self);
        }
        SegmentId(self.0.clone())
    }
}

impl PartialEq for SegmentId {
    fn eq(&self, other: &Self) -> (r: bool) {
        self.0 == other.0
    }
}

impl Eq for SegmentId {}

impl vstd::std_specs::cmp::PartialEqSpecImpl for SegmentId {
    open spec fn obeys_eq_spec() -> bool {
        true
    }

    open spec fn eq_spec(&self, other: &SegmentId) -> bool {
        self@ == other@
    }
}

} // verus!
