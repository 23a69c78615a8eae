pub mod connection;
pub mod events;
pub mod socket_id;

use vstd::prelude::*;
use vstd::string::StringSliceAdditionalSpecFns;
use vstd::utf8::encode_utf8;

use crate::text::{str_eq, views};

verus! {

/// ASCII lower case of one byte; other bytes are kept.
pub open spec fn ascii_lower(b: u8) -> u8 {
    if 65 <= b <= 90 { (b + 32) as u8 } else { b }
}

/// Two byte strings are equal when ASCII letters are compared without case.
pub open spec fn eq_ignore_ascii_case_bytes(a: Seq<u8>, b: Seq<u8>) -> bool {
    a.len() == b.len() && forall|i: int| 0 <= i < a.len() ==> ascii_lower(#[trigger] a[i]) == ascii_lower(b[i])
}

fn lower(b: u8) -> (r: u8)
    ensures
        r == ascii_lower(b),
{
    if 65 <= b && b <= 90 { b + 32 } else { b }
}

/// `str::eq_ignore_ascii_case`: equality of the two texts' bytes, ASCII letters compared
/// without case.
pub fn eq_ignore_ascii_case(a: &str, b: &str) -> (r: bool)
    ensures
        r == eq_ignore_ascii_case_bytes(a.spec_bytes(), b.spec_bytes()),
{
    let ab = a.as_bytes();
    let bb = b.as_bytes();
    if ab.len() != bb.len() {
        return false;
    }
    let mut i: usize = 0;
    while i < ab.len()
        invariant
            ab@ == a.spec_bytes(),
            bb@ == b.spec_bytes(),
            ab@.len() == bb@.len(),
            i <= ab@.len(),
            forall|j: int| 0 <= j < i ==> ascii_lower(#[trigger] ab@[j]) == ascii_lower(bb@[j]),
        decreases ab@.len() - i,
    {
        if lower(ab[i]) != lower(bb[i]) {
            return false;
        }
        i = i + 1;
    }
    true
}

/// An origin matches a pattern that is `*`, or that equals it without ASCII case.
pub open spec fn spec_origin_matches(origin: Seq<char>, pattern: Seq<char>) -> bool {
    pattern == "*"@ || eq_ignore_ascii_case_bytes(encode_utf8(origin), encode_utf8(pattern))
}

/// An origin is accepted when no origin is listed, or when one is given and matches a listed
/// pattern.
pub open spec fn spec_validate_origin(origin: Option<Seq<char>>, allowed: Seq<Seq<char>>) -> bool {
    allowed.len() == 0 || (origin is Some && exists|i: int|
        0 <= i < allowed.len() && spec_origin_matches(origin->0, #[trigger] allowed[i]))
}

/// Whether an origin matches an allowed-origin pattern: `*` matches everything, any other
/// pattern must equal the origin up to ASCII case.
pub fn origin_matches(origin: &str, pattern: &str) -> (r: bool)
    ensures
        r == spec_origin_matches(origin@, pattern@),
{
    if str_eq(pattern, "*") {
        return true;
    }
    eq_ignore_ascii_case(origin, pattern)
}

/// Validate an Origin header against the app's allowed origins. An empty list accepts all.
pub fn validate_origin(origin: Option<&str>, allowed_origins: &Vec<String>) -> (r: bool)
    ensures
        r == spec_validate_origin(opt_view(origin), views(allowed_origins@)),
{
    if allowed_origins.len() == 0 {
        return true;
    }
    let o = match origin {
        Some(o) => o,
        None => return false,
    };
    assert(opt_view(origin) == Some(o@));
    let mut i: usize = 0;
    while i < allowed_origins.len()
        invariant
            i <= allowed_origins@.len(),
            allowed_origins@.len() > 0,
            opt_view(origin) == Some(o@),
            forall|j: int| 0 <= j < i ==> !spec_origin_matches(o@, #[trigger] allowed_origins@[j]@),
        decreases allowed_origins@.len() - i,
    {
        if origin_matches(o, allowed_origins[i].as_str()) {
            assert(views(allowed_origins@)[i as int] == allowed_origins@[i as int]@);
            assert(spec_origin_matches(o@, views(allowed_origins@)[i as int]));
            return true;
        }
        i = i + 1;
    }
    assert forall|k: int| 0 <= k < allowed_origins@.len() implies
        !spec_origin_matches(o@, #[trigger] views(allowed_origins@)[k]) by {
        assert(views(allowed_origins@)[k] == allowed_origins@[k]@);
    }
    false
}

/// The view of an optional text.
pub open spec fn opt_view(o: Option<&str>) -> Option<Seq<char>> {
    match o {
        Some(s) => Some(s@),
        None => None,
    }
}

} // verus!
