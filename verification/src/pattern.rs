//! Pattern search, through the regex crate.
//!
//! What a regular expression matches is not modelled here: the two spec
//! functions only name the outcomes, and the verified operations state their
//! results in terms of these names.

use vstd::prelude::*;
use vstd::utf8::encode_utf8;
use vstd::utf8::is_char_boundary;

verus! {

/// Whether a pattern compiles as a regular expression. A function of the
/// pattern alone.
pub uninterp spec fn re_valid(pattern: Seq<char>) -> bool;

/// The leftmost match of a pattern in a haystack, as start and end byte
/// offsets, or nothing when the pattern matches nowhere. A function of the
/// pattern and the haystack alone.
pub uninterp spec fn re_find(pattern: Seq<char>, haystack: Seq<char>) -> Option<(int, int)>;

/// Relies on regex::Regex::new: whether the pattern compiles depends on the
/// pattern alone.
#[verifier::external_body]
pub(crate) fn pattern_valid(pattern: &str) -> (r: bool)
    ensures
        r == re_valid(pattern@),
{
    regex::Regex::new(pattern).is_ok()
}

/// Relies on regex::Regex::new and regex::Regex::find: the leftmost match of
/// a compiled pattern. Its start and end are byte offsets into the haystack
/// with start <= end <= haystack.len(), documented to fall on UTF-8
/// character boundaries, so the haystack can be sliced at them.
#[verifier::external_body]
pub(crate) fn find_first(pattern: &str, haystack: &str) -> (r: Option<(usize, usize)>)
    requires
        re_valid(pattern@),
    ensures
        match r {
            Some(m) => {
                &&& re_find(pattern@, haystack@) == Some((m.0 as int, m.1 as int))
                &&& m.0 <= m.1 <= encode_utf8(haystack@).len()
                &&& is_char_boundary(encode_utf8(haystack@), m.0 as int)
                &&& is_char_boundary(encode_utf8(haystack@), m.1 as int)
            },
            None => re_find(pattern@, haystack@) is None,
        },
{
    match regex::Regex::new(pattern) {
        Ok(re) => re.find(haystack).map(|m| (m.start(), m.end())),
        Err(_) => None,
    }
}

} // verus!
