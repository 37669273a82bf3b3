//! Character-count and byte-offset helpers.
//!
//! Stems are UTF-8 text: operations count characters, while the recorded
//! trim and insert ranges are byte offsets into the encoded name. The spec
//! functions here relate the two, on top of vstd's UTF-8 model.

use vstd::prelude::*;
use vstd::string::*;
use vstd::utf8::*;

verus! {

broadcast use vstd::utf8::group_utf8_lib;

/// Length in bytes of the UTF-8 encoding of a character sequence.
pub open spec fn byte_len(s: Seq<char>) -> nat {
    encode_utf8(s).len()
}

/// The characters whose encoding occupies bytes `0..b` of the encoding of
/// `s`, for a byte offset `b` on a character boundary.
pub open spec fn prefix_to(s: Seq<char>, b: int) -> Seq<char> {
    decode_utf8(encode_utf8(s).subrange(0, b))
}

/// The characters whose encoding occupies bytes `b..` of the encoding of
/// `s`, for a byte offset `b` on a character boundary.
pub open spec fn suffix_from(s: Seq<char>, b: int) -> Seq<char> {
    decode_utf8(encode_utf8(s).subrange(b, encode_utf8(s).len() as int))
}

/// The characters whose encoding occupies bytes `a..b` of the encoding of
/// `s`, for byte offsets `a <= b` on character boundaries.
pub open spec fn mid_of(s: Seq<char>, a: int, b: int) -> Seq<char> {
    decode_utf8(encode_utf8(s).subrange(a, b))
}

/// The UTF-8 encoding of a concatenation is the concatenation of the
/// encodings.
pub proof fn lemma_encode_utf8_concat(a: Seq<char>, b: Seq<char>)
    ensures
        encode_utf8(a + b) =~= encode_utf8(a) + encode_utf8(b),
    decreases a.len(),
{
    if a.len() == 0 {
        assert(a + b =~= b);
    } else {
        assert((a + b)[0] == a[0]);
        assert((a + b).drop_first() =~= a.drop_first() + b);
        lemma_encode_utf8_concat(a.drop_first(), b);
    }
}

/// Every character takes at least one byte to encode.
pub proof fn lemma_byte_len_at_least_char_count(s: Seq<char>)
    ensures
        byte_len(s) >= s.len(),
    decreases s.len(),
{
    if s.len() > 0 {
        lemma_byte_len_at_least_char_count(s.drop_first());
    }
}

/// A character boundary of a byte sequence is still a boundary when the
/// sequence is cut at an earlier boundary.
pub proof fn lemma_char_boundary_in_suffix(bytes: Seq<u8>, a: int, b: int)
    requires
        valid_utf8(bytes),
        0 <= a <= b <= bytes.len(),
        is_char_boundary(bytes, a),
        is_char_boundary(bytes, b),
    ensures
        is_char_boundary(bytes.subrange(a, bytes.len() as int), b - a),
{
    let suffix = bytes.subrange(a, bytes.len() as int);
    valid_utf8_split(bytes, a);
    if b == a {
    } else if b == bytes.len() {
        is_char_boundary_start_end_of_seq(suffix);
    } else {
        is_char_boundary_iff_not_is_continuation_byte(bytes, b);
        assert(suffix[b - a] == bytes[b]);
        is_char_boundary_iff_not_is_continuation_byte(suffix, b - a);
    }
}

/// Splits a string at two byte offsets that lie on character boundaries,
/// returning the text before, within, and after the span.
pub fn split_span<'a>(s: &'a str, a: usize, b: usize) -> (r: (&'a str, &'a str, &'a str))
    requires
        a <= b <= encode_utf8(s@).len(),
        is_char_boundary(encode_utf8(s@), a as int),
        is_char_boundary(encode_utf8(s@), b as int),
    ensures
        r.0@ == prefix_to(s@, a as int),
        r.1@ == mid_of(s@, a as int, b as int),
        r.2@ == suffix_from(s@, b as int),
        s@ == r.0@ + r.1@ + r.2@,
        encode_utf8(r.0@) == encode_utf8(s@).subrange(0, a as int),
        encode_utf8(r.1@) == encode_utf8(s@).subrange(a as int, b as int),
        encode_utf8(r.2@) == encode_utf8(s@).subrange(b as int, encode_utf8(s@).len() as int),
{
    let ghost bytes = encode_utf8(s@);
    let (head, rest) = s.split_at(a);
    proof {
        lemma_char_boundary_in_suffix(bytes, a as int, b as int);
    }
    let (mid, tail) = rest.split_at(b - a);
    proof {
        assert(rest.spec_bytes() =~= bytes.subrange(a as int, bytes.len() as int));
        assert(mid.spec_bytes() =~= bytes.subrange(a as int, b as int));
        assert(tail.spec_bytes() =~= bytes.subrange(b as int, bytes.len() as int));
        assert(head@ == prefix_to(s@, a as int));
        assert(mid@ == mid_of(s@, a as int, b as int));
        assert(tail@ == suffix_from(s@, b as int));
        assert(s@ == head@ + mid@ + tail@) by {
            decode_utf8_split(bytes, a as int);
            lemma_char_boundary_in_suffix(bytes, a as int, b as int);
            decode_utf8_split(bytes.subrange(a as int, bytes.len() as int), b - a as int);
            assert(bytes.subrange(a as int, bytes.len() as int).subrange(
                0,
                b - a as int,
            ) =~= bytes.subrange(a as int, b as int));
            assert(bytes.subrange(a as int, bytes.len() as int).subrange(
                b - a as int,
                bytes.len() - a as int,
            ) =~= bytes.subrange(b as int, bytes.len() as int));
            assert(s@ =~= head@ + mid@ + tail@);
        }
    }
    (head, mid, tail)
}

/// Byte length of a string: the length of its UTF-8 encoding. Also
/// establishes that this length fits in `usize`.
pub fn str_byte_len(s: &str) -> (r: usize)
    ensures
        r == byte_len(s@),
{
    let b = s.as_bytes();
    proof {
        vstd::slice::axiom_spec_len::<u8>(b);
    }
    b.len()
}

/// True when some character of `s` is `c`.
pub open spec fn contains_char(s: Seq<char>, c: char) -> bool {
    exists|i: int| 0 <= i < s.len() && s[i] == c
}

/// Index of the first occurrence of `c` in `s`, meaningful when `s`
/// contains `c`.
pub open spec fn first_index_of(s: Seq<char>, c: char) -> int
    decreases s.len(),
{
    if s.len() == 0 {
        0
    } else if s[0] == c {
        0
    } else {
        1 + first_index_of(s.drop_first(), c)
    }
}

/// An index that holds `c`, with no earlier occurrence, is the first index.
pub proof fn lemma_first_index_of_witness(s: Seq<char>, c: char, i: int)
    requires
        0 <= i < s.len(),
        s[i] == c,
        forall|j: int| 0 <= j < i ==> s[j] != c,
    ensures
        contains_char(s, c),
        first_index_of(s, c) == i,
    decreases i,
{
    if i > 0 {
        assert(s.drop_first()[i - 1] == c);
        assert forall|j: int| 0 <= j < i - 1 implies s.drop_first()[j] != c by {
            assert(s.drop_first()[j] == s[j + 1]);
        }
        lemma_first_index_of_witness(s.drop_first(), c, i - 1);
    }
}

/// When `s` contains `c`, the first index is in range, holds `c`, and no
/// earlier index does.
pub proof fn lemma_first_index_of_in_range(s: Seq<char>, c: char)
    requires
        contains_char(s, c),
    ensures
        0 <= first_index_of(s, c) < s.len(),
        s[first_index_of(s, c)] == c,
        forall|j: int| 0 <= j < first_index_of(s, c) ==> s[j] != c,
    decreases s.len(),
{
    let fi = first_index_of(s, c);
    if s[0] == c {
    } else {
        let i = choose|i: int| 0 <= i < s.len() && s[i] == c;
        assert(s.drop_first()[i - 1] == c);
        lemma_first_index_of_in_range(s.drop_first(), c);
        let fi1 = first_index_of(s.drop_first(), c);
        assert(s[fi] == s.drop_first()[fi1]);
        assert forall|j: int| 0 <= j < fi implies s[j] != c by {
            if j > 0 {
                assert(s[j] == s.drop_first()[j - 1]);
            }
        }
    }
}

/// Finds the first occurrence of a character, as a character index.
pub fn find_char(s: &str, c: char) -> (r: Option<usize>)
    ensures
        r is Some <==> contains_char(s@, c),
        r matches Some(i) ==> {
            &&& i == first_index_of(s@, c)
            &&& i < s@.len()
            &&& s@[i as int] == c
        },
{
    let n = s.unicode_len();
    let mut i: usize = 0;
    while i < n
        invariant
            n == s@.len(),
            i <= n,
            forall|j: int| 0 <= j < i ==> s@[j] != c,
        decreases n - i,
    {
        if s.get_char(i) == c {
            proof {
                lemma_first_index_of_witness(s@, c, i as int);
            }
            return Some(i);
        }
        i += 1;
    }
    None
}

} // verus!
