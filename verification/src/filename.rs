//! The data model: one file's name, and one proposed rename.

use vstd::prelude::*;
use vstd::string::StringExecFns;
use vstd::utf8::encode_utf8;
use vstd::utf8::is_char_boundary;

use crate::util::byte_len;
use crate::util::lemma_encode_utf8_concat;
use crate::util::mid_of;
use crate::util::prefix_to;
use crate::util::split_span;
use crate::util::suffix_from;

verus! {

/// One file's name, split into its stem and its optional extension.
///
/// The full name is always the stem, a dot, and the extension (empty when
/// absent); it is recomputed on demand rather than stored.
pub struct Filename {
    stem: String,
    extension: Option<String>,
}

/// Spec-level value of a [`Filename`]: the stem and the extension, a missing
/// extension read as empty text (the two yield the same full name).
#[verifier::ext_equal]
pub ghost struct FilenameV {
    pub stem: Seq<char>,
    pub ext: Seq<char>,
}

/// The full name of a filename value: `stem + "." + ext`.
pub open spec fn full_of(v: FilenameV) -> Seq<char> {
    v.stem + seq!['.'] + v.ext
}

impl View for Filename {
    type V = FilenameV;

    closed spec fn view(&self) -> FilenameV {
        FilenameV {
            stem: self.stem@,
            ext: match self.extension {
                Some(e) => e@,
                None => Seq::empty(),
            },
        }
    }
}

impl Filename {
    /// Builds a filename from its stem and optional extension.
    pub fn new(stem: String, extension: Option<String>) -> (r: Filename)
        ensures
            r@.stem == stem@,
            r@.ext == match extension {
                Some(e) => e@,
                None => Seq::<char>::empty(),
            },
    {
        Filename { stem, extension }
    }

    /// The stem, the part of the name before the extension.
    pub fn stem(&self) -> (r: &String)
        ensures
            r@ == self@.stem,
    {
        &self.stem
    }

    /// The extension, or empty text when there is none.
    pub fn extension(&self) -> (r: String)
        ensures
            r@ == self@.ext,
    {
        match &self.extension {
            Some(e) => e.clone(),
            None => String::new(),
        }
    }

    /// The full name: stem, dot, extension.
    pub fn full(&self) -> (r: String)
        ensures
            r@ == full_of(self@),
    {
        let mut r = self.stem.clone();
        r.append(".");
        match &self.extension {
            Some(e) => r.append(e.as_str()),
            None => {},
        }
        proof {
            reveal_strlit(".");
            assert(r@ =~= full_of(self@));
        }
        r
    }
}

impl Clone for Filename {
    fn clone(&self) -> (r: Self)
        ensures
            r@ == self@,
    {
        Filename {
            stem: self.stem.clone(),
            extension: match &self.extension {
                Some(e) => Some(e.clone()),
                None => None,
            },
        }
    }
}

/// The full name is one byte longer than stem and extension together: the
/// dot in between is a single byte.
pub proof fn lemma_full_of_byte_len(v: FilenameV)
    ensures
        byte_len(full_of(v)) == byte_len(v.stem) + 1 + byte_len(v.ext),
{
    let dot = seq!['.'];
    assert(full_of(v) == (v.stem + dot) + v.ext);
    lemma_encode_utf8_concat(v.stem + dot, v.ext);
    lemma_encode_utf8_concat(v.stem, dot);
    assert(encode_utf8(dot) =~= vstd::utf8::encode_scalar('.' as u32) + encode_utf8(
        dot.drop_first(),
    ));
    assert(dot.drop_first() =~= Seq::<char>::empty());
    assert(encode_utf8(Seq::<char>::empty()) =~= Seq::<u8>::empty());
    assert(vstd::utf8::has_width_1_encoding('.' as u32));
    assert(vstd::utf8::encode_scalar('.' as u32).len() == 1);
}

/// One proposed rename: the original name, the altered name, and the two
/// highlighted byte spans.
///
/// `trim_range` marks the span of the original full name that the operation
/// removed or matched; `insert_range` marks the span of the altered full
/// name that it inserted or changed. The trim range always lies within the
/// original full name; no such bound is enforced on the insert range.
pub struct Res {
    orig: Filename,
    alter: Filename,
    trim_range: (usize, usize),
    insert_range: (usize, usize),
}

/// Spec-level value of a [`Res`].
#[verifier::ext_equal]
pub ghost struct ResV {
    pub orig: FilenameV,
    pub alter: FilenameV,
    pub trim_range: (int, int),
    pub insert_range: (int, int),
}

impl View for Res {
    type V = ResV;

    closed spec fn view(&self) -> ResV {
        ResV {
            orig: self.orig@,
            alter: self.alter@,
            trim_range: (self.trim_range.0 as int, self.trim_range.1 as int),
            insert_range: (self.insert_range.0 as int, self.insert_range.1 as int),
        }
    }
}

impl Res {
    /// The trim range lies within the original full name. This holds of
    /// every `Res` value: construction with a violating range is rejected.
    #[verifier::type_invariant]
    pub open spec fn trim_range_valid(self) -> bool {
        0 <= self@.trim_range.0 <= self@.trim_range.1 <= byte_len(full_of(self@.orig))
    }

    /// Pairs an original name with the altered stem and the two ranges. The
    /// altered name carries the original's extension verbatim.
    pub fn new(orig: Filename, alter_stem: String, tr: (usize, usize), ir: (usize, usize)) -> (r:
        Res)
        requires
            tr.0 <= tr.1 <= byte_len(full_of(orig@)),
        ensures
            r@ == (ResV {
                orig: orig@,
                alter: FilenameV { stem: alter_stem@, ext: orig@.ext },
                trim_range: (tr.0 as int, tr.1 as int),
                insert_range: (ir.0 as int, ir.1 as int),
            }),
    {
        let ext = orig.extension();
        Res { orig, alter: Filename::new(alter_stem, Some(ext)), trim_range: tr, insert_range: ir }
    }

    /// The original full name, reconstructed as stem, dot, extension.
    pub fn orig(&self) -> (r: String)
        ensures
            r@ == full_of(self@.orig),
    {
        self.orig.full()
    }

    /// The altered full name, reconstructed as stem, dot, extension.
    pub fn alter(&self) -> (r: String)
        ensures
            r@ == full_of(self@.alter),
    {
        self.alter.full()
    }

    /// The original full name with the trim span wrapped in the "removed"
    /// background color marker and a trailing reset.
    pub fn orig_with_highlight(&self) -> (r: String)
        requires
            is_char_boundary(encode_utf8(full_of(self@.orig)), self@.trim_range.0),
            is_char_boundary(encode_utf8(full_of(self@.orig)), self@.trim_range.1),
        ensures
            r@ == prefix_to(full_of(self@.orig), self@.trim_range.0) + "\x1b[44m"@ + mid_of(
                full_of(self@.orig),
                self@.trim_range.0,
                self@.trim_range.1,
            ) + "\x1b[0m"@ + suffix_from(full_of(self@.orig), self@.trim_range.1),
    {
        proof {
            use_type_invariant(self);
        }
        let full = self.orig.full();
        let (head, mid, tail) = split_span(full.as_str(), self.trim_range.0, self.trim_range.1);
        let mut r = String::from_str(head);
        r.append("\x1b[44m");
        r.append(mid);
        r.append("\x1b[0m");
        r.append(tail);
        r
    }

    /// The altered full name with the insert span wrapped in the "inserted"
    /// background color marker and a trailing reset. The insert range is not
    /// bounded by construction, so this asks that it lie within the altered
    /// full name, on character boundaries.
    pub fn alter_with_highlight(&self) -> (r: String)
        requires
            self@.insert_range.0 <= self@.insert_range.1,
            self@.insert_range.1 <= byte_len(full_of(self@.alter)),
            is_char_boundary(encode_utf8(full_of(self@.alter)), self@.insert_range.0),
            is_char_boundary(encode_utf8(full_of(self@.alter)), self@.insert_range.1),
        ensures
            r@ == prefix_to(full_of(self@.alter), self@.insert_range.0) + "\x1b[41m"@ + mid_of(
                full_of(self@.alter),
                self@.insert_range.0,
                self@.insert_range.1,
            ) + "\x1b[0m"@ + suffix_from(full_of(self@.alter), self@.insert_range.1),
    {
        let full = self.alter.full();
        let (head, mid, tail) = split_span(full.as_str(), self.insert_range.0, self.insert_range.1);
        let mut r = String::from_str(head);
        r.append("\x1b[41m");
        r.append(mid);
        r.append("\x1b[0m");
        r.append(tail);
        r
    }
}

} // verus!
