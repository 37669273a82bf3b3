//! The rename operations: each takes the ordered filename set and produces
//! an ordered sequence of proposed renames.
//!
//! Every operation preserves the extension of each name; only the stem is
//! transformed. The trim range of each result marks the byte span of the
//! original name that the operation removed or matched, and the insert
//! range marks the byte span of the altered name that it inserted.

use vstd::prelude::*;
use vstd::string::StrSliceExecFns;
use vstd::string::StringExecFns;
use vstd::utf8::encode_utf8;

use crate::date::reformat_spec;
use crate::date::reformat_time;
use crate::filename::full_of;
use crate::filename::lemma_full_of_byte_len;
use crate::filename::Filename;
use crate::filename::FilenameV;
use crate::filename::Res;
use crate::filename::ResV;
use crate::pattern::find_first;
use crate::pattern::pattern_valid;
use crate::pattern::re_find;
use crate::pattern::re_valid;
use crate::util::byte_len;
use crate::util::lemma_byte_len_at_least_char_count;
use crate::util::lemma_encode_utf8_concat;
use crate::util::mid_of;
use crate::util::prefix_to;
use crate::util::split_span;
use crate::util::str_byte_len;
use crate::util::suffix_from;

verus! {

/// One rename operation together with its parameters.
#[derive(Debug)]
pub enum Op {
    Insert(String),
    InsertTail(String),
    Remove(usize),
    RemoveTail(usize),
    Replace(String, String),
    SP,
    SP2,
    Unknown,
}

/// Why a whole batch was given up: these conditions abort the batch rather
/// than skip one entry.
#[derive(Clone, Copy, Debug, PartialEq, Eq, Structural)]
pub enum RenameError {
    /// The pattern did not compile as a regular expression.
    BadPattern,
    /// A stem contained no date-shaped token at all.
    NoDateToken,
    /// A located date token was missing an expected separator, or one of
    /// its fields was empty or wider than two characters.
    MalformedToken,
}

/// The result of `insert` on one name: the text is put before the stem.
pub open spec fn insert_one(name: FilenameV, obj: Seq<char>) -> ResV {
    ResV {
        orig: name,
        alter: FilenameV { stem: obj + name.stem, ext: name.ext },
        trim_range: (0, 0),
        insert_range: (0, byte_len(obj) as int),
    }
}

/// Puts the given text before every stem.
pub fn insert(targets: Box<Vec<Filename>>, object: &str) -> (r: Box<Vec<Res>>)
    ensures
        r@.len() == targets@.len(),
        forall|i: int|
            0 <= i < targets@.len() ==> r@[i]@ == insert_one(#[trigger] targets@[i]@, object@),
{
    let names: Vec<Filename> = *targets;
    let n = names.len();
    let mut results: Vec<Res> = Vec::new();
    let mut idx: usize = 0;
    while idx < n
        invariant
            names@ == targets@,
            n == names@.len(),
            idx <= n,
            results@.len() == idx,
            forall|i: int|
                0 <= i < idx ==> results@[i]@ == insert_one(#[trigger] names@[i]@, object@),
        decreases n - idx,
    {
        let name = &names[idx];
        let orig = name.clone();
        let mut alter_stem = String::from_str(object);
        alter_stem.append(name.stem().as_str());
        let ir1 = str_byte_len(object);
        let res = Res::new(orig, alter_stem, (0, 0), (0, ir1));
        proof {
            assert(res@ =~= insert_one(names@[idx as int]@, object@));
        }
        results.push(res);
        idx += 1;
    }
    Box::new(results)
}

/// The result of `insert_tail` on one name: the text is put after the stem.
pub open spec fn insert_tail_one(name: FilenameV, obj: Seq<char>) -> ResV {
    ResV {
        orig: name,
        alter: FilenameV { stem: name.stem + obj, ext: name.ext },
        trim_range: (0, 0),
        insert_range: (byte_len(name.stem) as int, (byte_len(name.stem) + byte_len(obj)) as int),
    }
}

/// Puts the given text after every stem.
pub fn insert_tail(targets: Box<Vec<Filename>>, object: &str) -> (r: Box<Vec<Res>>)
    ensures
        r@.len() == targets@.len(),
        forall|i: int|
            0 <= i < targets@.len() ==> r@[i]@ == insert_tail_one(#[trigger] targets@[i]@, object@),
{
    let names: Vec<Filename> = *targets;
    let n = names.len();
    let mut results: Vec<Res> = Vec::new();
    let mut idx: usize = 0;
    while idx < n
        invariant
            names@ == targets@,
            n == names@.len(),
            idx <= n,
            results@.len() == idx,
            forall|i: int|
                0 <= i < idx ==> results@[i]@ == insert_tail_one(#[trigger] names@[i]@, object@),
        decreases n - idx,
    {
        let name = &names[idx];
        let orig = name.clone();
        let a = str_byte_len(name.stem().as_str());
        let mut alter_stem = name.stem().clone();
        alter_stem.append(object);
        let total = str_byte_len(alter_stem.as_str());
        proof {
            lemma_encode_utf8_concat(name@.stem, object@);
        }
        let res = Res::new(orig, alter_stem, (0, 0), (a, total));
        proof {
            assert(res@ =~= insert_tail_one(names@[idx as int]@, object@));
        }
        results.push(res);
        idx += 1;
    }
    Box::new(results)
}

/// The result of `remove` on one name: the first `n` characters of the stem
/// are dropped, and the trim range covers their bytes.
pub open spec fn remove_one(name: FilenameV, n: int) -> ResV {
    ResV {
        orig: name,
        alter: FilenameV { stem: name.stem.skip(n), ext: name.ext },
        trim_range: (0, byte_len(name.stem.take(n)) as int),
        insert_range: (0, 0),
    }
}

/// Drops the first `n` characters of every stem. Every stem must have at
/// least `n` characters.
pub fn remove(targets: Box<Vec<Filename>>, n: usize) -> (r: Box<Vec<Res>>)
    requires
        forall|i: int| 0 <= i < targets@.len() ==> n <= (#[trigger] targets@[i]@).stem.len(),
    ensures
        r@.len() == targets@.len(),
        forall|i: int|
            0 <= i < targets@.len() ==> r@[i]@ == remove_one(#[trigger] targets@[i]@, n as int),
{
    let names: Vec<Filename> = *targets;
    let cnt = names.len();
    let mut results: Vec<Res> = Vec::new();
    let mut idx: usize = 0;
    while idx < cnt
        invariant
            names@ == targets@,
            cnt == names@.len(),
            idx <= cnt,
            results@.len() == idx,
            forall|i: int| 0 <= i < cnt ==> n <= (#[trigger] names@[i]@).stem.len(),
            forall|i: int|
                0 <= i < idx ==> results@[i]@ == remove_one(#[trigger] names@[i]@, n as int),
        decreases cnt - idx,
    {
        let name = &names[idx];
        let orig = name.clone();
        let stem = name.stem().as_str();
        let clen = stem.unicode_len();
        let suffix = stem.substring_char(n, clen);
        proof {
            assert(stem@ =~= stem@.take(n as int) + stem@.skip(n as int));
            lemma_encode_utf8_concat(stem@.take(n as int), stem@.skip(n as int));
            assert(suffix@ == stem@.skip(n as int));
            lemma_full_of_byte_len(name@);
        }
        let idx_b = str_byte_len(stem) - str_byte_len(suffix);
        let alter_stem = String::from_str(suffix);
        let res = Res::new(orig, alter_stem, (0, idx_b), (0, 0));
        proof {
            assert(res@ =~= remove_one(names@[idx as int]@, n as int));
        }
        results.push(res);
        idx += 1;
    }
    Box::new(results)
}

/// The result of `remove_tail` on one name: the last `n` characters of the
/// stem are dropped, and the trim range covers their bytes.
pub open spec fn remove_tail_one(name: FilenameV, n: int) -> ResV {
    ResV {
        orig: name,
        alter: FilenameV { stem: name.stem.take(name.stem.len() - n), ext: name.ext },
        trim_range: (
            byte_len(name.stem.take(name.stem.len() - n)) as int,
            byte_len(name.stem) as int,
        ),
        insert_range: (0, 0),
    }
}

/// Drops the last `n` characters of every stem. Every stem must have at
/// least `n` characters.
pub fn remove_tail(targets: Box<Vec<Filename>>, n: usize) -> (r: Box<Vec<Res>>)
    requires
        forall|i: int| 0 <= i < targets@.len() ==> n <= (#[trigger] targets@[i]@).stem.len(),
    ensures
        r@.len() == targets@.len(),
        forall|i: int|
            0 <= i < targets@.len() ==> r@[i]@ == remove_tail_one(#[trigger] targets@[i]@, n as int),
{
    let names: Vec<Filename> = *targets;
    let cnt = names.len();
    let mut results: Vec<Res> = Vec::new();
    let mut idx: usize = 0;
    while idx < cnt
        invariant
            names@ == targets@,
            cnt == names@.len(),
            idx <= cnt,
            results@.len() == idx,
            forall|i: int| 0 <= i < cnt ==> n <= (#[trigger] names@[i]@).stem.len(),
            forall|i: int|
                0 <= i < idx ==> results@[i]@ == remove_tail_one(#[trigger] names@[i]@, n as int),
        decreases cnt - idx,
    {
        let name = &names[idx];
        let orig = name.clone();
        let stem = name.stem().as_str();
        let clen = stem.unicode_len();
        let keep = clen - n;
        let prefix = stem.substring_char(0, keep);
        proof {
            assert(stem@ =~= stem@.take(keep as int) + stem@.skip(keep as int));
            lemma_encode_utf8_concat(stem@.take(keep as int), stem@.skip(keep as int));
            assert(prefix@ == stem@.take(keep as int));
            lemma_full_of_byte_len(name@);
        }
        let idx_b = str_byte_len(prefix);
        let stem_b = str_byte_len(stem);
        let alter_stem = String::from_str(prefix);
        let res = Res::new(orig, alter_stem, (idx_b, stem_b), (0, 0));
        proof {
            assert(res@ =~= remove_tail_one(names@[idx as int]@, n as int));
        }
        results.push(res);
        idx += 1;
    }
    Box::new(results)
}

/// The spec-level values of a sequence of filenames.
pub open spec fn views_of(s: Seq<Filename>) -> Seq<FilenameV> {
    s.map_values(|f: Filename| f@)
}

/// The spec-level values of a sequence of rename results.
pub open spec fn res_views_of(s: Seq<Res>) -> Seq<ResV> {
    s.map_values(|r: Res| r@)
}

/// The result of `replace` on one name: the first match of the pattern in
/// the stem is replaced by the given text, or nothing when the pattern does
/// not match.
pub open spec fn replace_one(name: FilenameV, pat: Seq<char>, obj: Seq<char>) -> Option<ResV> {
    match re_find(pat, name.stem) {
        Some(m) => Some(
            ResV {
                orig: name,
                alter: FilenameV {
                    stem: prefix_to(name.stem, m.0) + obj + suffix_from(name.stem, m.1),
                    ext: name.ext,
                },
                trim_range: m,
                insert_range: (m.0, m.0 + byte_len(obj)),
            },
        ),
        None => None,
    }
}

/// The results of `replace` over a whole filename sequence, in order, the
/// names without a match left out.
pub open spec fn replace_list(names: Seq<FilenameV>, pat: Seq<char>, obj: Seq<char>) -> Seq<ResV>
    decreases names.len(),
{
    if names.len() == 0 {
        Seq::empty()
    } else {
        let rest = replace_list(names.drop_last(), pat, obj);
        match replace_one(names.last(), pat, obj) {
            Some(r) => rest.push(r),
            None => rest,
        }
    }
}

/// Replaces the first match of the pattern in every stem by the given text.
/// Names in which the pattern does not match are left out of the result; a
/// pattern that does not compile fails the whole batch.
pub fn replace(targets: Box<Vec<Filename>>, pattern: &str, object: &str) -> (r: Result<
    Box<Vec<Res>>,
    RenameError,
>)
    ensures
        r is Ok <==> re_valid(pattern@),
        r matches Err(e) ==> e == RenameError::BadPattern,
        r matches Ok(rs) ==> res_views_of(rs@) == replace_list(
            views_of(targets@),
            pattern@,
            object@,
        ),
{
    if !pattern_valid(pattern) {
        return Err(RenameError::BadPattern);
    }
    let names: Vec<Filename> = *targets;
    let cnt = names.len();
    let mut results: Vec<Res> = Vec::new();
    let mut idx: usize = 0;
    proof {
        assert(views_of(names@).take(0) =~= Seq::<FilenameV>::empty());
        assert(res_views_of(results@) =~= Seq::<ResV>::empty());
    }
    while idx < cnt
        invariant
            re_valid(pattern@),
            names@ == targets@,
            cnt == names@.len(),
            idx <= cnt,
            res_views_of(results@) == replace_list(
                views_of(names@).take(idx as int),
                pattern@,
                object@,
            ),
        decreases cnt - idx,
    {
        let name = &names[idx];
        let stem = name.stem().as_str();
        proof {
            assert(views_of(names@).take(idx + 1).drop_last() =~= views_of(names@).take(
                idx as int,
            ));
            assert(views_of(names@).take(idx + 1).last() == names@[idx as int]@);
        }
        match find_first(pattern, stem) {
            None => {
                proof {
                    assert(replace_one(names@[idx as int]@, pattern@, object@) is None);
                    assert(res_views_of(results@) == replace_list(
                        views_of(names@).take(idx + 1),
                        pattern@,
                        object@,
                    ));
                }
            },
            Some(m) => {
                let a = m.0;
                let b = m.1;
                let (head, _mid, tail) = split_span(stem, a, b);
                let orig = name.clone();
                let mut alter_stem = String::from_str(head);
                alter_stem.append(object);
                alter_stem.append(tail);
                proof {
                    lemma_encode_utf8_concat(head@ + object@, tail@);
                    lemma_encode_utf8_concat(head@, object@);
                    lemma_full_of_byte_len(name@);
                }
                // the built stem's byte length bounds the insert offsets,
                // so the sum below cannot overflow
                let alter_b = str_byte_len(alter_stem.as_str());
                let ob = str_byte_len(object);
                let ir_end = a + ob;
                let res = Res::new(orig, alter_stem, (a, b), (a, ir_end));
                proof {
                    assert(res@ =~= replace_one(names@[idx as int]@, pattern@, object@)->Some_0);
                    assert(res_views_of(results@.push(res)) =~= res_views_of(results@).push(res@));
                    assert(res_views_of(results@).push(res@) == replace_list(
                        views_of(names@).take(idx + 1),
                        pattern@,
                        object@,
                    ));
                }
                results.push(res);
            },
        }
        idx += 1;
    }
    proof {
        assert(views_of(names@).take(cnt as int) =~= views_of(names@));
    }
    Ok(Box::new(results))
}

/// The date-token pattern of `sp2`: a year 2010-2029 date in
/// `YYYY-MM-DD` shape, with any trailing underscores.
pub open spec fn sp2_pattern() -> Seq<char> {
    "20[12][0-9]-\\d{2}-\\d{2}_*"@
}

/// The result of `sp2` on one name: the first ten characters of the
/// matched token are read at fixed positions as year, month and day, the
/// literal `_ss` is appended, and any trailing underscores of the match are
/// discarded; a name without a match, or with a match shorter than the ten
/// characters the fixed positions need, yields nothing.
pub open spec fn sp2_one(name: FilenameV) -> Option<ResV> {
    match re_find(sp2_pattern(), name.stem) {
        Some(m) => {
            let tok = mid_of(name.stem, m.0, m.1);
            if tok.len() < 10 {
                None
            } else {
                let newtok = tok.subrange(0, 4) + tok.subrange(5, 7) + tok.subrange(8, 10)
                    + "_ss"@;
                Some(
                    ResV {
                        orig: name,
                        alter: FilenameV {
                            stem: prefix_to(name.stem, m.0) + newtok + suffix_from(name.stem, m.1),
                            ext: name.ext,
                        },
                        trim_range: m,
                        insert_range: (m.0, m.0 + 11),
                    },
                )
            }
        },
        None => None,
    }
}

/// The results of `sp2` over a whole filename sequence, in order, the
/// names it yields nothing for left out.
pub open spec fn sp2_list(names: Seq<FilenameV>) -> Seq<ResV>
    decreases names.len(),
{
    if names.len() == 0 {
        Seq::empty()
    } else {
        let rest = sp2_list(names.drop_last());
        match sp2_one(names.last()) {
            Some(r) => rest.push(r),
            None => rest,
        }
    }
}

/// Reformats an embedded `YYYY-MM-DD` date in every stem to `YYYYMMDD_ss`.
/// Names without a date-shaped substring are left out of the result.
pub fn sp2(targets: Box<Vec<Filename>>) -> (r: Result<Box<Vec<Res>>, RenameError>)
    ensures
        r is Ok <==> re_valid(sp2_pattern()),
        r matches Err(e) ==> e == RenameError::BadPattern,
        r matches Ok(rs) ==> res_views_of(rs@) == sp2_list(views_of(targets@)),
{
    let pat = "20[12][0-9]-\\d{2}-\\d{2}_*";
    if !pattern_valid(pat) {
        return Err(RenameError::BadPattern);
    }
    let names: Vec<Filename> = *targets;
    let cnt = names.len();
    let mut results: Vec<Res> = Vec::new();
    let mut idx: usize = 0;
    proof {
        assert(views_of(names@).take(0) =~= Seq::<FilenameV>::empty());
        assert(res_views_of(results@) =~= Seq::<ResV>::empty());
    }
    while idx < cnt
        invariant
            pat@ == sp2_pattern(),
            re_valid(sp2_pattern()),
            names@ == targets@,
            cnt == names@.len(),
            idx <= cnt,
            res_views_of(results@) == sp2_list(views_of(names@).take(idx as int)),
        decreases cnt - idx,
    {
        let name = &names[idx];
        let stem = name.stem().as_str();
        proof {
            assert(views_of(names@).take(idx + 1).drop_last() =~= views_of(names@).take(
                idx as int,
            ));
            assert(views_of(names@).take(idx + 1).last() == names@[idx as int]@);
        }
        match find_first(pat, stem) {
            None => {
                proof {
                    assert(res_views_of(results@) == sp2_list(views_of(names@).take(idx + 1)));
                }
            },
            Some(m) => {
                let a = m.0;
                let b = m.1;
                let (head, tok, tail) = split_span(stem, a, b);
                let toklen = tok.unicode_len();
                if toklen < 10 {
                    proof {
                        assert(sp2_one(names@[idx as int]@) is None);
                        assert(res_views_of(results@) == sp2_list(
                            views_of(names@).take(idx + 1),
                        ));
                    }
                } else {
                    let y = tok.substring_char(0, 4);
                    let mo = tok.substring_char(5, 7);
                    let d = tok.substring_char(8, 10);
                    let mut newtok = String::from_str(y);
                    newtok.append(mo);
                    newtok.append(d);
                    newtok.append("_ss");
                    let orig = name.clone();
                    let mut alter_stem = String::from_str(head);
                    alter_stem.append(newtok.as_str());
                    alter_stem.append(tail);
                    proof {
                        reveal_strlit("_ss");
                        lemma_encode_utf8_concat(head@ + newtok@, tail@);
                        lemma_encode_utf8_concat(head@, newtok@);
                        lemma_byte_len_at_least_char_count(newtok@);
                        lemma_full_of_byte_len(name@);
                    }
                    // the built stem's byte length bounds the insert
                    // offsets, so the sum below cannot overflow
                    let alter_b = str_byte_len(alter_stem.as_str());
                    let ir_end = a + 11;
                    let res = Res::new(orig, alter_stem, (a, b), (a, ir_end));
                    proof {
                        assert(res@ =~= sp2_one(names@[idx as int]@)->Some_0);
                        assert(res_views_of(results@.push(res)) =~= res_views_of(results@).push(
                            res@,
                        ));
                        assert(res_views_of(results@).push(res@) == sp2_list(
                            views_of(names@).take(idx + 1),
                        ));
                    }
                    results.push(res);
                }
            },
        }
        idx += 1;
    }
    proof {
        assert(views_of(names@).take(cnt as int) =~= views_of(names@));
    }
    Ok(Box::new(results))
}

/// The date-token pattern of `sp`: `YYYY年M月D日` with a year 20xx, and any
/// trailing digits or underscores.
pub open spec fn sp_pattern() -> Seq<char> {
    "20[0-9]{2}\u{5e74}[0-9]+\u{6708}[0-9]+\u{65e5}[0-9_]*"@
}

/// The result of `sp` on one name: the located date token is reformatted
/// and put back between the text before and after it. A name without a
/// token, or with a malformed token, fails the whole batch.
pub open spec fn sp_one(name: FilenameV) -> Result<ResV, RenameError> {
    match re_find(sp_pattern(), name.stem) {
        None => Err(RenameError::NoDateToken),
        Some(m) => match reformat_spec(mid_of(name.stem, m.0, m.1)) {
            None => Err(RenameError::MalformedToken),
            Some(rf) => Ok(
                ResV {
                    orig: name,
                    alter: FilenameV {
                        stem: prefix_to(name.stem, m.0) + rf + suffix_from(name.stem, m.1),
                        ext: name.ext,
                    },
                    trim_range: m,
                    insert_range: (m.0, m.0 + byte_len(rf) as int),
                },
            ),
        },
    }
}

/// Reformats an embedded `YYYY年M月D日[H_MM]` date token in every stem. A
/// name without such a token, or with a token the reformatter rejects,
/// fails the whole batch with the first such name's error.
pub fn sp(targets: Box<Vec<Filename>>) -> (r: Result<Box<Vec<Res>>, RenameError>)
    ensures
        !re_valid(sp_pattern()) ==> r == Err::<Box<Vec<Res>>, RenameError>(RenameError::BadPattern),
        re_valid(sp_pattern()) ==> {
            &&& (r is Ok <==> forall|i: int|
                0 <= i < targets@.len() ==> (#[trigger] sp_one(targets@[i]@)) is Ok)
            &&& (r matches Ok(rs) ==> {
                &&& rs@.len() == targets@.len()
                &&& forall|i: int|
                    0 <= i < targets@.len() ==> rs@[i]@ == (#[trigger] sp_one(targets@[i]@))->Ok_0
            })
            &&& (r matches Err(e) ==> exists|i: int|
                {
                    &&& 0 <= i < targets@.len()
                    &&& #[trigger] sp_one(targets@[i]@) == Err::<ResV, RenameError>(e)
                    &&& forall|j: int| 0 <= j < i ==> sp_one(#[trigger] targets@[j]@) is Ok
                })
        },
{
    let pat = "20[0-9]{2}\u{5e74}[0-9]+\u{6708}[0-9]+\u{65e5}[0-9_]*";
    if !pattern_valid(pat) {
        return Err(RenameError::BadPattern);
    }
    let names: Vec<Filename> = *targets;
    let cnt = names.len();
    let mut results: Vec<Res> = Vec::new();
    let mut idx: usize = 0;
    while idx < cnt
        invariant
            pat@ == sp_pattern(),
            re_valid(sp_pattern()),
            names@ == targets@,
            cnt == names@.len(),
            idx <= cnt,
            results@.len() == idx,
            forall|i: int|
                0 <= i < idx ==> {
                    &&& (#[trigger] sp_one(names@[i]@)) is Ok
                    &&& results@[i]@ == sp_one(names@[i]@)->Ok_0
                },
        decreases cnt - idx,
    {
        let name = &names[idx];
        let stem = name.stem().as_str();
        match find_first(pat, stem) {
            None => {
                proof {
                    assert(sp_one(names@[idx as int]@) == Err::<ResV, RenameError>(
                        RenameError::NoDateToken,
                    ));
                }
                return Err(RenameError::NoDateToken);
            },
            Some(m) => {
                let a = m.0;
                let b = m.1;
                let (head, tok, tail) = split_span(stem, a, b);
                match reformat_time(tok) {
                    None => {
                        proof {
                            assert(sp_one(names@[idx as int]@) == Err::<ResV, RenameError>(
                                RenameError::MalformedToken,
                            ));
                        }
                        return Err(RenameError::MalformedToken);
                    },
                    Some(rf) => {
                        let orig = name.clone();
                        let mut alter_stem = String::from_str(head);
                        alter_stem.append(rf.as_str());
                        alter_stem.append(tail);
                        proof {
                            lemma_encode_utf8_concat(head@ + rf@, tail@);
                            lemma_encode_utf8_concat(head@, rf@);
                            lemma_full_of_byte_len(name@);
                        }
                        // the built stem's byte length bounds the insert
                        // offsets, so the sum below cannot overflow
                        let alter_b = str_byte_len(alter_stem.as_str());
                        let rf_b = str_byte_len(rf.as_str());
                        let res = Res::new(orig, alter_stem, (a, b), (a, a + rf_b));
                        proof {
                            assert(res@ =~= sp_one(names@[idx as int]@)->Ok_0);
                        }
                        results.push(res);
                    },
                }
            },
        }
        idx += 1;
    }
    Ok(Box::new(results))
}

/// Inserting text before a stem and then removing as many characters as
/// the text has restores the stem: `insert` and `remove` are structural
/// inverses at the boundary they create.
pub proof fn lemma_insert_then_remove(name: FilenameV, obj: Seq<char>)
    ensures
        remove_one(insert_one(name, obj).alter, obj.len() as int).alter.stem == name.stem,
        remove_one(insert_one(name, obj).alter, obj.len() as int).alter.ext == name.ext,
{
    assert((obj + name.stem).skip(obj.len() as int) =~= name.stem);
}

/// Removing as many characters as the stem has yields an empty stem, with
/// the trim range covering the whole stem.
pub proof fn lemma_remove_whole_stem(name: FilenameV, n: int)
    requires
        name.stem.len() == n,
    ensures
        remove_one(name, n).alter.stem == Seq::<char>::empty(),
        remove_one(name, n).trim_range == (0int, byte_len(name.stem) as int),
{
    assert(name.stem.skip(n) =~= Seq::<char>::empty());
    assert(name.stem.take(n) =~= name.stem);
}

/// Every operation preserves the extension: the altered name of each
/// result carries the original's extension verbatim.
pub proof fn lemma_extension_preserved(name: FilenameV, obj: Seq<char>, pat: Seq<char>, n: int)
    ensures
        insert_one(name, obj).alter.ext == insert_one(name, obj).orig.ext,
        insert_tail_one(name, obj).alter.ext == insert_tail_one(name, obj).orig.ext,
        remove_one(name, n).alter.ext == remove_one(name, n).orig.ext,
        remove_tail_one(name, n).alter.ext == remove_tail_one(name, n).orig.ext,
        replace_one(name, pat, obj) matches Some(r) ==> r.alter.ext == r.orig.ext,
        sp_one(name) matches Ok(r) ==> r.alter.ext == r.orig.ext,
        sp2_one(name) matches Some(r) ==> r.alter.ext == r.orig.ext,
{
}

} // verus!
