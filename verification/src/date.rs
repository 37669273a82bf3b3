//! The date-token reformatter used by the specialized operations.
//!
//! A token of the shape `YYYY年M月D日` with an optional `H_MM` tail is turned
//! into `YYYYMMDD` or `YYYYMMDD_HMM`, the month, day and hour padded to two
//! digits. A token that lacks one of the separators, or whose month, day or
//! hour field is empty or wider than two characters, is malformed.

use vstd::prelude::*;
use vstd::string::StrSliceExecFns;
use vstd::string::StringExecFns;

use crate::util::contains_char;
use crate::util::find_char;
use crate::util::first_index_of;
use crate::util::lemma_first_index_of_in_range;

verus! {

/// True when a month, day or hour field has one or two characters, the only
/// widths the reformatter accepts.
pub open spec fn two_digit_ok(s: Seq<char>) -> bool {
    1 <= s.len() <= 2
}

/// Pads a one-character field with a leading zero.
pub open spec fn pad2(s: Seq<char>) -> Seq<char> {
    if s.len() == 1 {
        seq!['0'] + s
    } else {
        s
    }
}

/// The text before the first occurrence of `sep`.
pub open spec fn before_sep(s: Seq<char>, sep: char) -> Seq<char>
    recommends
        contains_char(s, sep),
{
    s.subrange(0, first_index_of(s, sep))
}

/// The text after the first occurrence of `sep`.
pub open spec fn after_sep(s: Seq<char>, sep: char) -> Seq<char>
    recommends
        contains_char(s, sep),
{
    s.subrange(first_index_of(s, sep) + 1, s.len() as int)
}

/// What reformatting a date token yields: the reformatted token, or nothing
/// when the token is malformed.
pub open spec fn reformat_spec(t: Seq<char>) -> Option<Seq<char>> {
    if !contains_char(t, '年') {
        None
    } else {
        let year = before_sep(t, '年');
        let r1 = after_sep(t, '年');
        if !contains_char(r1, '月') {
            None
        } else {
            let month = before_sep(r1, '月');
            let r2 = after_sep(r1, '月');
            if !contains_char(r2, '日') {
                None
            } else {
                let day = before_sep(r2, '日');
                let r3 = after_sep(r2, '日');
                if !two_digit_ok(month) || !two_digit_ok(day) {
                    None
                } else if !contains_char(r3, '_') {
                    Some(year + pad2(month) + pad2(day))
                } else {
                    let hour = before_sep(r3, '_');
                    let minute = after_sep(r3, '_');
                    if !two_digit_ok(hour) {
                        None
                    } else {
                        Some(year + pad2(month) + pad2(day) + seq!['_'] + pad2(hour) + minute)
                    }
                }
            }
        }
    }
}

/// Pads a one- or two-character field to two characters with a leading zero.
fn pad_two(s: &str) -> (r: String)
    requires
        two_digit_ok(s@),
    ensures
        r@ == pad2(s@),
{
    if s.unicode_len() == 1 {
        let mut p = String::from_str("0");
        p.append(s);
        proof {
            reveal_strlit("0");
            assert(p@ =~= pad2(s@));
        }
        p
    } else {
        String::from_str(s)
    }
}

/// Reformats a date token, or reports that it is malformed.
pub fn reformat_time(token: &str) -> (r: Option<String>)
    ensures
        r is Some <==> reformat_spec(token@) is Some,
        r matches Some(s) ==> reformat_spec(token@) == Some(s@),
{
    let clen = token.unicode_len();
    let i1 = match find_char(token, '年') {
        Some(i) => i,
        None => {
            return None;
        },
    };
    let year = token.substring_char(0, i1);
    let r1 = token.substring_char(i1 + 1, clen);
    proof {
        assert(year@ == before_sep(token@, '年'));
        assert(r1@ == after_sep(token@, '年'));
    }
    let r1len = r1.unicode_len();
    let i2 = match find_char(r1, '月') {
        Some(i) => i,
        None => {
            return None;
        },
    };
    let month = r1.substring_char(0, i2);
    let r2 = r1.substring_char(i2 + 1, r1len);
    let r2len = r2.unicode_len();
    let i3 = match find_char(r2, '日') {
        Some(i) => i,
        None => {
            return None;
        },
    };
    let day = r2.substring_char(0, i3);
    let r3 = r2.substring_char(i3 + 1, r2len);

    let mlen = month.unicode_len();
    let dlen = day.unicode_len();
    if mlen == 0 || mlen > 2 || dlen == 0 || dlen > 2 {
        return None;
    }
    let mut out = String::from_str(year);
    let pm = pad_two(month);
    out.append(pm.as_str());
    let pd = pad_two(day);
    out.append(pd.as_str());
    match find_char(r3, '_') {
        None => {
            proof {
                assert(out@ =~= year@ + pad2(month@) + pad2(day@));
            }
            Some(out)
        },
        Some(i4) => {
            let r3len = r3.unicode_len();
            let hour = r3.substring_char(0, i4);
            let minute = r3.substring_char(i4 + 1, r3len);
            let hlen = hour.unicode_len();
            if hlen == 0 || hlen > 2 {
                return None;
            }
            out.append("_");
            let ph = pad_two(hour);
            out.append(ph.as_str());
            out.append(minute);
            proof {
                reveal_strlit("_");
                assert(out@ =~= year@ + pad2(month@) + pad2(day@) + seq!['_'] + pad2(hour@)
                    + minute@);
            }
            Some(out)
        },
    }
}

} // verus!
