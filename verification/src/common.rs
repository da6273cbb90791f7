//! Small shared utilities: the remote-call rejection taxonomy, conversion
//! of call results into it, and parsing of a numeric prefix out of a
//! display-formatted value.

use vstd::prelude::*;

use crate::validation::{is_space_char, leading_blanks, lemma_leading_blanks, lemma_trailing_blanks, lemma_trim_range, trailing_blanks, trimmed_of};

verus! {

/// Why a remote call was rejected, as the platform reports it (code 0 means
/// no error; codes above the known range are unknown).
#[derive(Clone, Copy, PartialEq, Eq, Structural, Debug)]
pub enum CandidRejectionCode {
    NoError,
    SysFatal,
    SysTransient,
    DestinationInvalid,
    CanisterReject,
    CanisterError,
    Unknown,
}

/// The rejection code a numeric platform code stands for.
pub open spec fn spec_rejection_code_of(code: u32) -> CandidRejectionCode {
    if code == 0 {
        CandidRejectionCode::NoError
    } else if code == 1 {
        CandidRejectionCode::SysFatal
    } else if code == 2 {
        CandidRejectionCode::SysTransient
    } else if code == 3 {
        CandidRejectionCode::DestinationInvalid
    } else if code == 4 {
        CandidRejectionCode::CanisterReject
    } else if code == 5 {
        CandidRejectionCode::CanisterError
    } else {
        CandidRejectionCode::Unknown
    }
}

impl CandidRejectionCode {
    /// Converts the platform's numeric rejection code.
    pub fn from_common(rej_code: u32) -> (r: Self)
        ensures
            r == spec_rejection_code_of(rej_code),
    {
        if rej_code == 0 {
            CandidRejectionCode::NoError
        } else if rej_code == 1 {
            CandidRejectionCode::SysFatal
        } else if rej_code == 2 {
            CandidRejectionCode::SysTransient
        } else if rej_code == 3 {
            CandidRejectionCode::DestinationInvalid
        } else if rej_code == 4 {
            CandidRejectionCode::CanisterReject
        } else if rej_code == 5 {
            CandidRejectionCode::CanisterError
        } else {
            CandidRejectionCode::Unknown
        }
    }
}

/// A remote call's outcome with the rejection taxonomy applied.
pub type CandidCallResult<T> = Result<T, (CandidRejectionCode, String)>;

/// Conversion into a transferable form of a value.
pub trait ToCandidType<T> {
    fn to_candid_type(self) -> T;
}

impl<T> ToCandidType<CandidCallResult<T>> for Result<T, (u32, String)> {
    fn to_candid_type(self) -> (r: CandidCallResult<T>)
        ensures
            match self {
                Ok(t) => r matches Ok(t2) && t2 == t,
                Err((code, msg)) => r matches Err((c2, m2)) && c2 == spec_rejection_code_of(code)
                    && m2 == msg,
            },
    {
        match self {
            Ok(t) => Ok(t),
            Err((rej_code, string)) => Err((CandidRejectionCode::from_common(rej_code), string)),
        }
    }
}

pub open spec fn is_digit_char(c: char) -> bool {
    '0' <= c && c <= '9'
}

pub open spec fn digit_val(c: char) -> int {
    c as int - '0' as int
}

/// The number a digit string denotes, most significant digit first.
pub open spec fn digits_value(s: Seq<char>) -> int
    decreases s.len(),
{
    if s.len() == 0 {
        0
    } else {
        digits_value(s.drop_last()) * 10 + digit_val(s.last())
    }
}

pub open spec fn all_digits(s: Seq<char>) -> bool {
    forall|i: int| 0 <= i < s.len() ==> is_digit_char(#[trigger] s[i])
}

/// The part of the text before the first colon.
pub open spec fn before_colon(s: Seq<char>) -> Seq<char> {
    if exists|i: int| 0 <= i < s.len() && #[trigger] s[i] == ':' {
        s.take(choose|i: int| 0 <= i < s.len() && #[trigger] s[i] == ':' && forall|j: int|
            0 <= j < i ==> s[j] != ':')
    } else {
        s
    }
}

/// Parses the number written before the first colon, ignoring surrounding
/// blanks: the digits' value when the trimmed prefix is one or more digits
/// that fit the machine word, and nothing otherwise.
#[verifier::loop_isolation(false)]
#[verifier::rlimit(50)]
pub fn parse_idl_number(x: String) -> (r: Option<usize>)
    ensures
        match r {
            Some(v) => {
                let t = trimmed_of(before_colon(x@));
                t.len() > 0 && all_digits(t) && v == digits_value(t) && digits_value(t)
                    <= usize::MAX
            },
            None => {
                let t = trimmed_of(before_colon(x@));
                t.len() == 0 || !all_digits(t) || digits_value(t) > usize::MAX
            },
        },
{
    let chars = crate::validation::chars_of(x.as_str());
    let n = chars.len();
    let mut colon: usize = 0;
    while colon < n && chars[colon] != ':'
        invariant
            colon <= n,
            forall|j: int| 0 <= j < colon ==> x@[j] != ':',
        decreases n - colon,
    {
        colon = colon + 1;
    }
    let ghost seg = before_colon(x@);
    proof {
        if colon < n {
            assert(x@[colon as int] == ':');
            let w = choose|w: int|
                0 <= w < x@.len() && #[trigger] x@[w] == ':' && forall|j: int|
                    0 <= j < w ==> x@[j] != ':';
            assert(w == colon as int);
            assert(seg == x@.take(colon as int));
        } else {
            if exists|w: int| 0 <= w < x@.len() && #[trigger] x@[w] == ':' {
                let w = choose|w: int| 0 <= w < x@.len() && #[trigger] x@[w] == ':';
                assert(false);
            }
            assert(seg == x@);
            assert(x@.take(colon as int) =~= x@);
        }
        assert(seg == x@.take(colon as int));
    }
    // trim the segment
    proof {
        lemma_leading_blanks(seg);
        lemma_trailing_blanks(seg);
        lemma_trim_range(seg);
    }
    let mut start: usize = 0;
    while start < colon && is_space_exec(chars[start])
        invariant
            start <= colon <= n,
            n == x@.len(),
            chars@ == x@,
            seg == x@.take(colon as int),
            forall|j: int| 0 <= j < start ==> is_space_char(#[trigger] seg[j]),
            start <= leading_blanks(seg),
        decreases colon - start,
    {
        start = start + 1;
        proof {
            if start > leading_blanks(seg) {
                assert(is_space_char(seg[leading_blanks(seg)]));
                assert(false);
            }
        }
    }
    proof {
        if start < colon && start < leading_blanks(seg) {
            assert(seg[start as int] == x@[start as int]);
            assert(is_space_char(seg[start as int]));
            assert(false);
        }
        assert(start == leading_blanks(seg));
    }
    if start == colon {
        proof {
            assert(trimmed_of(seg) =~= Seq::<char>::empty());
        }
        return None;
    }
    let mut stop: usize = colon;
    while stop > start && is_space_exec(chars[stop - 1])
        invariant
            start <= stop <= colon,
            n == x@.len(),
            chars@ == x@,
            seg == x@.take(colon as int),
            start == leading_blanks(seg),
            start < colon,
            forall|j: int| stop <= j < colon ==> is_space_char(#[trigger] seg[j]),
            colon - stop <= trailing_blanks(seg),
        decreases stop,
    {
        stop = stop - 1;
        proof {
            if colon - stop > trailing_blanks(seg) {
                assert(is_space_char(seg[seg.len() - trailing_blanks(seg) - 1]));
                assert(false);
            }
        }
    }
    proof {
        if stop == start {
            assert(is_space_char(seg[start as int]));
            assert(!is_space_char(seg[leading_blanks(seg)]));
            assert(false);
        }
        if stop > seg.len() - trailing_blanks(seg) {
            assert(seg[stop as int - 1] == x@[stop as int - 1]);
            assert(is_space_char(seg[stop as int - 1]));
            assert(false);
        }
        assert(stop == seg.len() - trailing_blanks(seg));
        assert(trimmed_of(seg) == seg.subrange(start as int, stop as int));
    }
    let ghost t = trimmed_of(seg);
    // parse the digits
    let mut value: usize = 0;
    let mut k: usize = start;
    while k < stop
        invariant
            start <= k <= stop,
            n == x@.len(),
            chars@ == x@,
            t == trimmed_of(seg),
            t == seg.subrange(start as int, stop as int),
            seg == x@.take(colon as int),
            start < stop <= colon,
            all_digits(t.take(k - start)),
            value == digits_value(t.take(k - start)),
            digits_value(t.take(k - start)) <= usize::MAX,
        decreases stop - k,
    {
        let c = chars[k];
        proof {
            assert(t[k - start] == x@[k as int]);
        }
        if !('0' <= c && c <= '9') {
            proof {
                assert(!all_digits(t));
            }
            return None;
        }
        let d = (c as u32 - '0' as u32) as usize;
        let next = match value.checked_mul(10) {
            Some(v10) => match v10.checked_add(d) {
                Some(v) => v,
                None => {
                    proof {
                        lemma_digits_prefix_exceeds(t, k - start);
                    }
                    return None;
                },
            },
            None => {
                proof {
                    lemma_digits_prefix_exceeds(t, k - start);
                }
                return None;
            },
        };
        proof {
            assert(t.take(k - start + 1).drop_last() =~= t.take(k - start));
            assert(t.take(k - start + 1).last() == t[k - start]);
        }
        value = next;
        k = k + 1;
    }
    proof {
        assert(t.take(stop - start) =~= t);
    }
    Some(value)
}

/// A digit extension never shrinks the denoted value, so once a prefix with
/// one more digit exceeds the machine word, the whole string does.
pub proof fn lemma_digits_prefix_exceeds(t: Seq<char>, k: int)
    requires
        0 <= k < t.len(),
        all_digits(t.take(k)),
        is_digit_char(t[k]),
        digits_value(t.take(k)) * 10 + digit_val(t[k]) > usize::MAX,
    ensures
        all_digits(t) ==> digits_value(t) > usize::MAX,
{
    if all_digits(t) {
        assert(t.take(k + 1).drop_last() =~= t.take(k));
        assert(t.take(k + 1).last() == t[k]);
        lemma_digits_monotone(t, k + 1);
    }
}

/// The value of a digit string is at least the value of any of its
/// prefixes.
pub proof fn lemma_digits_monotone(t: Seq<char>, k: int)
    requires
        0 <= k <= t.len(),
        all_digits(t),
    ensures
        digits_value(t) >= digits_value(t.take(k)),
        digits_value(t) >= 0,
        digits_value(t.take(k)) >= 0,
    decreases t.len() - k,
{
    if k == t.len() {
        assert(t.take(k) =~= t);
        lemma_digits_nonneg(t);
        lemma_digits_nonneg(t.take(k));
    } else {
        lemma_digits_monotone(t, k + 1);
        assert(t.take(k + 1).drop_last() =~= t.take(k));
        assert(t.take(k + 1).last() == t[k]);
        lemma_digits_nonneg(t.take(k));
        assert(digits_value(t.take(k + 1)) == digits_value(t.take(k)) * 10 + digit_val(t[k]));
        assert(digits_value(t.take(k)) * 10 >= digits_value(t.take(k))) by (nonlinear_arith)
            requires
                digits_value(t.take(k)) >= 0,
        ;
        assert(digit_val(t[k]) >= 0);
    }
}

pub proof fn lemma_digits_nonneg(t: Seq<char>)
    requires
        all_digits(t),
    ensures
        digits_value(t) >= 0,
    decreases t.len(),
{
    if t.len() > 0 {
        assert(all_digits(t.drop_last()));
        lemma_digits_nonneg(t.drop_last());
        assert(digits_value(t.drop_last()) * 10 >= 0) by (nonlinear_arith)
            requires
                digits_value(t.drop_last()) >= 0,
        ;
        assert(is_digit_char(t.last()));
    }
}

fn is_space_exec(c: char) -> (r: bool)
    ensures
        r == is_space_char(c),
{
    let x = c as u32;
    (0x09 <= x && x <= 0x0D) || x == 0x20 || x == 0x85 || x == 0xA0 || x == 0x1680 || (0x2000 <= x
        && x <= 0x200A) || x == 0x2028 || x == 0x2029 || x == 0x202F || x == 0x205F || x == 0x3000
}

} // verus!
