//! Validation of user-supplied text: names and descriptions are trimmed of
//! surrounding blank characters and held to configured length bounds.

use vstd::prelude::*;

verus! {

broadcast use vstd::string::axiom_spec_iter;

/// The blank characters stripped from both ends of a validated string:
/// the Unicode White_Space code points.
pub open spec fn is_space_char(c: char) -> bool {
    let x = c as int;
    ||| (0x09 <= x && x <= 0x0D)
    ||| x == 0x20
    ||| x == 0x85
    ||| x == 0xA0
    ||| x == 0x1680
    ||| (0x2000 <= x && x <= 0x200A)
    ||| x == 0x2028
    ||| x == 0x2029
    ||| x == 0x202F
    ||| x == 0x205F
    ||| x == 0x3000
}

/// The length in bytes of a text's UTF-8 encoding.
pub open spec fn byte_len(s: Seq<char>) -> int {
    vstd::utf8::encode_utf8(s).len() as int
}

/// Number of leading blank characters.
pub open spec fn leading_blanks(s: Seq<char>) -> int
    decreases s.len(),
{
    if s.len() == 0 || !is_space_char(s[0]) {
        0
    } else {
        1 + leading_blanks(s.drop_first())
    }
}

/// Number of trailing blank characters.
pub open spec fn trailing_blanks(s: Seq<char>) -> int
    decreases s.len(),
{
    if s.len() == 0 || !is_space_char(s.last()) {
        0
    } else {
        1 + trailing_blanks(s.drop_last())
    }
}

/// The string with leading and trailing blanks removed.
pub open spec fn trimmed_of(s: Seq<char>) -> Seq<char> {
    if leading_blanks(s) == s.len() {
        Seq::empty()
    } else {
        s.subrange(leading_blanks(s), s.len() - trailing_blanks(s))
    }
}

pub proof fn lemma_leading_blanks(s: Seq<char>)
    ensures
        0 <= leading_blanks(s) <= s.len(),
        forall|i: int| 0 <= i < leading_blanks(s) ==> is_space_char(#[trigger] s[i]),
        leading_blanks(s) < s.len() ==> !is_space_char(s[leading_blanks(s)]),
    decreases s.len(),
{
    if s.len() > 0 && is_space_char(s[0]) {
        lemma_leading_blanks(s.drop_first());
        assert forall|i: int| 0 <= i < leading_blanks(s) implies is_space_char(
            #[trigger] s[i],
        ) by {
            if i > 0 {
                assert(s.drop_first()[i - 1] == s[i]);
            }
        }
        if leading_blanks(s) < s.len() {
            assert(s.drop_first()[leading_blanks(s) - 1] == s[leading_blanks(s)]);
        }
    }
}

pub proof fn lemma_trailing_blanks(s: Seq<char>)
    ensures
        0 <= trailing_blanks(s) <= s.len(),
        forall|i: int| s.len() - trailing_blanks(s) <= i < s.len() ==> is_space_char(
            #[trigger] s[i],
        ),
        trailing_blanks(s) < s.len() ==> !is_space_char(s[s.len() - trailing_blanks(s) - 1]),
    decreases s.len(),
{
    if s.len() > 0 && is_space_char(s.last()) {
        lemma_trailing_blanks(s.drop_last());
        assert forall|i: int| s.len() - trailing_blanks(s) <= i < s.len() implies is_space_char(
            #[trigger] s[i],
        ) by {
            if i < s.len() - 1 {
                assert(s.drop_last()[i] == s[i]);
            }
        }
        if trailing_blanks(s) < s.len() {
            assert(s.drop_last()[s.len() - trailing_blanks(s) - 1] == s[s.len() - trailing_blanks(
                s,
            ) - 1]);
        }
    }
}

/// If some character is not blank, the trimmed range is proper.
pub proof fn lemma_trim_range(s: Seq<char>)
    ensures
        leading_blanks(s) < s.len() ==> leading_blanks(s) <= s.len() - trailing_blanks(s),
        leading_blanks(s) < s.len() ==> trailing_blanks(s) < s.len(),
{
    lemma_leading_blanks(s);
    lemma_trailing_blanks(s);
    if leading_blanks(s) < s.len() {
        let a = leading_blanks(s);
        if s.len() - trailing_blanks(s) <= a {
            assert(is_space_char(s[a]));
            assert(false);
        }
    }
}

/// Why a string or an interval was rejected.
#[derive(Clone, Copy, PartialEq, Eq, Structural, Debug)]
pub enum ValidationReason {
    TooShort { min: usize, actual: usize },
    TooLong { max: usize, actual: usize },
    InvalidInterval,
    InvalidThreshold,
}

/// A recoverable validation failure: which field was rejected, and why.
#[derive(Clone, Debug)]
pub struct ValidationError {
    pub field: String,
    pub reason: ValidationReason,
}

/// Relies on String::push: appends the given character to the end of the
/// string.
#[verifier::external_body]
fn push_char(s: &mut String, c: char)
    ensures
        final(s)@ == old(s)@.push(c),
{
    s.push(c)
}

/// The characters of a string slice, in order.
pub fn chars_of(s: &str) -> (r: Vec<char>)
    ensures
        r@ == s@,
{
    let mut v: Vec<char> = Vec::new();
    for c in it: s.chars()
        invariant
            it.seq() == s@,
            v@ == it.seq().take(it.index() as int),
    {
        proof {
            assert(it.seq().take(it.index() as int + 1) =~= it.seq().take(it.index() as int).push(
                it.seq()[it.index() as int],
            ));
        }
        v.push(c);
    }
    proof {
        assert(v@ =~= s@);
    }
    v
}

/// Builds a string from a range of a character vector.
fn string_of_range(v: &Vec<char>, from: usize, to: usize) -> (r: String)
    requires
        from <= to <= v@.len(),
    ensures
        r@ == v@.subrange(from as int, to as int),
{
    let mut r = String::new();
    let mut i: usize = from;
    while i < to
        invariant
            from <= i <= to <= v@.len(),
            r@ == v@.subrange(from as int, i as int),
        decreases to - i,
    {
        push_char(&mut r, v[i]);
        proof {
            assert(v@.subrange(from as int, i + 1 as int) =~= v@.subrange(
                from as int,
                i as int,
            ).push(v@[i as int]));
        }
        i = i + 1;
    }
    r
}

fn is_space(c: char) -> (r: bool)
    ensures
        r == is_space_char(c),
{
    let x = c as u32;
    (0x09 <= x && x <= 0x0D) || x == 0x20 || x == 0x85 || x == 0xA0 || x == 0x1680 || (0x2000 <= x
        && x <= 0x200A) || x == 0x2028 || x == 0x2029 || x == 0x202F || x == 0x205F || x == 0x3000
}

/// Trims leading and trailing blank characters.
pub fn trim_str(s: &str) -> (r: String)
    ensures
        r@ == trimmed_of(s@),
{
    let v = chars_of(s);
    let n = v.len();
    proof {
        lemma_leading_blanks(s@);
        lemma_trailing_blanks(s@);
        lemma_trim_range(s@);
    }
    let mut start: usize = 0;
    while start < n && is_space(v[start])
        invariant
            start <= n,
            n == s@.len(),
            v@ == s@,
            forall|i: int| 0 <= i < start ==> is_space_char(#[trigger] s@[i]),
            start <= leading_blanks(s@),
        decreases n - start,
    {
        start = start + 1;
        proof {
            lemma_leading_blanks(s@);
            if start > leading_blanks(s@) {
                assert(is_space_char(s@[leading_blanks(s@)]));
                assert(false);
            }
        }
    }
    proof {
        assert(start == leading_blanks(s@));
    }
    if start == n {
        let r = String::new();
        proof {
            assert(trimmed_of(s@) =~= Seq::<char>::empty());
        }
        return r;
    }
    let mut end: usize = n;
    while end > start && is_space(v[end - 1])
        invariant
            start <= end <= n,
            n == s@.len(),
            v@ == s@,
            start == leading_blanks(s@),
            start < n,
            forall|i: int| end <= i < n ==> is_space_char(#[trigger] s@[i]),
            n - end <= trailing_blanks(s@),
        decreases end,
    {
        end = end - 1;
        proof {
            lemma_trailing_blanks(s@);
            if n - end > trailing_blanks(s@) {
                assert(is_space_char(s@[s@.len() - trailing_blanks(s@) - 1]));
                assert(false);
            }
        }
    }
    proof {
        assert(end == s@.len() - trailing_blanks(s@));
    }
    string_of_range(&v, start, end)
}

/// Whether the trimmed form of `s` has an admissible length in bytes of
/// its UTF-8 encoding.
pub open spec fn trimmed_len_ok(s: Seq<char>, min: int, max: int) -> bool {
    min <= byte_len(trimmed_of(s)) <= max
}

/// Trims `string` and checks the trimmed length against `[min, max]`.
///
/// Returns the trimmed string exactly when the byte length of its UTF-8
/// encoding lies within the bounds, and otherwise reports which bound
/// failed for `name`.
pub fn validate_and_trim_str(string: String, min: usize, max: usize, name: &str) -> (r: Result<
    String,
    ValidationError,
>)
    requires
        min <= max,
    ensures
        match r {
            Ok(t) => trimmed_len_ok(string@, min as int, max as int) && t@ == trimmed_of(string@),
            Err(e) => !trimmed_len_ok(string@, min as int, max as int) && e.field@ == name@
                && (if byte_len(trimmed_of(string@)) > max {
                e.reason == (ValidationReason::TooLong {
                    max,
                    actual: byte_len(trimmed_of(string@)) as usize,
                })
            } else {
                e.reason == (ValidationReason::TooShort {
                    min,
                    actual: byte_len(trimmed_of(string@)) as usize,
                })
            }),
        },
{
    let trimmed = trim_str(string.as_str());
    let bytes = trimmed.as_str().as_bytes();
    proof {
        vstd::slice::axiom_spec_len(bytes);
    }
    let trimmed_len = bytes.len();
    if trimmed_len > max {
        Err(ValidationError {
            field: name.to_owned(),
            reason: ValidationReason::TooLong { max, actual: trimmed_len },
        })
    } else if trimmed_len < min {
        Err(ValidationError {
            field: name.to_owned(),
            reason: ValidationReason::TooShort { min, actual: trimmed_len },
        })
    } else {
        Ok(trimmed)
    }
}

} // verus!
