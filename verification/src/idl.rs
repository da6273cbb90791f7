//! A model of IDL text values and the selector walk over them: a dotted
//! selector path descends through records (by field name, field hash or
//! raw field id), vectors (by index, or by the first extreme element) and
//! variants. Parsing the textual form and printing the selected value are
//! I/O-side concerns of the shell around this walk.

use vstd::prelude::*;
use vstd::string::StringSliceAdditionalSpecFns;

use crate::common::{all_digits, digit_val, digits_value, is_digit_char};
use crate::common::{lemma_digits_monotone, lemma_digits_prefix_exceeds};
use crate::validation::chars_of;

verus! {

/// How a record or variant field is labelled.
#[derive(Clone, Debug)]
pub enum IdlLabel {
    Id(u32),
    Named(String),
    Unnamed(u32),
}

/// One labelled field.
#[derive(Debug)]
pub struct IdlField {
    pub id: IdlLabel,
    pub val: IdlValue,
}

/// An IDL text value, modelled with plain components: numeric leaves carry
/// their numeric value directly.
#[derive(Debug)]
pub enum IdlValue {
    Null,
    Number(u64),
    Text(String),
    Record(Vec<IdlField>),
    Vector(Vec<IdlValue>),
    Variant(Box<IdlField>),
}

/// The arguments of the IDL text tool.
#[derive(Debug)]
pub struct CandidOpts {
    pub command: Command,
}

/// Which of the tool's operations is requested.
#[derive(Debug)]
pub enum Command {
    Encode(CandidEncodeOpts),
    Get(CandidGetOpts),
}

/// Arguments of the encode operation: what to encode, the output mode, and
/// whether the argument names a file or holds the text itself.
#[derive(Debug)]
pub struct CandidEncodeOpts {
    pub argument: String,
    pub mode: String,
    pub input_kind: String,
}

/// Arguments of the selection operation: the text to decode and the dotted
/// selector path.
#[derive(Debug)]
pub struct CandidGetOpts {
    pub argument: String,
    pub selector: String,
}

/// Why a selector walk failed.
#[derive(Clone, Copy, PartialEq, Eq, Structural, Debug)]
pub enum IdlSelectorError {
    MissingSelector,
    InvalidStartIndex,
    SelectorNotFound,
}

/// The field-name hash: each byte folds in as `h * 223 + byte`, kept
/// within the thirty-two-bit range.
pub open spec fn hash_of(bytes: Seq<u8>) -> int
    decreases bytes.len(),
{
    if bytes.len() == 0 {
        0
    } else {
        (hash_of(bytes.drop_last()) * 223 + bytes.last()) % 0x1_0000_0000
    }
}

/// Computes the field-name hash of a selector.
#[verifier::loop_isolation(false)]
pub fn idl_hash(name: &str) -> (r: u32)
    ensures
        r == hash_of(name.spec_bytes()),
{
    let bytes = name.as_bytes();
    let n = bytes.len();
    let mut h: u64 = 0;
    let mut i: usize = 0;
    while i < n
        invariant
            i <= n,
            n == name.spec_bytes().len(),
            bytes@ == name.spec_bytes(),
            h == hash_of(name.spec_bytes().take(i as int)),
            h < 0x1_0000_0000,
        decreases n - i,
    {
        let b = bytes[i];
        proof {
            assert(name.spec_bytes().take(i as int + 1).drop_last() =~= name.spec_bytes().take(
                i as int,
            ));
            assert(name.spec_bytes().take(i as int + 1).last() == name.spec_bytes()[i as int]);
        }
        h = (h * 223 + (b as u64)) % 0x1_0000_0000;
        i = i + 1;
    }
    proof {
        assert(name.spec_bytes().take(n as int) =~= name.spec_bytes());
    }
    h as u32
}

/// Whether `s` is the canonical decimal spelling of `n`: digits only, no
/// leading zero, denoting exactly `n`.
pub open spec fn is_canonical_dec(s: Seq<char>, n: int) -> bool {
    &&& s.len() > 0
    &&& all_digits(s)
    &&& (s.len() == 1 || s[0] != '0')
    &&& digits_value(s) == n
}

/// Whether a selector matches a field label: a name matches textually; a
/// numeric label matches by field-name hash or by its decimal spelling.
pub open spec fn label_matches(label: IdlLabel, sel: Seq<char>) -> bool {
    match label {
        IdlLabel::Named(name) => name@ == sel,
        IdlLabel::Id(id) => hash_of(vstd::utf8::encode_utf8(sel)) == id || is_canonical_dec(
            sel,
            id as int,
        ),
        IdlLabel::Unnamed(id) => hash_of(vstd::utf8::encode_utf8(sel)) == id || is_canonical_dec(
            sel,
            id as int,
        ),
    }
}

/// Compares two texts by their characters.
#[verifier::loop_isolation(false)]
pub fn text_eq(a: &str, b: &str) -> (r: bool)
    ensures
        r == (a@ == b@),
{
    let va = chars_of(a);
    let vb = chars_of(b);
    let n = va.len();
    if n != vb.len() {
        return false;
    }
    let mut i: usize = 0;
    while i < n
        invariant
            i <= n,
            n == a@.len() == b@.len(),
            va@ == a@,
            vb@ == b@,
            forall|j: int| 0 <= j < i ==> a@[j] == b@[j],
        decreases n - i,
    {
        if va[i] != vb[i] {
            return false;
        }
        i = i + 1;
    }
    proof {
        assert(a@ =~= b@);
    }
    true
}

/// Whether the selector is the canonical decimal spelling of `id`.
#[verifier::loop_isolation(false)]
fn matches_canonical_dec(sel: &String, id: u32) -> (r: bool)
    ensures
        r == is_canonical_dec(sel@, id as int),
{
    let chars = chars_of(sel.as_str());
    let n = chars.len();
    if n == 0 {
        return false;
    }
    if n > 1 && chars[0] == '0' {
        return false;
    }
    let mut value: u64 = 0;
    let mut i: usize = 0;
    while i < n
        invariant
            i <= n,
            n == sel@.len(),
            chars@ == sel@,
            all_digits(sel@.take(i as int)),
            value == digits_value(sel@.take(i as int)),
            value <= u32::MAX,
        decreases n - i,
    {
        let c = chars[i];
        if !('0' <= c && c <= '9') {
            proof {
                assert(!all_digits(sel@));
            }
            return false;
        }
        let d = (c as u32 - '0' as u32) as u64;
        proof {
            assert(sel@.take(i as int + 1).drop_last() =~= sel@.take(i as int));
            assert(sel@.take(i as int + 1).last() == sel@[i as int]);
        }
        let next = value * 10 + d;
        if next > u32::MAX as u64 {
            proof {
                lemma_digits_prefix_exceeds_u32(sel@, i as int);
            }
            return false;
        }
        value = next;
        i = i + 1;
    }
    proof {
        assert(sel@.take(n as int) =~= sel@);
    }
    value == id as u64
}

/// A digit extension never shrinks the denoted value, so a prefix already
/// past the thirty-two-bit range rules out every thirty-two-bit reading.
proof fn lemma_digits_prefix_exceeds_u32(t: Seq<char>, k: int)
    requires
        0 <= k < t.len(),
        all_digits(t.take(k)),
        is_digit_char(t[k]),
        digits_value(t.take(k)) * 10 + digit_val(t[k]) > u32::MAX,
    ensures
        all_digits(t) ==> digits_value(t) > u32::MAX,
{
    if all_digits(t) {
        assert(t.take(k + 1).drop_last() =~= t.take(k));
        assert(t.take(k + 1).last() == t[k]);
        lemma_digits_monotone(t, k + 1);
    }
}

/// Whether the selector matches a field label.
pub fn label_match(label: &IdlLabel, sel: &String) -> (r: bool)
    ensures
        r == label_matches(*label, sel@),
{
    match label {
        IdlLabel::Named(name) => *name == *sel,
        IdlLabel::Id(id) => idl_hash(sel.as_str()) == *id || matches_canonical_dec(sel, *id),
        IdlLabel::Unnamed(id) => idl_hash(sel.as_str()) == *id || matches_canonical_dec(sel, *id),
    }
}

/// The value of the first field whose label matches the selector.
pub open spec fn rec_find(fields: Seq<IdlField>, sel: Seq<char>) -> Option<IdlValue>
    decreases fields.len(),
{
    if fields.len() == 0 {
        None
    } else if label_matches(fields[0].id, sel) {
        Some(fields[0].val)
    } else {
        rec_find(fields.drop_first(), sel)
    }
}

pub open spec fn is_number(v: IdlValue) -> bool {
    v is Number
}

pub open spec fn num(v: IdlValue) -> int {
    v->Number_0 as int
}

pub open spec fn all_numbers(items: Seq<IdlValue>) -> bool {
    forall|i: int| 0 <= i < items.len() ==> is_number(#[trigger] items[i])
}

/// The earliest position holding the numeric maximum.
pub open spec fn is_first_max(items: Seq<IdlValue>, k: int) -> bool {
    &&& 0 <= k < items.len()
    &&& forall|j: int| 0 <= j < items.len() ==> num(#[trigger] items[j]) <= num(items[k])
    &&& forall|j: int| 0 <= j < k ==> num(#[trigger] items[j]) < num(items[k])
}

/// The earliest position holding the numeric minimum.
pub open spec fn is_first_min(items: Seq<IdlValue>, k: int) -> bool {
    &&& 0 <= k < items.len()
    &&& forall|j: int| 0 <= j < items.len() ==> num(#[trigger] items[j]) >= num(items[k])
    &&& forall|j: int| 0 <= j < k ==> num(#[trigger] items[j]) > num(items[k])
}

/// What one selector selects from one value. Scalars pass selectors
/// through untouched, as the walk leaves them where they are.
pub open spec fn sel_step(v: IdlValue, sel: Seq<char>) -> Option<IdlValue> {
    match v {
        IdlValue::Record(fields) => rec_find(fields@, sel),
        IdlValue::Variant(f) => if label_matches(f.id, sel) {
            Some(f.val)
        } else {
            None
        },
        IdlValue::Vector(items) => {
            if sel == "#max"@ {
                if items@.len() > 0 && all_numbers(items@) {
                    Some(items@[choose|k: int| is_first_max(items@, k)])
                } else {
                    None
                }
            } else if sel == "#min"@ {
                if items@.len() > 0 && all_numbers(items@) {
                    Some(items@[choose|k: int| is_first_min(items@, k)])
                } else {
                    None
                }
            } else if sel == "#items"@ {
                Some(v)
            } else {
                if all_digits(sel) && sel.len() > 0 && digits_value(sel) < items@.len() {
                    Some(items@[digits_value(sel)])
                } else {
                    None
                }
            }
        },
        _ => Some(v),
    }
}

/// What the selector path from position `i` on selects from `v`.
pub open spec fn spec_select(v: IdlValue, sels: Seq<String>, i: int) -> Option<IdlValue>
    decreases sels.len() - i,
{
    if i < 0 || i >= sels.len() {
        Some(v)
    } else {
        match sel_step(v, sels[i]@) {
            Some(v2) => spec_select(v2, sels, i + 1),
            None => None,
        }
    }
}

/// Parses a selector as a plain index (leading zeros allowed).
#[verifier::loop_isolation(false)]
fn parse_index(sel: &String) -> (r: Option<usize>)
    ensures
        match r {
            Some(v) => sel@.len() > 0 && all_digits(sel@) && v == digits_value(sel@)
                && digits_value(sel@) <= usize::MAX,
            None => sel@.len() == 0 || !all_digits(sel@) || digits_value(sel@) > usize::MAX,
        },
{
    let chars = chars_of(sel.as_str());
    let n = chars.len();
    if n == 0 {
        return None;
    }
    let mut value: usize = 0;
    let mut i: usize = 0;
    while i < n
        invariant
            i <= n,
            n == sel@.len(),
            chars@ == sel@,
            all_digits(sel@.take(i as int)),
            value == digits_value(sel@.take(i as int)),
            value <= usize::MAX,
        decreases n - i,
    {
        let c = chars[i];
        if !('0' <= c && c <= '9') {
            proof {
                assert(!all_digits(sel@));
            }
            return None;
        }
        let d = (c as u32 - '0' as u32) as usize;
        proof {
            assert(sel@.take(i as int + 1).drop_last() =~= sel@.take(i as int));
            assert(sel@.take(i as int + 1).last() == sel@[i as int]);
        }
        let next = match value.checked_mul(10) {
            Some(v10) => match v10.checked_add(d) {
                Some(v2) => v2,
                None => {
                    proof {
                        lemma_digits_prefix_exceeds(sel@, i as int);
                    }
                    return None;
                },
            },
            None => {
                proof {
                    lemma_digits_prefix_exceeds(sel@, i as int);
                }
                return None;
            },
        };
        value = next;
        i = i + 1;
    }
    proof {
        assert(sel@.take(n as int) =~= sel@);
    }
    Some(value)
}

/// The position of the first field whose label matches the selector.
#[verifier::loop_isolation(false)]
fn find_field(fields: &Vec<IdlField>, sel: &String) -> (r: Option<usize>)
    ensures
        match r {
            Some(j) => j < fields@.len() && rec_find(fields@, sel@) == Some(
                fields@[j as int].val,
            ),
            None => rec_find(fields@, sel@) is None,
        },
{
    let m = fields.len();
    proof {
        assert(fields@.skip(0) =~= fields@);
    }
    let mut j: usize = 0;
    while j < m
        invariant
            j <= m,
            m == fields@.len(),
            rec_find(fields@, sel@) == rec_find(fields@.skip(j as int), sel@),
        decreases m - j,
    {
        proof {
            assert(fields@.skip(j as int)[0] == fields@[j as int]);
            assert(fields@.skip(j as int).drop_first() =~= fields@.skip(j as int + 1));
        }
        if label_match(&fields[j].id, sel) {
            return Some(j);
        }
        j = j + 1;
    }
    proof {
        assert(fields@.skip(m as int) =~= Seq::<IdlField>::empty());
    }
    None
}

/// The earliest position of the numeric maximum (or minimum); nothing when
/// the vector is empty or holds a non-numeric element.
#[verifier::loop_isolation(false)]
fn first_extreme(items: &Vec<IdlValue>, want_max: bool) -> (r: Option<usize>)
    ensures
        match r {
            Some(j) => items@.len() > 0 && all_numbers(items@) && if want_max {
                is_first_max(items@, j as int)
            } else {
                is_first_min(items@, j as int)
            },
            None => items@.len() == 0 || !all_numbers(items@),
        },
{
    let n = items.len();
    if n == 0 {
        return None;
    }
    let best0: u64 = match &items[0] {
        IdlValue::Number(x) => *x,
        _ => {
            return None;
        },
    };
    let mut best: usize = 0;
    let mut best_val: u64 = best0;
    let mut i: usize = 1;
    while i < n
        invariant
            1 <= i <= n,
            best < i,
            n == items@.len(),
            forall|j: int| 0 <= j < i ==> is_number(#[trigger] items@[j]),
            is_number(items@[best as int]),
            best_val == num(items@[best as int]),
            forall|j: int|
                0 <= j < i ==> if want_max {
                    num(#[trigger] items@[j]) <= best_val
                } else {
                    num(#[trigger] items@[j]) >= best_val
                },
            forall|j: int|
                0 <= j < best ==> if want_max {
                    num(#[trigger] items@[j]) < best_val
                } else {
                    num(#[trigger] items@[j]) > best_val
                },
        decreases n - i,
    {
        let x: u64 = match &items[i] {
            IdlValue::Number(x) => *x,
            _ => {
                return None;
            },
        };
        if (want_max && x > best_val) || (!want_max && x < best_val) {
            best = i;
            best_val = x;
        }
        i = i + 1;
    }
    Some(best)
}

/// Walks a selector path over decoded arguments: the first selector picks
/// the argument, every further one descends per `sel_step`.
#[verifier::loop_isolation(false)]
#[verifier::rlimit(60)]
pub fn get<'a>(args: &'a Vec<IdlValue>, selectors: &Vec<String>) -> (r: Result<
    &'a IdlValue,
    IdlSelectorError,
>)
    ensures
        match r {
            Ok(v) => {
                &&& selectors@.len() > 0
                &&& digits_value(selectors@[0]@) < args@.len()
                &&& spec_select(args@[digits_value(selectors@[0]@)], selectors@, 1) == Some(*v)
            },
            Err(e) => {
                &&& (e is MissingSelector <==> selectors@.len() == 0)
                &&& (e is InvalidStartIndex ==> selectors@.len() > 0 && (selectors@[0]@.len() == 0
                    || !all_digits(selectors@[0]@) || digits_value(selectors@[0]@) > usize::MAX
                    || digits_value(selectors@[0]@) >= args@.len()))
                &&& (e is SelectorNotFound ==> selectors@.len() > 0 && digits_value(
                    selectors@[0]@,
                ) < args@.len() && spec_select(
                    args@[digits_value(selectors@[0]@)],
                    selectors@,
                    1,
                ) is None)
            },
        },
{
    if selectors.len() == 0 {
        return Err(IdlSelectorError::MissingSelector);
    }
    let idx = match parse_index(&selectors[0]) {
        Some(v) => v,
        None => {
            return Err(IdlSelectorError::InvalidStartIndex);
        },
    };
    if idx >= args.len() {
        return Err(IdlSelectorError::InvalidStartIndex);
    }
    let mut cur: &IdlValue = &args[idx];
    let n = selectors.len();
    let mut k: usize = 1;
    while k < n
        invariant
            1 <= k <= n,
            n == selectors@.len(),
            idx < args@.len(),
            idx == digits_value(selectors@[0]@),
            spec_select(args@[idx as int], selectors@, 1) == spec_select(
                *cur,
                selectors@,
                k as int,
            ),
        decreases n - k,
    {
        let sel = &selectors[k];
        let step: Option<&IdlValue> = match cur {
            IdlValue::Record(fields) => {
                match find_field(fields, sel) {
                    Some(j) => Some(&fields[j].val),
                    None => None,
                }
            },
            IdlValue::Variant(f) => {
                if label_match(&f.id, sel) {
                    Some(&f.val)
                } else {
                    None
                }
            },
            IdlValue::Vector(items) => {
                if text_eq(sel.as_str(), "#max") {
                    match first_extreme(items, true) {
                        Some(j) => {
                            proof {
                                lemma_first_max_unique(items@, j as int);
                            }
                            Some(&items[j])
                        },
                        None => None,
                    }
                } else if text_eq(sel.as_str(), "#min") {
                    match first_extreme(items, false) {
                        Some(j) => {
                            proof {
                                lemma_first_min_unique(items@, j as int);
                            }
                            Some(&items[j])
                        },
                        None => None,
                    }
                } else if text_eq(sel.as_str(), "#items") {
                    Some(cur)
                } else {
                    match parse_index(sel) {
                        Some(j) => {
                            if j < items.len() {
                                Some(&items[j])
                            } else {
                                None
                            }
                        },
                        None => {
                            let total = items.len();
                            proof {
                                assert(items@.len() == total);
                            }
                            None
                        },
                    }
                }
            },
            _ => Some(cur),
        };
        match step {
            Some(next) => {
                proof {
                    assert(sel_step(*cur, selectors@[k as int]@) == Some(*next));
                }
                cur = next;
            },
            None => {
                proof {
                    assert(sel_step(*cur, selectors@[k as int]@) is None);
                    assert(spec_select(*cur, selectors@, k as int) is None);
                }
                return Err(IdlSelectorError::SelectorNotFound);
            },
        }
        k = k + 1;
    }
    Ok(cur)
}

/// The earliest maximum position is unique, so it is the one the
/// selection speaks of.
proof fn lemma_first_max_unique(items: Seq<IdlValue>, j: int)
    requires
        is_first_max(items, j),
    ensures
        (choose|k: int| is_first_max(items, k)) == j,
{
    let kk = choose|k: int| is_first_max(items, k);
    assert(is_first_max(items, kk));
    if kk < j {
        assert(num(items[kk]) < num(items[j]));
        assert(num(items[j]) <= num(items[kk]));
        assert(false);
    }
    if j < kk {
        assert(num(items[j]) < num(items[kk]));
        assert(num(items[kk]) <= num(items[j]));
        assert(false);
    }
}

/// The earliest minimum position is unique, so it is the one the
/// selection speaks of.
proof fn lemma_first_min_unique(items: Seq<IdlValue>, j: int)
    requires
        is_first_min(items, j),
    ensures
        (choose|k: int| is_first_min(items, k)) == j,
{
    let kk = choose|k: int| is_first_min(items, k);
    assert(is_first_min(items, kk));
    if kk < j {
        assert(num(items[kk]) > num(items[j]));
        assert(num(items[j]) >= num(items[kk]));
        assert(false);
    }
    if j < kk {
        assert(num(items[j]) > num(items[kk]));
        assert(num(items[kk]) >= num(items[j]));
        assert(false);
    }
}

} // verus!
