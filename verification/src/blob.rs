//! Plain byte serialization of fixed-width values, for the whole-state
//! snapshot the persistence collaborator stores: little-endian, verified
//! to round-trip.

use vstd::prelude::*;

verus! {

/// An opaque byte string.
pub type Blob = Vec<u8>;

/// The value a little-endian byte string denotes.
pub open spec fn le_value(s: Seq<u8>) -> int
    decreases s.len(),
{
    if s.len() == 0 {
        0
    } else {
        s[0] + 256 * le_value(s.drop_first())
    }
}

/// 256 to the `n`.
pub open spec fn pow256(n: nat) -> int
    decreases n,
{
    if n == 0 {
        1
    } else {
        256 * pow256((n - 1) as nat)
    }
}

proof fn lemma_le_value_bounds(s: Seq<u8>)
    ensures
        0 <= le_value(s) < pow256(s.len()),
    decreases s.len(),
{
    if s.len() == 0 {
    } else {
        lemma_le_value_bounds(s.drop_first());
        assert(le_value(s.drop_first()) <= pow256((s.len() - 1) as nat) - 1);
        assert(256 * le_value(s.drop_first()) <= 256 * (pow256((s.len() - 1) as nat) - 1))
            by (nonlinear_arith)
            requires
                le_value(s.drop_first()) <= pow256((s.len() - 1) as nat) - 1,
        ;
        assert(256 * le_value(s.drop_first()) >= 0) by (nonlinear_arith)
            requires
                le_value(s.drop_first()) >= 0,
        ;
    }
}

proof fn lemma_le_value_push(s: Seq<u8>, b: u8)
    ensures
        le_value(s.push(b)) == le_value(s) + pow256(s.len()) * b,
    decreases s.len(),
{
    if s.len() == 0 {
        assert(s.push(b).drop_first() =~= Seq::<u8>::empty());
        assert(s =~= Seq::<u8>::empty());
    } else {
        assert(s.push(b).drop_first() =~= s.drop_first().push(b));
        lemma_le_value_push(s.drop_first(), b);
        assert(le_value(s.push(b)) == s[0] + 256 * (le_value(s.drop_first()) + pow256(
            (s.len() - 1) as nat,
        ) * b));
        assert(256 * (le_value(s.drop_first()) + pow256((s.len() - 1) as nat) * b) == 256
            * le_value(s.drop_first()) + 256 * pow256((s.len() - 1) as nat) * b)
            by (nonlinear_arith);
        assert(256 * pow256((s.len() - 1) as nat) * b == pow256(s.len()) * b) by (nonlinear_arith)
            requires
                pow256(s.len()) == 256 * pow256((s.len() - 1) as nat),
        ;
    }
}

/// Serialization into an opaque byte string.
pub trait IntoBlob {
    fn into(self) -> Blob;
}

/// Reconstruction from an opaque byte string.
pub trait FromBlob: Sized {
    fn from(it: &Blob) -> Self;
}

/// Writes a number as eight little-endian bytes.
#[verifier::loop_isolation(false)]
pub fn u64_to_le_blob(x: u64) -> (r: Blob)
    ensures
        r@.len() == 8,
        le_value(r@) == x,
{
    let mut r: Vec<u8> = Vec::new();
    let mut v: u64 = x;
    let mut i: usize = 0;
    while i < 8
        invariant
            i <= 8,
            r@.len() == i,
            le_value(r@) + pow256(i as nat) * v == x,
            i == 8 ==> v == 0,
        decreases 8 - i,
    {
        let b = (v % 256) as u8;
        let ghost r0 = r@;
        let ghost v0 = v;
        r.push(b);
        v = v / 256;
        proof {
            lemma_le_value_push(r0, b);
            assert(v0 == 256 * (v0 / 256) + v0 % 256) by (nonlinear_arith);
            assert(pow256(i as nat) * v0 == pow256(i as nat) * (v0 % 256) + pow256(
                i as nat + 1,
            ) * (v0 / 256)) by (nonlinear_arith)
                requires
                    v0 == 256 * (v0 / 256) + v0 % 256,
                    pow256(i as nat + 1) == 256 * pow256(i as nat),
            ;
            if i == 7 {
                lemma_le_value_bounds(r@);
                if v != 0 {
                    assert(pow256(8) * v >= pow256(8)) by (nonlinear_arith)
                        requires
                            v >= 1,
                            pow256(8) > 0,
                    ;
                    assert(le_value(r@) >= 0);
                    assert(x < pow256(8)) by {
                        reveal_with_fuel(pow256, 9);
                        assert(pow256(8) == 0x1_0000_0000_0000_0000);
                    }
                    assert(false);
                }
            }
        }
        i = i + 1;
    }
    proof {
        assert(pow256(8) * 0 == 0) by (nonlinear_arith);
    }
    r
}

/// Reads a number back from eight little-endian bytes.
#[verifier::loop_isolation(false)]
pub fn u64_from_le_blob(it: &Blob) -> (r: Option<u64>)
    ensures
        match r {
            Some(v) => it@.len() == 8 && v == le_value(it@),
            None => it@.len() != 8,
        },
{
    if it.len() != 8 {
        return None;
    }
    proof {
        lemma_le_value_bounds(it@);
        reveal_with_fuel(pow256, 9);
        assert(pow256(8) == 0x1_0000_0000_0000_0000);
    }
    let mut v: u64 = 0;
    let mut i: usize = 8;
    while i > 0
        invariant
            i <= 8,
            it@.len() == 8,
            v == le_value(it@.skip(i as int)),
            le_value(it@.skip(i as int)) < pow256((8 - i) as nat),
        decreases i,
    {
        i = i - 1;
        let ghost tail = it@.skip(i as int + 1);
        proof {
            assert(it@.skip(i as int).drop_first() =~= tail);
            assert(it@.skip(i as int)[0] == it@[i as int]);
            lemma_le_value_bounds(it@.skip(i as int));
            assert(le_value(it@.skip(i as int)) == it@[i as int] + 256 * le_value(tail));
            assert(256 * le_value(tail) <= 256 * (pow256((7 - i) as nat) - 1)) by (nonlinear_arith)
                requires
                    le_value(tail) <= pow256((7 - i) as nat) - 1,
            ;
            assert(pow256((8 - i) as nat) == 256 * pow256((7 - i) as nat));
            assert(pow256((8 - i) as nat) <= pow256(8)) by {
                lemma_pow256_mono((8 - i) as nat, 8);
            }
        }
        v = v * 256 + (it[i] as u64);
    }
    proof {
        assert(it@.skip(0) =~= it@);
    }
    Some(v)
}

proof fn lemma_pow256_mono(a: nat, b: nat)
    requires
        a <= b,
    ensures
        pow256(a) <= pow256(b),
        pow256(a) >= 1,
    decreases b,
{
    if a == b {
        lemma_pow256_pos(a);
    } else {
        lemma_pow256_mono(a, (b - 1) as nat);
        assert(pow256(b) == 256 * pow256((b - 1) as nat));
        assert(256 * pow256((b - 1) as nat) >= pow256((b - 1) as nat)) by (nonlinear_arith)
            requires
                pow256((b - 1) as nat) >= 1,
        ;
    }
}

proof fn lemma_pow256_pos(a: nat)
    ensures
        pow256(a) >= 1,
    decreases a,
{
    if a > 0 {
        lemma_pow256_pos((a - 1) as nat);
        assert(256 * pow256((a - 1) as nat) >= pow256((a - 1) as nat)) by (nonlinear_arith)
            requires
                pow256((a - 1) as nat) >= 1,
        ;
    }
}

impl IntoBlob for u64 {
    fn into(self) -> (r: Blob) {
        u64_to_le_blob(self)
    }
}

impl FromBlob for u64 {
    fn from(it: &Blob) -> (r: Self) {
        match u64_from_le_blob(it) {
            Some(v) => v,
            None => 0,
        }
    }
}

} // verus!
