use vstd::prelude::*;

use crate::block_header::{bits_exponent, bits_mantissa_byte, pow_ok};

verus! {

/// The number whose little-endian bytes are `s`.
pub open spec fn le_value(s: Seq<u8>) -> nat
    decreases s.len(),
{
    if s.len() == 0 {
        0
    } else {
        s[0] as nat + 256 * le_value(s.drop_first())
    }
}

/// `256` to the power `k`.
pub open spec fn pow256(k: nat) -> nat
    decreases k,
{
    if k == 0 {
        1
    } else {
        256 * pow256((k - 1) as nat)
    }
}

/// The 24-bit mantissa of compact `bits`.
pub open spec fn bits_mantissa(bits: u32) -> nat {
    (bits & 0xff_ffff) as nat
}

/// The target that compact `bits` encodes, for an exponent of at least 3:
/// the mantissa shifted up by `exponent - 3` bytes.
pub open spec fn bits_target(bits: u32) -> nat {
    bits_mantissa(bits) * pow256((bits_exponent(bits) - 3) as nat)
}

proof fn lemma_pow256_positive(k: nat)
    ensures
        pow256(k) >= 1,
    decreases k,
{
    if k > 0 {
        lemma_pow256_positive((k - 1) as nat);
    }
}

proof fn lemma_le_split(s: Seq<u8>, k: int)
    requires
        0 <= k <= s.len(),
    ensures
        le_value(s) == le_value(s.take(k)) + pow256(k as nat) * le_value(s.skip(k)),
    decreases k,
{
    if k == 0 {
        assert(s.take(0) =~= Seq::<u8>::empty());
        assert(s.skip(0) =~= s);
        assert(le_value(s.take(0)) == 0);
        assert(pow256(k as nat) == 1);
        assert(le_value(s.skip(k)) == le_value(s));
        assert(pow256(k as nat) * le_value(s.skip(k)) == le_value(s));
        assert(le_value(s) == le_value(s.take(k)) + pow256(k as nat) * le_value(s.skip(k)));
    } else {
        let s1 = s.drop_first();
        lemma_le_split(s1, k - 1);
        assert(s.take(k).drop_first() =~= s1.take(k - 1));
        assert(s.skip(k) =~= s1.skip(k - 1));
        let a = le_value(s1.take(k - 1));
        let p = pow256((k - 1) as nat);
        let b = le_value(s1.skip(k - 1));
        assert(256 * (a + p * b) == 256 * a + (256 * p) * b) by (nonlinear_arith);
        assert(s.take(k)[0] == s[0]);
        assert(le_value(s.take(k)) == s[0] as nat + 256 * a);
        assert(pow256(k as nat) == 256 * p);
        assert(le_value(s) == s[0] as nat + 256 * le_value(s1));
        assert(le_value(s.skip(k)) == b);
        assert(pow256(k as nat) * b == (256 * p) * b);
        assert(le_value(s1) == a + p * b);
        assert(le_value(s) == s[0] as nat + 256 * a + (256 * p) * b);
        assert(le_value(s) == le_value(s.take(k)) + pow256(k as nat) * le_value(s.skip(k)));
    }
}

proof fn lemma_le_bound(s: Seq<u8>)
    ensures
        le_value(s) < pow256(s.len()),
    decreases s.len(),
{
    if s.len() > 0 {
        let s1 = s.drop_first();
        lemma_le_bound(s1);
        let v = le_value(s1);
        let p = pow256(s1.len());
        let b = s[0] as nat;
        assert(b + 256 * v < 256 * p) by (nonlinear_arith)
            requires
                v < p,
                b < 256,
        ;
    }
}

proof fn lemma_le_zero(s: Seq<u8>)
    ensures
        le_value(s) == 0 <==> forall|i: int| 0 <= i < s.len() ==> s[i] == 0,
    decreases s.len(),
{
    if s.len() > 0 {
        let s1 = s.drop_first();
        lemma_le_zero(s1);
        if le_value(s) == 0 {
            assert forall|i: int| 0 <= i < s.len() implies s[i] == 0 by {
                if i > 0 {
                    assert(s[i] == s1[i - 1]);
                }
            }
        }
        if forall|i: int| 0 <= i < s.len() ==> s[i] == 0 {
            assert forall|i: int| 0 <= i < s1.len() implies s1[i] == 0 by {
                assert(s1[i] == s[i + 1]);
            }
        }
    }
}

proof fn lemma_le_three(s: Seq<u8>)
    requires
        s.len() >= 3,
    ensures
        le_value(s) == s[0] as nat + 256 * (s[1] as nat) + 65536 * (s[2] as nat) + 16777216
            * le_value(s.skip(3)),
{
    lemma_le_split(s, 3);
    let t = s.take(3);
    let t2 = t.drop_first().drop_first();
    assert(t2.drop_first() =~= Seq::<u8>::empty());
    assert(le_value(t2.drop_first()) == 0);
    assert(t2[0] == s[2]);
    assert(le_value(t2) == t2[0] as nat + 256 * le_value(t2.drop_first()));
    assert(le_value(t2) == s[2] as nat);
    assert(le_value(t.drop_first()) == s[1] as nat + 256 * (s[2] as nat));
    assert(le_value(t) == s[0] as nat + 256 * (s[1] as nat) + 65536 * (s[2] as nat));
    assert(pow256(3) == 16777216) by {
        reveal_with_fuel(pow256, 4);
    }
}

/// The byte-wise proof-of-work rule is the comparison of the hash, read as
/// a little-endian number, with the target: accepted exactly when strictly
/// below it.
pub proof fn lemma_pow_ok_is_below_target(h: Seq<u8>, bits: u32)
    requires
        h.len() == 32,
        3 <= bits_exponent(bits) <= 32,
    ensures
        pow_ok(h, bits) <==> le_value(h) < bits_target(bits),
{
    let e = bits_exponent(bits);
    let k = e - 3;
    let p = pow256(k as nat);
    let low = h.take(k);
    let s = h.skip(k);
    lemma_le_split(h, k);
    lemma_le_bound(low);
    lemma_pow256_positive(k as nat);
    lemma_le_three(s);
    let z = s.skip(3);
    assert(z =~= h.skip(e));
    lemma_le_zero(z);
    let l = le_value(low);
    let t = le_value(s);
    let zv = le_value(z);
    let m = bits_mantissa(bits);
    let m0 = bits_mantissa_byte(bits, 0);
    let m1 = bits_mantissa_byte(bits, 1);
    let m2 = bits_mantissa_byte(bits, 2);
    assert((bits & 0xff_ffff) == (((bits >> 16u32) & 0xff) as u8 as u32) * 65536 + (((bits
        >> 8u32) & 0xff) as u8 as u32) * 256 + ((bits & 0xff) as u8 as u32)) by (bit_vector);
    assert(m == m0 as nat * 65536 + m1 as nat * 256 + m2 as nat);
    let h3 = s[0] as nat + 256 * (s[1] as nat) + 65536 * (s[2] as nat);
    assert(s[0] == h[e - 3] && s[1] == h[e - 2] && s[2] == h[e - 1]);
    assert((forall|i: int| e <= i < 32 ==> h[i] == 0) <==> zv == 0) by {
        assert forall|i: int| 0 <= i < z.len() implies z[i] == h[i + e] by {}
        if zv == 0 {
            assert forall|i: int| e <= i < 32 implies h[i] == 0 by {
                assert(z[i - e] == h[i]);
            }
        }
    }
    // the lexicographic comparison of the top bytes is the comparison of numbers
    let lex = h[e - 1] < m0 || h[e - 1] == m0 && h[e - 2] < m1 || h[e - 1] == m0 && h[e - 2]
        == m1 && h[e - 3] < m2;
    assert(lex <==> h3 < m);
    // the three bytes and the zero tail together are below the mantissa
    assert((zv == 0 && h3 < m) <==> t < m) by {
        assert(m < 16777216);
        assert(h3 < 16777216);
    }
    // shifting by `p` keeps the order
    assert(t < m <==> l + p * t < m * p) by (nonlinear_arith)
        requires
            l < p,
            0 <= l,
            p >= 1,
    ;
}

/// Proof-of-work monotonicity: lowering the target never turns a rejected
/// hash into an accepted one. Only targets with an exponent from 3 to 32
/// are compared: the rule rejects every hash under any other exponent.
pub proof fn lemma_pow_monotonic(h: Seq<u8>, bits: u32, tighter: u32)
    requires
        h.len() == 32,
        3 <= bits_exponent(bits) <= 32,
        bits_target(tighter) <= bits_target(bits),
        !pow_ok(h, bits),
    ensures
        !pow_ok(h, tighter),
{
    lemma_pow_ok_is_below_target(h, bits);
    if 3 <= bits_exponent(tighter) <= 32 {
        lemma_pow_ok_is_below_target(h, tighter);
    }
}

} // verus!
