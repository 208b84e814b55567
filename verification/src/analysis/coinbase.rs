use vstd::prelude::*;

verus! {

pub open spec fn pow256(k: nat) -> nat
    decreases k,
{
    if k == 0 {
        1
    } else {
        256 * pow256((k - 1) as nat)
    }
}

/// The little-endian number that the bytes of `s` spell.
pub open spec fn le_value(s: Seq<u8>) -> nat
    decreases s.len(),
{
    if s.len() == 0 {
        0
    } else {
        le_value(s.drop_last()) + (s.last() as nat) * pow256((s.len() - 1) as nat)
    }
}

/// The block height that BIP34 puts at the start of a coinbase scriptSig: a
/// push of `N` bytes (1 to 75) holding the height little-endian; 0 when the
/// scriptSig does not start with such a complete push.
pub open spec fn bip34_height(script_sig: Seq<u8>) -> nat {
    if script_sig.len() == 0 {
        0
    } else {
        let n = script_sig[0] as int;
        if 1 <= n <= 75 && script_sig.len() >= 1 + n {
            le_value(script_sig.subrange(1, 1 + n))
        } else {
            0
        }
    }
}

/// A height push longer than eight bytes would shift past 64 bits.
pub open spec fn height_fits(script_sig: Seq<u8>) -> bool {
    !(script_sig.len() > 0 && 9 <= script_sig[0] <= 75 && script_sig.len() >= 1 + script_sig[0])
}

proof fn lemma_pow256_step(k: nat)
    ensures
        pow256(k + 1) == 256 * pow256(k),
        pow256(k) >= 1,
    decreases k,
{
    if k > 0 {
        lemma_pow256_step((k - 1) as nat);
    }
}

proof fn lemma_pow256_mono(a: nat, b: nat)
    requires
        a <= b,
    ensures
        pow256(a) <= pow256(b),
    decreases b,
{
    if a < b {
        lemma_pow256_mono(a, (b - 1) as nat);
        lemma_pow256_step((b - 1) as nat);
    }
}

proof fn lemma_le_value_bound(s: Seq<u8>)
    ensures
        le_value(s) < pow256(s.len()),
    decreases s.len(),
{
    if s.len() > 0 {
        lemma_le_value_bound(s.drop_last());
        let k = (s.len() - 1) as nat;
        lemma_pow256_step(k);
        let p = pow256(k);
        let b = s.last() as nat;
        assert(b * p <= 255 * p) by (nonlinear_arith)
            requires
                b <= 255,
        ;
    }
}

proof fn lemma_pow256_8()
    ensures
        pow256(8) == 0x1_0000_0000_0000_0000,
{
    reveal_with_fuel(pow256, 9);
}

/// Reads the BIP34 block height from a coinbase scriptSig; 0 when there is
/// none.
pub fn decode_bip34_height(script_sig: &[u8]) -> (height: u64)
    requires
        height_fits(script_sig@),
    ensures
        height == bip34_height(script_sig@),
{
    if script_sig.len() == 0 {
        return 0;
    }
    let n = script_sig[0] as usize;
    if n == 0 {
        return 0;
    }
    if n >= 1 && n <= 75 && script_sig.len() >= 1 + n {
        let ghost digits = script_sig@.subrange(1, 1 + n as int);
        let mut height: u64 = 0;
        let mut scale: u64 = 1;
        let mut i: usize = 0;
        while i < n
            invariant
                n <= 8,
                1 + n <= script_sig@.len(),
                digits == script_sig@.subrange(1, 1 + n as int),
                i <= n,
                height == le_value(digits.take(i as int)),
                i < n ==> scale == pow256(i as nat),
            decreases n - i,
        {
            let ghost pre = digits.take(i as int);
            let b = script_sig[1 + i];
            proof {
                assert(digits.take(i + 1).drop_last() =~= pre);
                assert(digits.take(i + 1).last() == b);
                lemma_le_value_bound(pre);
                lemma_le_value_bound(digits.take(i + 1));
                lemma_pow256_step(i as nat);
                lemma_pow256_8();
                lemma_pow256_mono((i + 1) as nat, 8);
            }
            height = height + (b as u64) * scale;
            if i + 1 < n {
                proof {
                    lemma_pow256_mono((i + 1) as nat, 7);
                    reveal_with_fuel(pow256, 8);
                    lemma_pow256_step(i as nat);
                }
                scale = scale * 256;
            } else {
                proof {
                    lemma_pow256_step(i as nat);
                }
            }
            i = i + 1;
            proof {
                if i < n {
                    lemma_pow256_step((i - 1) as nat);
                }
            }
        }
        assert(digits.take(n as int) =~= digits);
        return height;
    }
    0
}

} // verus!
