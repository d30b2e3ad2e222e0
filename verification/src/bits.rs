//! Bit-parallel extract and deposit.
//!
//! `pext` gathers the bits of a word selected by a mask into a contiguous
//! low-order field; `pdep` scatters a contiguous low-order field back out to
//! the positions selected by a mask. Both are pure functions of their two
//! arguments, written as portable bit-by-bit recursions so they behave the
//! same on every platform. A verified `popcount` accompanies them.

use vstd::prelude::*;

verus! {

/// The bits of `src` at the positions selected by `mask`, gathered in
/// ascending position order into the low-order bits of the result; all
/// other result bits are zero.
pub open spec fn pext_spec(mask: u64, src: u64) -> u64
    decreases mask,
    via pext_spec_dec
{
    if mask == 0 {
        0u64
    } else if mask & 1 == 1 {
        (pext_spec(mask >> 1, src >> 1) << 1) | (src & 1)
    } else {
        pext_spec(mask >> 1, src >> 1)
    }
}

#[via_fn]
proof fn pext_spec_dec(mask: u64, src: u64) {
    assert(mask != 0 ==> mask >> 1 < mask) by (bit_vector);
}

/// The low-order bits of `packed` scattered, in ascending order, into the
/// bit positions selected by `mask`; all bits outside `mask` are zero.
pub open spec fn pdep_spec(mask: u64, packed: u64) -> u64
    decreases mask,
    via pdep_spec_dec
{
    if mask == 0 {
        0u64
    } else if mask & 1 == 1 {
        (pdep_spec(mask >> 1, packed >> 1) << 1) | (packed & 1)
    } else {
        pdep_spec(mask >> 1, packed) << 1
    }
}

#[via_fn]
proof fn pdep_spec_dec(mask: u64, packed: u64) {
    assert(mask != 0 ==> mask >> 1 < mask) by (bit_vector);
}

/// How many bits of `x` are set.
pub open spec fn popcount_spec(x: u64) -> nat
    decreases x,
    via popcount_spec_dec
{
    if x == 0 {
        0nat
    } else {
        (popcount_spec(x >> 1) + (x & 1)) as nat
    }
}

#[via_fn]
proof fn popcount_spec_dec(x: u64) {
    assert(x != 0 ==> x >> 1 < x) by (bit_vector);
}

/// The mask with exactly the `n` lowest bits set (all bits for `n >= 64`).
pub open spec fn low_ones(n: nat) -> u64
    decreases n,
{
    if n == 0 {
        0u64
    } else {
        (low_ones((n - 1) as nat) << 1) | 1
    }
}

/// A word never has more set bits than its own value.
pub proof fn lemma_popcount_le(x: u64)
    ensures
        popcount_spec(x) <= x,
    decreases x,
{
    if x != 0 {
        assert(x >> 1 < x) by (bit_vector)
            requires
                x != 0,
        ;
        lemma_popcount_le(x >> 1);
        assert((x >> 1) + (x & 1) <= x) by (bit_vector)
            requires
                x != 0,
        ;
    }
}

/// Extraction never exceeds the mask it extracts through.
pub proof fn lemma_pext_le_mask(mask: u64, src: u64)
    ensures
        pext_spec(mask, src) <= mask,
    decreases mask,
{
    if mask != 0 {
        assert(mask >> 1 < mask) by (bit_vector)
            requires
                mask != 0,
        ;
        lemma_pext_le_mask(mask >> 1, src >> 1);
        let sub: u64 = pext_spec(mask >> 1, src >> 1);
        if mask & 1 == 1 {
            assert((sub << 1) | (src & 1) <= mask) by (bit_vector)
                requires
                    sub <= mask >> 1,
                    mask & 1 == 1,
            ;
        } else {
            assert(mask >> 1 <= mask) by (bit_vector);
        }
    }
}

/// A deposit only ever sets bits that lie inside the mask.
pub proof fn lemma_pdep_in_mask(mask: u64, packed: u64)
    ensures
        pdep_spec(mask, packed) & mask == pdep_spec(mask, packed),
        pdep_spec(mask, packed) <= mask,
    decreases mask,
{
    if mask == 0 {
        assert(0u64 & 0 == 0) by (bit_vector);
    } else {
        assert(mask >> 1 < mask) by (bit_vector)
            requires
                mask != 0,
        ;
        if mask & 1 == 1 {
            lemma_pdep_in_mask(mask >> 1, packed >> 1);
            let sub: u64 = pdep_spec(mask >> 1, packed >> 1);
            assert(((sub << 1) | (packed & 1)) & mask == ((sub << 1) | (packed & 1))
                && ((sub << 1) | (packed & 1)) <= mask) by (bit_vector)
                requires
                    sub & (mask >> 1) == sub,
                    sub <= mask >> 1,
                    mask & 1 == 1,
            ;
        } else {
            lemma_pdep_in_mask(mask >> 1, packed);
            let sub: u64 = pdep_spec(mask >> 1, packed);
            assert((sub << 1) & mask == (sub << 1) && (sub << 1) <= mask) by (bit_vector)
                requires
                    sub & (mask >> 1) == sub,
                    sub <= mask >> 1,
                    mask & 1 != 1,
            ;
        }
    }
}

/// Extraction reads nothing outside the mask: clearing the unselected bits
/// of the source first changes nothing.
pub proof fn lemma_pext_of_masked(mask: u64, src: u64)
    ensures
        pext_spec(mask, src & mask) == pext_spec(mask, src),
    decreases mask,
{
    if mask != 0 {
        assert(mask >> 1 < mask) by (bit_vector)
            requires
                mask != 0,
        ;
        lemma_pext_of_masked(mask >> 1, src >> 1);
        assert((src & mask) >> 1 == (src >> 1) & (mask >> 1)) by (bit_vector);
        if mask & 1 == 1 {
            assert((src & mask) & 1 == src & 1) by (bit_vector)
                requires
                    mask & 1 == 1,
            ;
        }
    }
}

/// Depositing through a mask and extracting back through the same mask
/// returns exactly the bits of the original value that lie inside the mask.
pub proof fn lemma_deposit_extract(mask: u64, v: u64)
    ensures
        pdep_spec(mask, pext_spec(mask, v)) == v & mask,
    decreases mask,
{
    if mask == 0 {
        assert(v & 0 == 0) by (bit_vector);
    } else {
        let m1: u64 = mask >> 1;
        let v1: u64 = v >> 1;
        assert(mask >> 1 < mask) by (bit_vector)
            requires
                mask != 0,
        ;
        lemma_deposit_extract(m1, v1);
        lemma_pext_le_mask(m1, v1);
        let x: u64 = pext_spec(m1, v1);
        if mask & 1 == 1 {
            let p: u64 = (x << 1) | (v & 1);
            assert(p >> 1 == x && p & 1 == (v & 1)) by (bit_vector)
                requires
                    p == (x << 1) | (v & 1),
                    x <= mask >> 1,
            ;
            assert(((v1 & m1) << 1) | (v & 1) == v & mask) by (bit_vector)
                requires
                    v1 == v >> 1,
                    m1 == mask >> 1,
                    mask & 1 == 1,
            ;
        } else {
            assert(((v >> 1) & (mask >> 1)) << 1 == v & mask) by (bit_vector)
                requires
                    mask != 0,
                    mask & 1 != 1,
            ;
        }
    }
}

/// Extracting after a deposit through the same mask recovers the value,
/// reduced to its low `popcount(mask)` bits: exactly the bits the deposit
/// had room for.
pub proof fn lemma_extract_deposit(mask: u64, v: u64)
    ensures
        pext_spec(mask, pdep_spec(mask, v)) == v & low_ones(popcount_spec(mask)),
    decreases mask,
{
    if mask == 0 {
        assert(v & 0 == 0) by (bit_vector);
    } else {
        let m1: u64 = mask >> 1;
        assert(mask >> 1 < mask) by (bit_vector)
            requires
                mask != 0,
        ;
        if mask & 1 == 1 {
            let v1: u64 = v >> 1;
            lemma_extract_deposit(m1, v1);
            lemma_pdep_in_mask(m1, v1);
            let d: u64 = pdep_spec(m1, v1);
            let w: u64 = (d << 1) | (v & 1);
            assert(w >> 1 == d && w & 1 == (v & 1)) by (bit_vector)
                requires
                    w == (d << 1) | (v & 1),
                    d <= mask >> 1,
            ;
            let lo: u64 = low_ones(popcount_spec(m1));
            assert(popcount_spec(mask) == popcount_spec(m1) + 1);
            assert(low_ones(popcount_spec(m1) + 1) == (lo << 1) | 1);
            assert(((v1 & lo) << 1) | (v & 1) == v & ((lo << 1) | 1)) by (bit_vector)
                requires
                    v1 == v >> 1,
            ;
        } else {
            lemma_extract_deposit(m1, v);
            lemma_pdep_in_mask(m1, v);
            let d: u64 = pdep_spec(m1, v);
            assert((d << 1) >> 1 == d && (d << 1) & 1 == 0) by (bit_vector)
                requires
                    d <= mask >> 1,
            ;
            assert(mask & 1 == 0) by (bit_vector)
                requires
                    mask & 1 != 1,
            ;
            assert(popcount_spec(mask) == popcount_spec(m1));
        }
    }
}

/// Appending a flag byte `0x80` below a word adds exactly one set bit.
pub proof fn lemma_popcount_flag_byte(x: u64)
    requires
        x <= 0x00FFFFFFFFFFFFFF,
    ensures
        popcount_spec((x << 8) | 0x80) == popcount_spec(x) + 1,
{
    assert({
        &&& ((x << 8) | 0x80) != 0 && ((x << 8) | 0x80) & 1 == 0 && ((x << 8) | 0x80) >> 1 == ((x
            << 7) | 0x40)
        &&& ((x << 7) | 0x40) != 0 && ((x << 7) | 0x40) & 1 == 0 && ((x << 7) | 0x40) >> 1 == ((x
            << 6) | 0x20)
        &&& ((x << 6) | 0x20) != 0 && ((x << 6) | 0x20) & 1 == 0 && ((x << 6) | 0x20) >> 1 == ((x
            << 5) | 0x10)
        &&& ((x << 5) | 0x10) != 0 && ((x << 5) | 0x10) & 1 == 0 && ((x << 5) | 0x10) >> 1 == ((x
            << 4) | 0x08)
        &&& ((x << 4) | 0x08) != 0 && ((x << 4) | 0x08) & 1 == 0 && ((x << 4) | 0x08) >> 1 == ((x
            << 3) | 0x04)
        &&& ((x << 3) | 0x04) != 0 && ((x << 3) | 0x04) & 1 == 0 && ((x << 3) | 0x04) >> 1 == ((x
            << 2) | 0x02)
        &&& ((x << 2) | 0x02) != 0 && ((x << 2) | 0x02) & 1 == 0 && ((x << 2) | 0x02) >> 1 == ((x
            << 1) | 0x01)
        &&& ((x << 1) | 0x01) != 0 && ((x << 1) | 0x01) & 1 == 1 && ((x << 1) | 0x01) >> 1 == x
    }) by (bit_vector)
        requires
            x <= 0x00FFFFFFFFFFFFFF,
    ;
    assert(popcount_spec((x << 1) | 0x01) == popcount_spec(x) + 1);
    assert(popcount_spec((x << 2) | 0x02) == popcount_spec((x << 1) | 0x01));
    assert(popcount_spec((x << 3) | 0x04) == popcount_spec((x << 2) | 0x02));
    assert(popcount_spec((x << 4) | 0x08) == popcount_spec((x << 3) | 0x04));
    assert(popcount_spec((x << 5) | 0x10) == popcount_spec((x << 4) | 0x08));
    assert(popcount_spec((x << 6) | 0x20) == popcount_spec((x << 5) | 0x10));
    assert(popcount_spec((x << 7) | 0x40) == popcount_spec((x << 6) | 0x20));
    assert(popcount_spec((x << 8) | 0x80) == popcount_spec((x << 7) | 0x40));
}

/// Appending a payload byte `0x7F` below a word adds exactly seven set bits.
pub proof fn lemma_popcount_payload_byte(x: u64)
    requires
        x <= 0x00FFFFFFFFFFFFFF,
    ensures
        popcount_spec((x << 8) | 0x7F) == popcount_spec(x) + 7,
{
    assert({
        &&& ((x << 8) | 0x7F) != 0 && ((x << 8) | 0x7F) & 1 == 1 && ((x << 8) | 0x7F) >> 1 == ((x
            << 7) | 0x3F)
        &&& ((x << 7) | 0x3F) != 0 && ((x << 7) | 0x3F) & 1 == 1 && ((x << 7) | 0x3F) >> 1 == ((x
            << 6) | 0x1F)
        &&& ((x << 6) | 0x1F) != 0 && ((x << 6) | 0x1F) & 1 == 1 && ((x << 6) | 0x1F) >> 1 == ((x
            << 5) | 0x0F)
        &&& ((x << 5) | 0x0F) != 0 && ((x << 5) | 0x0F) & 1 == 1 && ((x << 5) | 0x0F) >> 1 == ((x
            << 4) | 0x07)
        &&& ((x << 4) | 0x07) != 0 && ((x << 4) | 0x07) & 1 == 1 && ((x << 4) | 0x07) >> 1 == ((x
            << 3) | 0x03)
        &&& ((x << 3) | 0x03) != 0 && ((x << 3) | 0x03) & 1 == 1 && ((x << 3) | 0x03) >> 1 == ((x
            << 2) | 0x01)
        &&& ((x << 2) | 0x01) != 0 && ((x << 2) | 0x01) & 1 == 1 && ((x << 2) | 0x01) >> 1 == (x
            << 1)
        &&& (x << 1) & 1 == 0 && (x << 1) >> 1 == x
        &&& ((x << 1) == 0 ==> x == 0)
    }) by (bit_vector)
        requires
            x <= 0x00FFFFFFFFFFFFFF,
    ;
    if (x << 1) == 0 {
        assert(popcount_spec(x << 1) == popcount_spec(x));
    } else {
        assert(popcount_spec(x << 1) == popcount_spec(x));
    }
    assert(popcount_spec((x << 2) | 0x01) == popcount_spec(x << 1) + 1);
    assert(popcount_spec((x << 3) | 0x03) == popcount_spec((x << 2) | 0x01) + 1);
    assert(popcount_spec((x << 4) | 0x07) == popcount_spec((x << 3) | 0x03) + 1);
    assert(popcount_spec((x << 5) | 0x0F) == popcount_spec((x << 4) | 0x07) + 1);
    assert(popcount_spec((x << 6) | 0x1F) == popcount_spec((x << 5) | 0x0F) + 1);
    assert(popcount_spec((x << 7) | 0x3F) == popcount_spec((x << 6) | 0x1F) + 1);
    assert(popcount_spec((x << 8) | 0x7F) == popcount_spec((x << 7) | 0x3F) + 1);
}

/// `low_ones(n)` is the predecessor of the `n`-th power of two.
pub proof fn lemma_low_ones_shift(n: nat)
    requires
        n <= 63,
    ensures
        low_ones(n) == (1u64 << (n as u64)) - 1,
    decreases n,
{
    if n == 0 {
        assert((1u64 << 0) - 1 == 0) by (bit_vector);
    } else {
        lemma_low_ones_shift((n - 1) as nat);
        let k: u64 = n as u64;
        let l: u64 = low_ones((n - 1) as nat);
        assert((l << 1) | 1 == (1u64 << k) - 1) by (bit_vector)
            requires
                1 <= k <= 63,
                l == (1u64 << ((k - 1) as u64)) - 1,
        ;
    }
}

/// Parallel bit extract: gathers the bits of `src` selected by `mask` into
/// the low-order bits of the result. Portable equivalent of the hardware
/// bit-gather instruction.
pub fn pext(mask: u64, src: u64) -> (r: u64)
    ensures
        r == pext_spec(mask, src),
    decreases mask,
{
    if mask == 0 {
        0
    } else {
        proof {
            assert(mask >> 1 < mask) by (bit_vector)
                requires
                    mask != 0,
            ;
        }
        let sub: u64 = pext(mask >> 1, src >> 1);
        if mask & 1 == 1 {
            (sub << 1) | (src & 1)
        } else {
            sub
        }
    }
}

/// Parallel bit deposit: scatters the low-order bits of `packed` into the
/// bit positions of the result selected by `mask`. Portable equivalent of
/// the hardware bit-scatter instruction.
pub fn pdep(mask: u64, packed: u64) -> (r: u64)
    ensures
        r == pdep_spec(mask, packed),
    decreases mask,
{
    if mask == 0 {
        0
    } else {
        proof {
            assert(mask >> 1 < mask) by (bit_vector)
                requires
                    mask != 0,
            ;
        }
        if mask & 1 == 1 {
            (pdep(mask >> 1, packed >> 1) << 1) | (packed & 1)
        } else {
            pdep(mask >> 1, packed) << 1
        }
    }
}

/// Counts the set bits of `x`.
pub fn popcount(x: u64) -> (r: u64)
    ensures
        r == popcount_spec(x),
    decreases x,
{
    if x == 0 {
        0
    } else {
        proof {
            assert(x >> 1 < x) by (bit_vector)
                requires
                    x != 0,
            ;
            lemma_popcount_le(x >> 1);
            assert((x >> 1) + (x & 1) <= x) by (bit_vector)
                requires
                    x != 0,
            ;
        }
        popcount(x >> 1) + (x & 1)
    }
}

} // verus!
