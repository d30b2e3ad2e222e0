//! The varint codec itself.
//!
//! An encoding lives in a fixed 8-byte little-endian window. Each byte
//! splits into a 7-bit payload (bits 0 to 6) and a continuation flag (bit
//! 7): every active byte except the last carries a set flag, and the bytes
//! after the active ones are zero. The decoder reads the whole window as
//! one 64-bit word, counts the set continuation flags to learn how many
//! bytes are active, and gathers the payload lanes with one `pext`; the
//! encoder picks the byte count from the value's magnitude, scatters the
//! value into the payload lanes with one `pdep`, and ORs the flags in.

use crate::bits::{
    lemma_extract_deposit, lemma_low_ones_shift, lemma_pdep_in_mask, lemma_pext_of_masked,
    lemma_popcount_flag_byte, lemma_popcount_payload_byte, low_ones, pdep, pdep_spec, pext,
    pext_spec, popcount, popcount_spec,
};
use vstd::prelude::*;

verus! {

/// Bit 7 of every byte lane: the continuation flags of the 8-byte window.
pub const CONTINUATION_MASK: u64 = 0x8080808080808080;

/// The largest encodable value: 8 active bytes of 7 payload bits each.
pub const MAX_ENCODABLE: u64 = 0x00FFFFFFFFFFFFFF;

/// Why a decode was refused.
#[derive(Clone, Copy, Debug, PartialEq, Eq, Structural)]
pub enum DecodeError {
    /// The input holds fewer than the 8 bytes of the read window.
    BufferTooShort,
    /// The window claims more continuation bytes than the format supports.
    VarIntTooLong,
}

/// Why an encode was refused.
#[derive(Clone, Copy, Debug, PartialEq, Eq, Structural)]
pub enum EncodeError {
    /// The value needs a ninth encoded byte, which the format does not have.
    ValueTooLarge,
}

/// The payload selector mask for `count` active bytes: the 7-bit pattern
/// `0x7F` repeated in the lowest `count` byte lanes.
pub open spec fn payload_mask(count: nat) -> u64
    decreases count,
{
    if count == 0 {
        0u64
    } else {
        (payload_mask((count - 1) as nat) << 8) | 0x7F
    }
}

/// The continuation flags of an encoding with `count` active bytes: bit 7
/// set in every active byte lane except the last.
pub open spec fn terminator_flags(count: nat) -> u64
    decreases count,
{
    if count <= 1 {
        0u64
    } else {
        (terminator_flags((count - 1) as nat) << 8) | 0x80
    }
}

/// How many bytes the encoding of `x` occupies, by the value's magnitude.
pub open spec fn byte_len(x: u64) -> nat
    recommends
        x <= MAX_ENCODABLE,
{
    if x <= 0x7F {
        1nat
    } else if x <= 0x3FFF {
        2nat
    } else if x <= 0x1FFFFF {
        3nat
    } else if x <= 0xFFFFFFF {
        4nat
    } else if x <= 0x7FFFFFFFF {
        5nat
    } else if x <= 0x3FFFFFFFFFF {
        6nat
    } else if x <= 0x1FFFFFFFFFFFF {
        7nat
    } else {
        8nat
    }
}

/// The number of set continuation flags in the window word `w`: one less
/// than the active byte count of a well-formed encoding.
pub open spec fn flag_count(w: u64) -> nat {
    popcount_spec(w & CONTINUATION_MASK)
}

/// The 64-bit window word that encodes `x`: the value scattered into the
/// payload lanes of its active bytes, with the continuation flags ORed in.
pub open spec fn encoded_word(x: u64) -> u64
    recommends
        x <= MAX_ENCODABLE,
{
    pdep_spec(payload_mask(byte_len(x)), x) | terminator_flags(byte_len(x))
}

/// What decoding makes of a window word: gather the payload lanes selected
/// by the flag count, or nothing when all 8 flags are set (a ninth byte
/// would be needed).
pub open spec fn decode_word(w: u64) -> Option<u64> {
    if flag_count(w) <= 7 {
        Some(pext_spec(payload_mask(flag_count(w) + 1), w))
    } else {
        None
    }
}

/// The first 8 bytes of `s` read as a little-endian 64-bit word.
pub open spec fn le_word(s: Seq<u8>) -> u64
    recommends
        s.len() >= 8,
{
    (s[0] as u64) | ((s[1] as u64) << 8) | ((s[2] as u64) << 16) | ((s[3] as u64) << 24) | ((
    s[4] as u64) << 32) | ((s[5] as u64) << 40) | ((s[6] as u64) << 48) | ((s[7] as u64) << 56)
}

/// The 8 bytes of `w`, least significant first.
pub open spec fn le_bytes(w: u64) -> Seq<u8> {
    seq![
        (w & 0xFF) as u8,
        ((w >> 8) & 0xFF) as u8,
        ((w >> 16) & 0xFF) as u8,
        ((w >> 24) & 0xFF) as u8,
        ((w >> 32) & 0xFF) as u8,
        ((w >> 40) & 0xFF) as u8,
        ((w >> 48) & 0xFF) as u8,
        ((w >> 56) & 0xFF) as u8,
    ]
}

/// Serializing a word and reading it back is the identity.
pub proof fn lemma_le_bytes_word(w: u64)
    ensures
        le_word(le_bytes(w)) == w,
{
    assert(((w & 0xFF) as u8 as u64) | ((((w >> 8) & 0xFF) as u8 as u64) << 8) | ((((w >> 16)
        & 0xFF) as u8 as u64) << 16) | ((((w >> 24) & 0xFF) as u8 as u64) << 24) | ((((w >> 32)
        & 0xFF) as u8 as u64) << 32) | ((((w >> 40) & 0xFF) as u8 as u64) << 40) | ((((w >> 48)
        & 0xFF) as u8 as u64) << 48) | ((((w >> 56) & 0xFF) as u8 as u64) << 56) == w)
        by (bit_vector);
}

/// The selector table, spelled out: masks and flags for every admissible
/// active byte count, with the facts the codec proofs lean on. The payload
/// mask and the flags live in disjoint bit ranges, the payload mask carries
/// 7 set bits per active byte, and the flags carry one set bit per active
/// byte but the last.
pub proof fn lemma_selector_table(count: nat)
    requires
        1 <= count <= 8,
    ensures
        payload_mask(count) & CONTINUATION_MASK == 0,
        terminator_flags(count) & CONTINUATION_MASK == terminator_flags(count),
        popcount_spec(payload_mask(count)) == 7 * count,
        popcount_spec(terminator_flags(count)) == count - 1,
        count <= 7 ==> payload_mask(count) <= (1u64 << ((8 * count) as u64)) - 1,
        terminator_flags(count) <= (1u64 << ((8 * (count - 1)) as u64)) - 1,
    decreases count,
{
    if count == 1 {
        assert(payload_mask(0) == 0 && terminator_flags(1) == 0);
        lemma_popcount_payload_byte(0);
        assert(payload_mask(1) == (0u64 << 8) | 0x7F);
        assert({
            &&& ((0u64 << 8) | 0x7F) & 0x8080808080808080 == 0
            &&& 0u64 & 0x8080808080808080 == 0
            &&& ((0u64 << 8) | 0x7F) <= (1u64 << 8) - 1
            &&& 0u64 <= (1u64 << 0) - 1
        }) by (bit_vector);
        assert(popcount_spec(0) == 0);
    } else {
        lemma_selector_table((count - 1) as nat);
        let p: u64 = payload_mask((count - 1) as nat);
        let t: u64 = terminator_flags((count - 1) as nat);
        let k: u64 = (8 * (count - 1)) as u64;
        assert(p <= 0x00FFFFFFFFFFFFFF && t <= 0x00FFFFFFFFFFFFFF) by (bit_vector)
            requires
                8 <= k <= 56,
                p <= (1u64 << k) - 1,
                t <= (1u64 << ((k - 8) as u64)) - 1,
        ;
        lemma_popcount_payload_byte(p);
        lemma_popcount_flag_byte(t);
        assert(payload_mask(count) == (p << 8) | 0x7F);
        assert(terminator_flags(count) == (t << 8) | 0x80);
        assert({
            &&& ((p << 8) | 0x7F) & 0x8080808080808080 == 0
            &&& ((t << 8) | 0x80) & 0x8080808080808080 == ((t << 8) | 0x80)
            &&& ((t << 8) | 0x80) <= (1u64 << k) - 1
        }) by (bit_vector)
            requires
                8 <= k <= 56,
                p & 0x8080808080808080 == 0,
                t & 0x8080808080808080 == t,
                p <= (1u64 << k) - 1,
                t <= (1u64 << ((k - 8) as u64)) - 1,
        ;
        if count <= 7 {
            assert(((p << 8) | 0x7F) <= (1u64 << ((k + 8) as u64)) - 1) by (bit_vector)
                requires
                    8 <= k <= 48,
                    p <= (1u64 << k) - 1,
            ;
        }
    }
}

/// Encoding and decoding round-trip: for every encodable value, the window
/// the encoder builds carries one continuation flag per active byte but the
/// last, the serialized bytes read back as that same window, and decoding
/// the window returns exactly the value.
pub proof fn lemma_round_trip(x: u64)
    requires
        x <= MAX_ENCODABLE,
    ensures
        flag_count(encoded_word(x)) == byte_len(x) - 1,
        le_word(le_bytes(encoded_word(x))) == encoded_word(x),
        decode_word(encoded_word(x)) == Some(x),
{
    let l: nat = byte_len(x);
    lemma_selector_table(l);
    lemma_le_bytes_word(encoded_word(x));
    let pm: u64 = payload_mask(l);
    let tf: u64 = terminator_flags(l);
    lemma_pdep_in_mask(pm, x);
    let d: u64 = pdep_spec(pm, x);
    let w: u64 = d | tf;
    assert(d & 0x8080808080808080 == 0) by (bit_vector)
        requires
            d & pm == d,
            pm & 0x8080808080808080 == 0,
    ;
    assert(w & 0x8080808080808080 == tf) by (bit_vector)
        requires
            w == d | tf,
            d & 0x8080808080808080 == 0,
            tf & 0x8080808080808080 == tf,
    ;
    assert(flag_count(w) == popcount_spec(tf));
    assert(w & pm == d) by (bit_vector)
        requires
            w == d | tf,
            d & pm == d,
            pm & 0x8080808080808080 == 0,
            tf & 0x8080808080808080 == tf,
    ;
    lemma_pext_of_masked(pm, w);
    assert(pext_spec(pm, w) == pext_spec(pm, d));
    lemma_extract_deposit(pm, x);
    lemma_low_ones_shift((7 * l) as nat);
    let lo: u64 = low_ones((7 * l) as nat);
    let k: u64 = (7 * l) as u64;
    assert({
        &&& (1u64 << 7) - 1 == 0x7F
        &&& (1u64 << 14) - 1 == 0x3FFF
        &&& (1u64 << 21) - 1 == 0x1FFFFF
        &&& (1u64 << 28) - 1 == 0xFFFFFFF
        &&& (1u64 << 35) - 1 == 0x7FFFFFFFF
        &&& (1u64 << 42) - 1 == 0x3FFFFFFFFFF
        &&& (1u64 << 49) - 1 == 0x1FFFFFFFFFFFF
        &&& (1u64 << 56) - 1 == 0xFFFFFFFFFFFFFF
    }) by (bit_vector);
    assert(x & lo == x) by (bit_vector)
        requires
            7 <= k <= 56,
            lo == (1u64 << k) - 1,
            x <= (1u64 << k) - 1,
    ;
}

/// Every window byte past the active bytes of an encoding is zero: the
/// continuation flag of the last active byte is clear, and nothing of the
/// value spills past the payload lanes it was deposited into.
pub proof fn lemma_trailing_bytes_zero(x: u64)
    requires
        x <= MAX_ENCODABLE,
    ensures
        forall|i: int| byte_len(x) <= i < 8 ==> le_bytes(encoded_word(x))[i] == 0,
{
    let l: nat = byte_len(x);
    if l < 8 {
        lemma_selector_table(l);
        let pm: u64 = payload_mask(l);
        let tf: u64 = terminator_flags(l);
        lemma_pdep_in_mask(pm, x);
        let d: u64 = pdep_spec(pm, x);
        let w: u64 = d | tf;
        let k: u64 = (8 * l) as u64;
        assert(w <= (1u64 << k) - 1) by (bit_vector)
            requires
                8 <= k <= 56,
                w == d | tf,
                d <= pm,
                pm <= (1u64 << k) - 1,
                tf <= (1u64 << ((k - 8) as u64)) - 1,
        ;
        assert({
            &&& (k <= 8 ==> (w >> 8) & 0xFF == 0)
            &&& (k <= 16 ==> (w >> 16) & 0xFF == 0)
            &&& (k <= 24 ==> (w >> 24) & 0xFF == 0)
            &&& (k <= 32 ==> (w >> 32) & 0xFF == 0)
            &&& (k <= 40 ==> (w >> 40) & 0xFF == 0)
            &&& (k <= 48 ==> (w >> 48) & 0xFF == 0)
            &&& (k <= 56 ==> (w >> 56) & 0xFF == 0)
        }) by (bit_vector)
            requires
                8 <= k <= 56,
                w <= (1u64 << k) - 1,
        ;
        assert forall|i: int| l <= i < 8 implies le_bytes(w)[i] == 0 by {
            if i == 1 {
                assert(le_bytes(w)[1] == ((w >> 8) & 0xFF) as u8);
            } else if i == 2 {
                assert(le_bytes(w)[2] == ((w >> 16) & 0xFF) as u8);
            } else if i == 3 {
                assert(le_bytes(w)[3] == ((w >> 24) & 0xFF) as u8);
            } else if i == 4 {
                assert(le_bytes(w)[4] == ((w >> 32) & 0xFF) as u8);
            } else if i == 5 {
                assert(le_bytes(w)[5] == ((w >> 40) & 0xFF) as u8);
            } else if i == 6 {
                assert(le_bytes(w)[6] == ((w >> 48) & 0xFF) as u8);
            } else {
                assert(le_bytes(w)[7] == ((w >> 56) & 0xFF) as u8);
            }
        }
    }
}

/// Reads the 8-byte window at the start of `buffer` as one little-endian
/// 64-bit word.
fn read_le_word(buffer: &[u8]) -> (w: u64)
    requires
        buffer@.len() >= 8,
    ensures
        w == le_word(buffer@),
{
    (buffer[0] as u64) | ((buffer[1] as u64) << 8) | ((buffer[2] as u64) << 16) | ((
    buffer[3] as u64) << 24) | ((buffer[4] as u64) << 32) | ((buffer[5] as u64) << 40) | ((
    buffer[6] as u64) << 48) | ((buffer[7] as u64) << 56)
}

/// The payload selector mask for `count + 1` active bytes, or nothing when
/// `count` names more continuation bytes than the 8-byte window holds.
fn selector_mask(count: u64) -> (r: Option<u64>)
    ensures
        match r {
            Some(m) => count <= 7 && m == payload_mask((count + 1) as nat),
            None => count > 7,
        },
{
    proof {
        lemma_payload_mask_values();
    }
    match count {
        0 => Some(0x7F),
        1 => Some(0x7F7F),
        2 => Some(0x7F7F7F),
        3 => Some(0x7F7F7F7F),
        4 => Some(0x7F7F7F7F7F),
        5 => Some(0x7F7F7F7F7F7F),
        6 => Some(0x7F7F7F7F7F7F7F),
        7 => Some(0x7F7F7F7F7F7F7F7F),
        _ => None,
    }
}

/// The concrete values of the payload selector masks.
pub proof fn lemma_payload_mask_values()
    ensures
        payload_mask(1) == 0x7F,
        payload_mask(2) == 0x7F7F,
        payload_mask(3) == 0x7F7F7F,
        payload_mask(4) == 0x7F7F7F7F,
        payload_mask(5) == 0x7F7F7F7F7F,
        payload_mask(6) == 0x7F7F7F7F7F7F,
        payload_mask(7) == 0x7F7F7F7F7F7F7F,
        payload_mask(8) == 0x7F7F7F7F7F7F7F7F,
{
    assert({
        &&& (0u64 << 8) | 0x7F == 0x7F
        &&& (0x7Fu64 << 8) | 0x7F == 0x7F7F
        &&& (0x7F7Fu64 << 8) | 0x7F == 0x7F7F7F
        &&& (0x7F7F7Fu64 << 8) | 0x7F == 0x7F7F7F7F
        &&& (0x7F7F7F7Fu64 << 8) | 0x7F == 0x7F7F7F7F7F
        &&& (0x7F7F7F7F7Fu64 << 8) | 0x7F == 0x7F7F7F7F7F7F
        &&& (0x7F7F7F7F7F7Fu64 << 8) | 0x7F == 0x7F7F7F7F7F7F7F
        &&& (0x7F7F7F7F7F7F7Fu64 << 8) | 0x7F == 0x7F7F7F7F7F7F7F7F
    }) by (bit_vector);
    assert(payload_mask(0) == 0);
    assert(payload_mask(1) == (payload_mask(0) << 8) | 0x7F);
    assert(payload_mask(2) == (payload_mask(1) << 8) | 0x7F);
    assert(payload_mask(3) == (payload_mask(2) << 8) | 0x7F);
    assert(payload_mask(4) == (payload_mask(3) << 8) | 0x7F);
    assert(payload_mask(5) == (payload_mask(4) << 8) | 0x7F);
    assert(payload_mask(6) == (payload_mask(5) << 8) | 0x7F);
    assert(payload_mask(7) == (payload_mask(6) << 8) | 0x7F);
    assert(payload_mask(8) == (payload_mask(7) << 8) | 0x7F);
}

/// The concrete values of the terminator flag words.
pub proof fn lemma_terminator_flags_values()
    ensures
        terminator_flags(1) == 0,
        terminator_flags(2) == 0x80,
        terminator_flags(3) == 0x8080,
        terminator_flags(4) == 0x808080,
        terminator_flags(5) == 0x80808080,
        terminator_flags(6) == 0x8080808080,
        terminator_flags(7) == 0x808080808080,
        terminator_flags(8) == 0x80808080808080,
{
    assert({
        &&& (0u64 << 8) | 0x80 == 0x80
        &&& (0x80u64 << 8) | 0x80 == 0x8080
        &&& (0x8080u64 << 8) | 0x80 == 0x808080
        &&& (0x808080u64 << 8) | 0x80 == 0x80808080
        &&& (0x80808080u64 << 8) | 0x80 == 0x8080808080
        &&& (0x8080808080u64 << 8) | 0x80 == 0x808080808080
        &&& (0x808080808080u64 << 8) | 0x80 == 0x80808080808080
    }) by (bit_vector);
    assert(terminator_flags(1) == 0);
    assert(terminator_flags(2) == (terminator_flags(1) << 8) | 0x80);
    assert(terminator_flags(3) == (terminator_flags(2) << 8) | 0x80);
    assert(terminator_flags(4) == (terminator_flags(3) << 8) | 0x80);
    assert(terminator_flags(5) == (terminator_flags(4) << 8) | 0x80);
    assert(terminator_flags(6) == (terminator_flags(5) << 8) | 0x80);
    assert(terminator_flags(7) == (terminator_flags(6) << 8) | 0x80);
    assert(terminator_flags(8) == (terminator_flags(7) << 8) | 0x80);
}

/// Decodes the varint held in the first 8 bytes of `buffer`.
///
/// Fails with `BufferTooShort` when fewer than 8 bytes can be read, and
/// with `VarIntTooLong` when every byte of the window carries a set
/// continuation flag, so that the value would need a ninth byte. On any
/// other window it returns the gathered payload of the active bytes.
///
/// The active byte count comes from a popcount over the whole 8-byte
/// window, not from a scan for the first flag-clear byte. A set
/// continuation flag in a window byte past the varint's own bytes is
/// counted like any other, so bytes of unrelated data inside the window
/// must have their high bits clear (as this crate's encoder guarantees for
/// its trailing bytes) or the decoded value will absorb them.
pub fn decode_var_int(buffer: &[u8]) -> (r: Result<u64, DecodeError>)
    ensures
        match r {
            Ok(v) => buffer@.len() >= 8 && decode_word(le_word(buffer@)) == Some(v),
            Err(DecodeError::BufferTooShort) => buffer@.len() < 8,
            Err(DecodeError::VarIntTooLong) => buffer@.len() >= 8 && decode_word(le_word(buffer@))
                is None,
        },
{
    if buffer.len() < 8 {
        return Err(DecodeError::BufferTooShort);
    }
    let value: u64 = read_le_word(buffer);
    let count: u64 = popcount(value & CONTINUATION_MASK);
    match selector_mask(count) {
        Some(mask) => Ok(pext(mask, value)),
        None => Err(DecodeError::VarIntTooLong),
    }
}

/// Decodes as [`decode_var_int`] does, narrowed to 32 bits.
///
/// Only windows with at most 5 active bytes are admitted; 6 or more fail
/// with `VarIntTooLong`. A 5-byte encoding holds up to 35 payload bits, and
/// a value above `u32::MAX` among them is truncated to its low 32 bits:
/// defined behaviour, not a failure.
pub fn decode_var_int32(buffer: &[u8]) -> (r: Result<u32, DecodeError>)
    ensures
        match r {
            Ok(v) => buffer@.len() >= 8 && flag_count(le_word(buffer@)) <= 4 && v == pext_spec(
                payload_mask(flag_count(le_word(buffer@)) + 1),
                le_word(buffer@),
            ) as u32,
            Err(DecodeError::BufferTooShort) => buffer@.len() < 8,
            Err(DecodeError::VarIntTooLong) => buffer@.len() >= 8 && flag_count(le_word(buffer@))
                >= 5,
        },
{
    if buffer.len() < 8 {
        return Err(DecodeError::BufferTooShort);
    }
    let value: u64 = read_le_word(buffer);
    let count: u64 = popcount(value & CONTINUATION_MASK);
    if count > 4 {
        return Err(DecodeError::VarIntTooLong);
    }
    proof {
        lemma_payload_mask_values();
    }
    let mask: u64 = if count == 0 {
        0x7F
    } else if count == 1 {
        0x7F7F
    } else if count == 2 {
        0x7F7F7F
    } else if count == 3 {
        0x7F7F7F7F
    } else {
        0x7F7F7F7F7F
    };
    Ok(#[verifier::truncate] (pext(mask, value) as u32))
}

/// Encodes `x` as a varint in a fixed 8-byte little-endian window.
///
/// Fails with `ValueTooLarge` when `x` exceeds the 56 payload bits of 8
/// active bytes. Otherwise the window holds the value's bits in the payload
/// lanes of its active bytes, a set continuation flag in every active byte
/// except the last, and zero in every later byte.
pub fn encode_var_int(x: u64) -> (r: Result<Vec<u8>, EncodeError>)
    ensures
        match r {
            Ok(bytes) => x <= MAX_ENCODABLE && bytes@ == le_bytes(encoded_word(x)),
            Err(EncodeError::ValueTooLarge) => x > MAX_ENCODABLE,
        },
{
    proof {
        lemma_payload_mask_values();
        lemma_terminator_flags_values();
    }
    let (mask, finalize): (u64, u64) = if x <= 0x7F {
        (0x7F, 0x00)
    } else if x <= 0x3FFF {
        (0x7F7F, 0x80)
    } else if x <= 0x1FFFFF {
        (0x7F7F7F, 0x8080)
    } else if x <= 0xFFFFFFF {
        (0x7F7F7F7F, 0x808080)
    } else if x <= 0x7FFFFFFFF {
        (0x7F7F7F7F7F, 0x80808080)
    } else if x <= 0x3FFFFFFFFFF {
        (0x7F7F7F7F7F7F, 0x8080808080)
    } else if x <= 0x1FFFFFFFFFFFF {
        (0x7F7F7F7F7F7F7F, 0x808080808080)
    } else if x <= MAX_ENCODABLE {
        (0x7F7F7F7F7F7F7F7F, 0x80808080808080)
    } else {
        return Err(EncodeError::ValueTooLarge);
    };
    let word: u64 = pdep(mask, x) | finalize;
    let mut bytes: Vec<u8> = Vec::new();
    bytes.push(#[verifier::truncate] ((word & 0xFF) as u8));
    bytes.push(#[verifier::truncate] (((word >> 8) & 0xFF) as u8));
    bytes.push(#[verifier::truncate] (((word >> 16) & 0xFF) as u8));
    bytes.push(#[verifier::truncate] (((word >> 24) & 0xFF) as u8));
    bytes.push(#[verifier::truncate] (((word >> 32) & 0xFF) as u8));
    bytes.push(#[verifier::truncate] (((word >> 40) & 0xFF) as u8));
    bytes.push(#[verifier::truncate] (((word >> 48) & 0xFF) as u8));
    bytes.push(#[verifier::truncate] (((word >> 56) & 0xFF) as u8));
    proof {
        assert(bytes@ =~= le_bytes(word));
    }
    Ok(bytes)
}

} // verus!
