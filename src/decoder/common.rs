//! Bit extraction, parity and checksum primitives shared by the decoders.
use vstd::prelude::*;

use crate::bitstream::{bit_at, bits_of, BitStream};
use crate::ParityType;

verus! {

/// Two to the power `w`.
pub open spec fn two_to(w: nat) -> nat
    decreases w,
{
    if w == 0 {
        1
    } else {
        2 * two_to((w - 1) as nat)
    }
}

/// 1 for a set bit, 0 for a clear one.
pub open spec fn bit_value(b: bool) -> nat {
    if b {
        1
    } else {
        0
    }
}

/// The value of the `width` bits that start at `offset`, the first bit read
/// being the least significant one.
pub open spec fn lsb_value(bits: Seq<bool>, offset: int, width: nat) -> nat
    decreases width,
{
    if width == 0 {
        0
    } else {
        bit_value(bits[offset]) + 2 * lsb_value(bits, offset + 1, (width - 1) as nat)
    }
}

/// The value of the `width` bits that start at `offset`, the first bit read
/// being the most significant one.
pub open spec fn msb_value(bits: Seq<bool>, offset: int, width: nat) -> nat
    decreases width,
{
    if width == 0 {
        0
    } else {
        2 * msb_value(bits, offset, (width - 1) as nat) + bit_value(bits[offset + width - 1])
    }
}

/// The number of set bits among the low `width` bits of `v`.
pub open spec fn ones(v: nat, width: nat) -> nat
    decreases width,
{
    if width == 0 {
        0
    } else {
        v % 2 + ones(v / 2, (width - 1) as nat)
    }
}

/// Whether the low `width` bits of `value` carry the parity `parity`.
pub open spec fn parity_holds(value: nat, width: nat, parity: ParityType) -> bool {
    match parity {
        ParityType::NoParity => true,
        ParityType::Odd => ones(value, width) % 2 == 1,
        ParityType::Even => ones(value, width) % 2 == 0,
    }
}

/// The XOR of all bytes of `s`.
pub open spec fn xor_all(s: Seq<u8>) -> u8
    decreases s.len(),
{
    if s.len() == 0 {
        0
    } else {
        xor_all(s.drop_last()) ^ s.last()
    }
}

/// The XOR of the low six bits of all bytes of `s`.
pub open spec fn xor_low6(s: Seq<u8>) -> u8
    decreases s.len(),
{
    if s.len() == 0 {
        0
    } else {
        xor_low6(s.drop_last()) ^ (s.last() & 0x3F)
    }
}

/// The Track 2 LRC of `s`: the XOR of all characters, with bit 4 flipped
/// where the low five bits of that XOR hold an odd number of ones.
pub open spec fn lrc_track2(s: Seq<u8>) -> u8 {
    let x = xor_all(s);
    if ones(x as nat, 5) % 2 == 1 {
        x ^ 0x10
    } else {
        x
    }
}

/// The Track 1 LRC of `s`: the XOR of the low six bits of all characters,
/// with bit 6 set where those six bits hold an even number of ones.
pub open spec fn lrc_track1(s: Seq<u8>) -> u8 {
    let x = xor_low6(s);
    if ones(x as nat, 6) % 2 == 0 {
        x | 0x40
    } else {
        x
    }
}

pub proof fn lemma_two_to_byte(w: nat)
    requires
        w <= 8,
    ensures
        two_to(w) <= 256,
    decreases 8 - w,
{
    if w < 8 {
        lemma_two_to_byte(w + 1);
    } else {
        reveal_with_fuel(two_to, 9);
    }
}

pub proof fn lemma_lsb_value_bound(bits: Seq<bool>, offset: int, width: nat)
    ensures
        lsb_value(bits, offset, width) < two_to(width),
    decreases width,
{
    if width > 0 {
        lemma_lsb_value_bound(bits, offset + 1, (width - 1) as nat);
    }
}

/// Reads the bit at `pos` from a stream's left-aligned bytes.
fn read_bit(buffer: &[u8], pos: usize, Ghost(bits): Ghost<Seq<bool>>) -> (r: u32)
    requires
        pos < bits.len(),
        bits == bits_of(buffer@, bits.len()),
        buffer@.len() * 8 >= bits.len(),
    ensures
        r == bit_value(bits[pos as int]),
{
    let byte: u8 = buffer[pos / 8];
    let shift: u8 = (7 - pos % 8) as u8;
    let bit: u8 = (byte >> shift) & 1;
    assert(bit == 0 || bit == 1) by (bit_vector)
        requires
            bit == (byte >> shift) & 1u8,
    ;
    assert(bits[pos as int] == bit_at(buffer@, pos as int));
    bit as u32
}

/// Reads `bits_per_char` bits from `offset`, taking each source bit most
/// significant first within its byte, and puts the first bit read in the
/// least significant place of the result.
pub fn extract_bits(stream: &BitStream, offset: usize, bits_per_char: u8) -> (r: Option<u8>)
    requires
        bits_per_char <= 8,
    ensures
        offset + bits_per_char > stream@.len() ==> r is None,
        offset + bits_per_char <= stream@.len() ==> r == Some(
            lsb_value(stream@, offset as int, bits_per_char as nat) as u8,
        ),
{
    let n = stream.len();
    let w = bits_per_char as usize;
    if w > n || offset > n - w {
        return None;
    }
    let buffer = stream.buffer();
    let ghost bits = stream@;
    let mut result: u32 = 0;
    let mut k: usize = w;
    while k > 0
        invariant
            k <= w <= 8,
            offset + w <= n == bits.len(),
            bits == bits_of(buffer@, bits.len()),
            buffer@.len() * 8 >= bits.len(),
            result == lsb_value(bits, offset + k, (w - k) as nat),
            result < two_to((w - k) as nat),
            two_to((w - k) as nat) <= 256,
        decreases k,
    {
        k = k - 1;
        let bit = read_bit(buffer, offset + k, Ghost(bits));
        result = bit + 2 * result;
        proof {
            lemma_two_to_byte((w - k) as nat);
        }
    }
    Some(result as u8)
}

/// Reads `bits_per_char` bits from `offset` in the same order as
/// `extract_bits`, but puts the first bit read in the most significant place.
pub fn extract_bits_msb(stream: &BitStream, offset: usize, bits_per_char: u8) -> (r: Option<u8>)
    requires
        bits_per_char <= 8,
    ensures
        offset + bits_per_char > stream@.len() ==> r is None,
        offset + bits_per_char <= stream@.len() ==> r == Some(
            msb_value(stream@, offset as int, bits_per_char as nat) as u8,
        ),
{
    let n = stream.len();
    let w = bits_per_char as usize;
    if w > n || offset > n - w {
        return None;
    }
    let buffer = stream.buffer();
    let ghost bits = stream@;
    let mut result: u32 = 0;
    let mut k: usize = 0;
    while k < w
        invariant
            k <= w <= 8,
            offset + w <= n == bits.len(),
            bits == bits_of(buffer@, bits.len()),
            buffer@.len() * 8 >= bits.len(),
            result == msb_value(bits, offset as int, k as nat),
            result < two_to(k as nat),
            two_to(k as nat) <= 256,
        decreases w - k,
    {
        let bit = read_bit(buffer, offset + k, Ghost(bits));
        result = 2 * result + bit;
        k = k + 1;
        proof {
            lemma_two_to_byte(k as nat);
        }
    }
    Some(result as u8)
}

/// Flips every bit of a byte (reversed magnetic polarity).
pub fn invert_bits(byte: u8) -> (r: u8)
    ensures
        r == !byte,
{
    !byte
}

/// Counts the set bits among the low `bits` bits of `value`.
fn count_ones(value: u8, bits: u8) -> (r: u8)
    ensures
        r == ones(value as nat, bits as nat),
{
    let mut v: u8 = value;
    let mut count: u8 = 0;
    let mut i: u8 = 0;
    while i < bits
        invariant
            i <= bits,
            count <= i,
            count + ones(v as nat, (bits - i) as nat) == ones(value as nat, bits as nat),
        decreases bits - i,
    {
        count = count + v % 2;
        v = v / 2;
        i = i + 1;
    }
    count
}

/// Whether the low `bits` bits of `value` carry the parity `parity_type`:
/// an odd number of ones for `Odd`, an even number for `Even`, anything for
/// `NoParity`.
pub fn check_parity(value: u8, bits: u8, parity_type: &ParityType) -> (r: bool)
    ensures
        r == parity_holds(value as nat, bits as nat, *parity_type),
{
    match parity_type {
        ParityType::NoParity => true,
        ParityType::Odd => count_ones(value, bits) % 2 == 1,
        ParityType::Even => count_ones(value, bits) % 2 == 0,
    }
}

/// The Track 2 LRC of `data` (see `lrc_track2`).
pub fn calculate_lrc_track2(data: &[u8]) -> (r: u8)
    ensures
        r == lrc_track2(data@),
{
    let mut lrc: u8 = 0;
    let mut i: usize = 0;
    while i < data.len()
        invariant
            i <= data@.len(),
            lrc == xor_all(data@.subrange(0, i as int)),
        decreases data@.len() - i,
    {
        assert(data@.subrange(0, i + 1).drop_last() =~= data@.subrange(0, i as int));
        lrc = lrc ^ data[i];
        i = i + 1;
    }
    assert(data@.subrange(0, i as int) =~= data@);
    if count_ones(lrc, 5) % 2 == 1 {
        lrc = lrc ^ 0x10;
    }
    lrc
}

/// The Track 1 LRC of `data` (see `lrc_track1`).
pub fn calculate_lrc_track1(data: &[u8]) -> (r: u8)
    ensures
        r == lrc_track1(data@),
{
    let mut lrc: u8 = 0;
    let mut i: usize = 0;
    while i < data.len()
        invariant
            i <= data@.len(),
            lrc == xor_low6(data@.subrange(0, i as int)),
        decreases data@.len() - i,
    {
        assert(data@.subrange(0, i + 1).drop_last() =~= data@.subrange(0, i as int));
        lrc = lrc ^ (data[i] & 0x3F);
        i = i + 1;
    }
    assert(data@.subrange(0, i as int) =~= data@);
    if count_ones(lrc, 6) % 2 == 0 {
        lrc = lrc | 0x40;
    }
    lrc
}

} // verus!
