//! The Track 2 family of decoders (5-bit characters: 4 data bits and a
//! parity bit), with a single-bit search for the start sentinel.
use vstd::prelude::*;

use super::common::{calculate_lrc_track2, check_parity, extract_bits, lrc_track2, lsb_value, parity_holds};
use crate::{BitStream, DecoderError, ParityType};

verus! {

/// The start sentinel `;` in canonical form (data in bits 0..3, parity in bit 4).
pub const TRACK2_START_SENTINEL: u8 = 0b01011;

/// The end sentinel `?` in canonical form.
pub const TRACK2_END_SENTINEL: u8 = 0b11111;

/// The fewest bits that a framed Track 2 stream can hold.
pub const TRACK2_MIN_BITS: usize = 15;

/// The low five bits of `v` in reverse order.
pub open spec fn reverse5(v: u8) -> u8 {
    ((v & 0b00001) << 4u8) | ((v & 0b00010) << 2u8) | (v & 0b00100) | ((v & 0b01000) >> 2u8) | ((v
        & 0b10000) >> 4u8)
}

/// The canonical form of a 5-bit window value `v` read least significant
/// bit first: bit-reversed where the wire order is most significant bit
/// first, then complemented where the polarity is inverted.
pub open spec fn canonical5(v: u8, lsb_first: bool, inverted: bool) -> u8 {
    let v = if lsb_first {
        v
    } else {
        reverse5(v)
    };
    (if inverted {
        v ^ 0x1F
    } else {
        v
    }) & 0x1F
}

/// The canonical 5-bit character at `offset` (data in bits 0..3, parity in
/// bit 4).
pub open spec fn track2_symbol(bits: Seq<bool>, offset: int, lsb_first: bool, inverted: bool) -> u8 {
    canonical5(lsb_value(bits, offset, 5) as u8, lsb_first, inverted)
}

/// The character that four Track 2 data bits stand for: `0`..`9` and `:;<=>?`.
pub open spec fn track2_char(data: u8) -> char {
    (0x30 + data) as char
}

/// The first position at or after `from` where the start sentinel stands.
pub open spec fn find_start(bits: Seq<bool>, from: int, lsb_first: bool, inverted: bool) -> Option<int>
    decreases bits.len() - from,
{
    if from < 0 || from + 5 > bits.len() {
        None
    } else if track2_symbol(bits, from, lsb_first, inverted) == TRACK2_START_SENTINEL {
        Some(from)
    } else {
        find_start(bits, from + 1, lsb_first, inverted)
    }
}

/// The outcome of a scan that decoded `out`: an empty result is a failure.
pub open spec fn scan_outcome(out: Seq<char>) -> Result<Seq<char>, DecoderError> {
    if out.len() == 0 {
        Err(DecoderError::NoValidFormat { attempted: 1 })
    } else {
        Ok(out)
    }
}

/// The checksum character expected after the characters `read`.
pub open spec fn expected_track2_lrc(read: Seq<u8>, inverted: bool) -> u8 {
    if inverted {
        lrc_track2(read) ^ 0x1F
    } else {
        lrc_track2(read)
    }
}

/// Decoding from `offset` on in 5-bit steps, where `read` holds the
/// characters read since the start sentinel (for the checksum) and `out` the
/// characters decoded so far.
pub open spec fn track2_scan(
    bits: Seq<bool>,
    offset: int,
    lsb_first: bool,
    inverted: bool,
    sentinels: bool,
    even_parity: bool,
    read: Seq<u8>,
    out: Seq<char>,
) -> Result<Seq<char>, DecoderError>
    decreases bits.len() - offset,
{
    if offset < 0 || offset + 5 > bits.len() {
        scan_outcome(out)
    } else {
        let c = track2_symbol(bits, offset, lsb_first, inverted);
        let parity = if even_parity {
            ParityType::Even
        } else {
            ParityType::Odd
        };
        if !parity_holds(c as nat, 5, parity) {
            Err(DecoderError::ParityError { position: (offset / 5) as usize })
        } else if sentinels && c == TRACK2_END_SENTINEL {
            if offset + 10 <= bits.len() && track2_symbol(bits, offset + 5, lsb_first, inverted)
                != expected_track2_lrc(read, inverted) {
                Err(DecoderError::LrcCheckFailed)
            } else {
                scan_outcome(out)
            }
        } else {
            track2_scan(
                bits,
                offset + 5,
                lsb_first,
                inverted,
                sentinels,
                even_parity,
                read.push(c),
                out.push(track2_char(c & 0x0F)),
            )
        }
    }
}

/// What the Track 2 decoder returns on `bits` with the given options.
pub open spec fn track2_decode(
    bits: Seq<bool>,
    inverted: bool,
    lsb_first: bool,
    no_sentinels: bool,
    even_parity: bool,
) -> Result<Seq<char>, DecoderError> {
    if no_sentinels {
        track2_scan(bits, 0, lsb_first, inverted, false, even_parity, seq![], seq![])
    } else if bits.len() < TRACK2_MIN_BITS {
        Err(
            DecoderError::BitstreamTooShort {
                bit_count: bits.len() as usize,
                minimum_required: TRACK2_MIN_BITS,
            },
        )
    } else {
        match find_start(bits, 0, lsb_first, inverted) {
            None => Err(DecoderError::InvalidStartSentinel),
            Some(start) => track2_scan(
                bits,
                start + 5,
                lsb_first,
                inverted,
                true,
                even_parity,
                seq![TRACK2_START_SENTINEL],
                seq![],
            ),
        }
    }
}

/// The view of a decoding result: the characters of a decoded string.
pub open spec fn result_view(r: Result<String, DecoderError>) -> Result<Seq<char>, DecoderError> {
    match r {
        Ok(s) => Ok(s@),
        Err(e) => Err(e),
    }
}

/// Reverses the low five bits of `v`.
fn bitrev5(v: u8) -> (r: u8)
    ensures
        r == reverse5(v),
{
    ((v & 0b00001) << 4) | ((v & 0b00010) << 2) | (v & 0b00100) | ((v & 0b01000) >> 2) | ((v
        & 0b10000) >> 4)
}

/// Reads the canonical 5-bit character at `off`.
fn read_char5(stream: &BitStream, off: usize, lsb_first_on_wire: bool, inverted: bool) -> (r: Option<u8>)
    ensures
        off + 5 > stream@.len() ==> r is None,
        off + 5 <= stream@.len() ==> r == Some(
            track2_symbol(stream@, off as int, lsb_first_on_wire, inverted),
        ),
{
    let mut v = match extract_bits(stream, off, 5) {
        Some(v) => v,
        None => return None,
    };
    if !lsb_first_on_wire {
        v = bitrev5(v);
    }
    if inverted {
        v = v ^ 0x1F;
    }
    Some(v & 0x1F)
}

/// Maps four Track 2 data bits to their character.
fn decode_track2_character(data_bits: u8) -> (r: Result<char, DecoderError>)
    ensures
        data_bits < 16 ==> r == Ok::<char, DecoderError>(track2_char(data_bits)),
        data_bits >= 16 ==> r == Err::<char, DecoderError>(
            DecoderError::InvalidCharacter { position: 0, character: data_bits },
        ),
{
    if data_bits < 16 {
        Ok((0x30 + data_bits) as char)
    } else {
        Err(DecoderError::InvalidCharacter { position: 0, character: data_bits })
    }
}

/// Turns the characters that a scan decoded into its result: an empty
/// result is a failure.
pub(crate) fn finish_scan(result: String) -> (r: Result<String, DecoderError>)
    ensures
        result_view(r) == scan_outcome(result@),
{
    if result.as_str().is_empty() {
        Err(DecoderError::NoValidFormat { attempted: 1 })
    } else {
        Ok(result)
    }
}

/// Searches, one bit at a time, for the first position where the canonical
/// start sentinel stands.
fn find_track2_start(stream: &BitStream, lsb_first: bool, inverted: bool) -> (r: Option<usize>)
    ensures
        match r {
            Some(p) => p + 5 <= stream@.len() && find_start(stream@, 0, lsb_first, inverted) == Some(
                p as int,
            ),
            None => find_start(stream@, 0, lsb_first, inverted) is None,
        },
{
    let n = stream.len();
    let mut search_offset: usize = 0;
    while search_offset < n && n - search_offset >= 5
        invariant
            search_offset <= n == stream@.len(),
            find_start(stream@, 0, lsb_first, inverted) == find_start(
                stream@,
                search_offset as int,
                lsb_first,
                inverted,
            ),
        decreases n - search_offset,
    {
        let char_bits = match read_char5(stream, search_offset, lsb_first, inverted) {
            Some(c) => c,
            None => return None,
        };
        if char_bits == TRACK2_START_SENTINEL {
            return Some(search_offset);
        }
        search_offset = search_offset + 1;
    }
    None
}

/// Decodes a Track 2 stream.
///
/// Every window is read as a canonical character (see `track2_symbol`).
/// Unless `no_sentinels` is set, the stream must hold at least 15 bits, the
/// start sentinel is searched for at every bit position, characters are then
/// read in 5-bit steps up to the end sentinel, and the character after the
/// end sentinel, where the stream holds one, must be the LRC of the start
/// sentinel and the data characters (complemented where `inverted`). Each
/// character must carry odd parity, or even parity where `even_parity` is
/// set. With `no_sentinels`, every aligned window is a data character.
/// `swapped_parity` selects a layout that is read as the standard one.
pub fn decode_track2(
    stream: &BitStream,
    inverted: bool,
    lsb_first: bool,
    no_sentinels: bool,
    swapped_parity: bool,
    even_parity: bool,
) -> (r: Result<String, DecoderError>)
    ensures
        result_view(r) == track2_decode(stream@, inverted, lsb_first, no_sentinels, even_parity),
{
    let n = stream.len();
    if !no_sentinels && n < TRACK2_MIN_BITS {
        return Err(
            DecoderError::BitstreamTooShort { bit_count: n, minimum_required: TRACK2_MIN_BITS },
        );
    }
    let mut result = String::new();
    let mut chars_read: Vec<u8> = Vec::new();
    let mut offset: usize = 0;
    if !no_sentinels {
        match find_track2_start(stream, lsb_first, inverted) {
            Some(start) => {
                chars_read.push(TRACK2_START_SENTINEL);
                offset = start + 5;
            },
            None => return Err(DecoderError::InvalidStartSentinel),
        }
    }
    assert(chars_read@ == (if no_sentinels { seq![] } else { seq![TRACK2_START_SENTINEL] }));
    let parity_type = if even_parity {
        ParityType::Even
    } else {
        ParityType::Odd
    };
    while offset <= n && n - offset >= 5
        invariant
            offset <= n == stream@.len(),
            parity_type == (if even_parity { ParityType::Even } else { ParityType::Odd }),
            track2_decode(stream@, inverted, lsb_first, no_sentinels, even_parity) == track2_scan(
                stream@,
                offset as int,
                lsb_first,
                inverted,
                !no_sentinels,
                even_parity,
                chars_read@,
                result@,
            ),
        decreases n - offset,
    {
        let char_bits = match read_char5(stream, offset, lsb_first, inverted) {
            Some(c) => c,
            None => {
                return Err(
                    DecoderError::BitstreamTooShort { bit_count: n, minimum_required: offset + 5 },
                )
            },
        };
        if !check_parity(char_bits, 5, &parity_type) {
            return Err(DecoderError::ParityError { position: offset / 5 });
        }
        if !no_sentinels && char_bits == TRACK2_END_SENTINEL {
            if n - offset >= 10 {
                let lrc_bits = match read_char5(stream, offset + 5, lsb_first, inverted) {
                    Some(c) => c,
                    None => {
                        return Err(
                            DecoderError::BitstreamTooShort {
                                bit_count: n,
                                minimum_required: offset + 10,
                            },
                        )
                    },
                };
                let mut calculated_lrc = calculate_lrc_track2(chars_read.as_slice());
                if inverted {
                    calculated_lrc = calculated_lrc ^ 0x1F;
                }
                if lrc_bits != calculated_lrc {
                    return Err(DecoderError::LrcCheckFailed);
                }
            }
            return finish_scan(result);
        }
        chars_read.push(char_bits);
        // The swapped-parity layout is read as the standard one.
        let data_bits = char_bits & 0x0F;
        assert(data_bits < 16) by (bit_vector)
            requires
                data_bits == char_bits & 0x0F,
        ;
        let decoded_char = match decode_track2_character(data_bits) {
            Ok(c) => c,
            Err(e) => return Err(e),
        };
        result.push(decoded_char);
        offset = offset + 5;
    }
    finish_scan(result)
}

} // verus!
