//! The Track 1 decoder (7-bit characters: 6 data bits and an odd parity bit).
use vstd::prelude::*;

use super::common::{
    calculate_lrc_track1, check_parity, extract_bits, invert_bits, lrc_track1, lsb_value,
    parity_holds,
};
use super::track2::{finish_scan, result_view, scan_outcome};
use crate::{BitStream, DecoderError, ParityType};

verus! {

/// The data bits of the start sentinel `%`.
pub const TRACK1_START_SENTINEL: u8 = 0b000101;

/// The data bits of the end sentinel `?`.
pub const TRACK1_END_SENTINEL: u8 = 0b011111;

/// The fewest bits that a Track 1 stream can hold.
pub const TRACK1_MIN_BITS: usize = 21;

/// The 7-bit character at `offset`, complemented where `inverted`.
pub open spec fn track1_symbol(bits: Seq<bool>, offset: int, inverted: bool) -> u8 {
    let v = lsb_value(bits, offset, 7) as u8;
    if inverted {
        !v & 0x7F
    } else {
        v
    }
}

/// The character that six Track 1 data bits stand for (ASCII offset by 32).
pub open spec fn track1_char(data: u8) -> char {
    (0x20 + data) as char
}

/// Decoding after the start sentinel, from `offset` on in 7-bit steps, where
/// `read` holds the characters from the start sentinel on and `out` the
/// characters decoded so far.
pub open spec fn track1_scan(
    bits: Seq<bool>,
    offset: int,
    inverted: bool,
    read: Seq<u8>,
    out: Seq<char>,
) -> Result<Seq<char>, DecoderError>
    decreases bits.len() - offset,
{
    if offset < 0 || offset + 7 > bits.len() {
        scan_outcome(out)
    } else {
        let c = track1_symbol(bits, offset, inverted);
        if !parity_holds(c as nat, 7, ParityType::Odd) {
            Err(DecoderError::ParityError { position: (offset / 7) as usize })
        } else if c & 0x3F == TRACK1_END_SENTINEL {
            if offset + 14 <= bits.len() && (lsb_value(bits, offset + 7, 7) as u8) & 0x7F
                != lrc_track1(read.push(c)) {
                Err(DecoderError::LrcCheckFailed)
            } else {
                scan_outcome(out)
            }
        } else {
            track1_scan(
                bits,
                offset + 7,
                inverted,
                read.push(c),
                out.push(track1_char(c & 0x3F)),
            )
        }
    }
}

/// Decoding before the start sentinel, from `offset` on in 7-bit steps:
/// characters are checked for parity and otherwise skipped.
pub open spec fn track1_seek(bits: Seq<bool>, offset: int, inverted: bool) -> Result<
    Seq<char>,
    DecoderError,
>
    decreases bits.len() - offset,
{
    if offset < 0 || offset + 7 > bits.len() {
        Err(DecoderError::InvalidStartSentinel)
    } else {
        let c = track1_symbol(bits, offset, inverted);
        if !parity_holds(c as nat, 7, ParityType::Odd) {
            Err(DecoderError::ParityError { position: (offset / 7) as usize })
        } else if c & 0x3F == TRACK1_START_SENTINEL {
            track1_scan(bits, offset + 7, inverted, seq![c], seq![])
        } else {
            track1_seek(bits, offset + 7, inverted)
        }
    }
}

/// What the Track 1 decoder returns on `bits`.
pub open spec fn track1_decode(bits: Seq<bool>, inverted: bool) -> Result<Seq<char>, DecoderError> {
    if bits.len() < TRACK1_MIN_BITS {
        Err(
            DecoderError::BitstreamTooShort {
                bit_count: bits.len() as usize,
                minimum_required: TRACK1_MIN_BITS,
            },
        )
    } else {
        track1_seek(bits, 0, inverted)
    }
}

/// Maps six Track 1 data bits to their character.
fn decode_track1_character(data_bits: u8) -> (r: Result<char, DecoderError>)
    ensures
        data_bits < 64 ==> r == Ok::<char, DecoderError>(track1_char(data_bits)),
        data_bits >= 64 ==> r == Err::<char, DecoderError>(
            DecoderError::InvalidCharacter { position: 0, character: data_bits },
        ),
{
    if data_bits < 64 {
        Ok((0x20 + data_bits) as char)
    } else {
        Err(DecoderError::InvalidCharacter { position: 0, character: data_bits })
    }
}

/// Decodes a Track 1 stream.
///
/// The stream must hold at least 21 bits. It is read in fixed 7-bit windows
/// from its first bit, each complemented where `inverted` and checked for odd
/// parity. Characters before the start sentinel are skipped; those after it
/// are decoded up to the end sentinel. The window after the end sentinel,
/// where the stream holds one, is read as it stands and must be the LRC of
/// the characters from the start sentinel through the end sentinel.
pub fn decode_track1(stream: &BitStream, inverted: bool) -> (r: Result<String, DecoderError>)
    ensures
        result_view(r) == track1_decode(stream@, inverted),
{
    let n = stream.len();
    if n < TRACK1_MIN_BITS {
        return Err(
            DecoderError::BitstreamTooShort { bit_count: n, minimum_required: TRACK1_MIN_BITS },
        );
    }
    let mut result = String::new();
    let mut offset: usize = 0;
    let mut found_start = false;
    let mut chars_read: Vec<u8> = Vec::new();
    while offset <= n && n - offset >= 7
        invariant
            offset <= n == stream@.len(),
            !found_start ==> result@ == Seq::<char>::empty(),
            !found_start ==> track1_decode(stream@, inverted) == track1_seek(
                stream@,
                offset as int,
                inverted,
            ),
            found_start ==> track1_decode(stream@, inverted) == track1_scan(
                stream@,
                offset as int,
                inverted,
                chars_read@,
                result@,
            ),
        decreases n - offset,
    {
        let mut char_bits = match extract_bits(stream, offset, 7) {
            Some(c) => c,
            None => {
                return Err(
                    DecoderError::BitstreamTooShort { bit_count: n, minimum_required: offset + 7 },
                )
            },
        };
        if inverted {
            char_bits = invert_bits(char_bits) & 0x7F;
        }
        if !check_parity(char_bits, 7, &ParityType::Odd) {
            return Err(DecoderError::ParityError { position: offset / 7 });
        }
        let data_bits = char_bits & 0x3F;
        assert(data_bits < 64) by (bit_vector)
            requires
                data_bits == char_bits & 0x3F,
        ;
        chars_read.push(char_bits);
        if !found_start {
            if data_bits == TRACK1_START_SENTINEL {
                found_start = true;
                chars_read = Vec::new();
                chars_read.push(char_bits);
            }
            offset = offset + 7;
        } else if data_bits == TRACK1_END_SENTINEL {
            if n - offset >= 14 {
                let lrc_bits = match extract_bits(stream, offset + 7, 7) {
                    Some(c) => c,
                    None => 0,
                };
                let calculated_lrc = calculate_lrc_track1(chars_read.as_slice());
                if (lrc_bits & 0x7F) != calculated_lrc {
                    return Err(DecoderError::LrcCheckFailed);
                }
            }
            return finish_scan(result);
        } else {
            let decoded_char = match decode_track1_character(data_bits) {
                Ok(c) => c,
                Err(e) => return Err(e),
            };
            result.push(decoded_char);
            offset = offset + 7;
        }
    }
    if !found_start {
        return Err(DecoderError::InvalidStartSentinel);
    }
    finish_scan(result)
}

} // verus!
