//! The decoder for formats given by their parameters (`FormatSpec`).
use vstd::prelude::*;

use super::common::{
    check_parity, extract_bits, extract_bits_msb, invert_bits, lemma_two_to_byte, lsb_value,
    msb_value, parity_holds, two_to,
};
use super::track1::track1_char;
use super::track2::{finish_scan, result_view, scan_outcome, track2_char};
use crate::{BitStream, DecoderError, FormatSpec, ParityType};

verus! {

/// The byte whose low `w` bits are set.
pub open spec fn width_mask(w: nat) -> u8 {
    (two_to(w) - 1) as u8
}

/// Whether a character width is one that a custom format may have.
pub open spec fn valid_width(bits_per_char: u8) -> bool {
    1 <= bits_per_char <= 8
}

/// The character at `offset` in the width and bit order of `fs`,
/// complemented within that width where `fs` is inverted.
pub open spec fn custom_symbol(bits: Seq<bool>, offset: int, fs: FormatSpec) -> u8 {
    let w = fs.bits_per_char as nat;
    let v = (if fs.lsb_first {
        lsb_value(bits, offset, w)
    } else {
        msb_value(bits, offset, w)
    }) as u8;
    if fs.inverted {
        !v & width_mask(w)
    } else {
        v
    }
}

/// The character that the raw value `c` stands for in the format `fs`: the
/// top bit is dropped where the format has parity, then widths 5 and 7 map
/// as Track 2 and Track 1 do, width 8 is the code point itself, and other
/// widths take the values 0 to 9 as digits.
pub open spec fn custom_char(c: u8, fs: FormatSpec) -> Result<char, DecoderError> {
    let w = fs.bits_per_char;
    let data = if !(fs.parity is NoParity) && w > 1 {
        c & width_mask((w - 1) as nat)
    } else {
        c
    };
    if w == 5 {
        Ok(track2_char(data & 0x0F))
    } else if w == 7 {
        Ok(track1_char(data & 0x3F))
    } else if w == 8 {
        Ok(data as char)
    } else if data <= 9 {
        Ok((0x30 + data) as char)
    } else {
        Err(DecoderError::InvalidCharacter { position: 0, character: data })
    }
}

/// The outcome of a scan that ended with `out` decoded.
pub open spec fn custom_outcome(
    fs: FormatSpec,
    found_start: bool,
    found_end: bool,
    out: Seq<char>,
) -> Result<Seq<char>, DecoderError> {
    if fs.start_sentinel is Some && !found_start {
        Err(DecoderError::InvalidStartSentinel)
    } else if fs.end_sentinel is Some && !found_end {
        Err(DecoderError::InvalidEndSentinel)
    } else {
        scan_outcome(out)
    }
}

/// Decoding from `offset` on in steps of the character width, where
/// `found_start` tells whether decoding has begun and `out` holds the
/// characters decoded so far.
pub open spec fn custom_scan(
    bits: Seq<bool>,
    offset: int,
    fs: FormatSpec,
    found_start: bool,
    out: Seq<char>,
) -> Result<Seq<char>, DecoderError>
    decreases bits.len() - offset,
{
    let w = fs.bits_per_char as int;
    if w == 0 || offset < 0 || offset + w > bits.len() {
        custom_outcome(fs, found_start, false, out)
    } else {
        let c = custom_symbol(bits, offset, fs);
        if !parity_holds(c as nat, w as nat, fs.parity) {
            Err(DecoderError::ParityError { position: (offset / w) as usize })
        } else if fs.start_sentinel is Some && !found_start {
            custom_scan(bits, offset + w, fs, c == fs.start_sentinel->0, out)
        } else if fs.end_sentinel == Some(c) {
            custom_outcome(fs, found_start, true, out)
        } else {
            match custom_char(c, fs) {
                Err(e) => Err(e),
                Ok(ch) => custom_scan(bits, offset + w, fs, found_start, out.push(ch)),
            }
        }
    }
}

/// What the custom decoder returns on `bits` for a format of valid width.
pub open spec fn custom_decode(bits: Seq<bool>, fs: FormatSpec) -> Result<Seq<char>, DecoderError> {
    custom_scan(bits, 0, fs, fs.start_sentinel is None, seq![])
}

/// The decimal digit `d`.
pub open spec fn digit_char(d: nat) -> char {
    (0x30 + d) as char
}

/// The decimal notation of `n`.
pub open spec fn decimal(n: nat) -> Seq<char>
    decreases n,
{
    if n < 10 {
        seq![digit_char(n)]
    } else {
        decimal(n / 10).push(digit_char(n % 10))
    }
}

/// The reason given for a format of invalid width.
pub open spec fn invalid_width_reason(bits_per_char: u8) -> Seq<char> {
    "Invalid bits_per_char: "@ + decimal(bits_per_char as nat)
}

/// The byte whose low `w` bits are set.
fn low_mask(w: u8) -> (r: u8)
    requires
        w <= 8,
    ensures
        r == width_mask(w as nat),
{
    let mut m: u16 = 1;
    let mut i: u8 = 0;
    while i < w
        invariant
            i <= w <= 8,
            1 <= m == two_to(i as nat),
            two_to(i as nat) <= 256,
        decreases w - i,
    {
        proof {
            lemma_two_to_byte((i + 1) as nat);
        }
        m = m * 2;
        i = i + 1;
    }
    (m - 1) as u8
}

/// Builds the reason given for a format of invalid width.
fn invalid_width_message(bits_per_char: u8) -> (r: String)
    ensures
        r@ == invalid_width_reason(bits_per_char),
{
    let mut s = String::from_str("Invalid bits_per_char: ");
    let ghost prefix = s@;
    let ghost n = bits_per_char as nat;
    if bits_per_char >= 100 {
        s.push((bits_per_char / 100 + 0x30) as char);
    }
    if bits_per_char >= 10 {
        s.push((bits_per_char / 10 % 10 + 0x30) as char);
    }
    s.push((bits_per_char % 10 + 0x30) as char);
    proof {
        if n >= 100 {
            assert(decimal(n / 100) == seq![digit_char(n / 100)]);
            assert(decimal(n / 10) == decimal(n / 100).push(digit_char((n / 10) % 10)));
        } else if n >= 10 {
            assert(decimal(n / 10) == seq![digit_char(n / 10)]);
        }
        assert(s@ =~= prefix + decimal(n));
    }
    s
}

/// Maps a raw character of a custom format to the character it stands for.
fn decode_custom_character(char_bits: u8, format_spec: &FormatSpec) -> (r: Result<char, DecoderError>)
    requires
        valid_width(format_spec.bits_per_char),
    ensures
        r == custom_char(char_bits, *format_spec),
{
    let w = format_spec.bits_per_char;
    let data_bits = if format_spec.parity != ParityType::NoParity && w > 1 {
        char_bits & low_mask(w - 1)
    } else {
        char_bits
    };
    if w == 5 {
        let digit = data_bits & 0x0F;
        assert(digit <= 15) by (bit_vector)
            requires
                digit == data_bits & 0x0F,
        ;
        Ok((0x30 + digit) as char)
    } else if w == 7 {
        let code = data_bits & 0x3F;
        assert(code <= 63) by (bit_vector)
            requires
                code == data_bits & 0x3F,
        ;
        Ok((0x20 + code) as char)
    } else if w == 8 {
        Ok(data_bits as char)
    } else if data_bits <= 9 {
        Ok((0x30 + data_bits) as char)
    } else {
        Err(DecoderError::InvalidCharacter { position: 0, character: data_bits })
    }
}

/// Turns the end of a custom scan into its result.
fn finish_custom(
    format_spec: &FormatSpec,
    found_start: bool,
    found_end: bool,
    result: String,
) -> (r: Result<String, DecoderError>)
    ensures
        result_view(r) == custom_outcome(*format_spec, found_start, found_end, result@),
{
    if format_spec.start_sentinel.is_some() && !found_start {
        return Err(DecoderError::InvalidStartSentinel);
    }
    if format_spec.end_sentinel.is_some() && !found_end {
        return Err(DecoderError::InvalidEndSentinel);
    }
    finish_scan(result)
}

/// Decodes a stream in the format that `format_spec` describes.
///
/// A width outside 1 to 8 is rejected before any bit is read. Otherwise the
/// stream is read in fixed windows of the character width, in the given bit
/// order, complemented within the width where inverted, and checked for the
/// given parity. Characters up to and including the start sentinel, where one
/// is set, are skipped; decoding stops before the end sentinel, where one is
/// set. A sentinel that is set and never met is an error.
pub fn decode_custom(stream: &BitStream, format_spec: &FormatSpec) -> (r: Result<String, DecoderError>)
    ensures
        !valid_width(format_spec.bits_per_char) ==> (r matches Err(
            DecoderError::InvalidCustomFormat { reason },
        ) && reason@ == invalid_width_reason(format_spec.bits_per_char)),
        valid_width(format_spec.bits_per_char) ==> result_view(r) == custom_decode(
            stream@,
            *format_spec,
        ),
{
    let w = format_spec.bits_per_char;
    if w == 0 || w > 8 {
        return Err(DecoderError::InvalidCustomFormat { reason: invalid_width_message(w) });
    }
    let n = stream.len();
    let width = w as usize;
    let mask = low_mask(w);
    let mut result = String::new();
    let mut offset: usize = 0;
    let mut found_start = format_spec.start_sentinel.is_none();
    while offset <= n && n - offset >= width
        invariant
            offset <= n == stream@.len(),
            width == w == format_spec.bits_per_char,
            1 <= w <= 8,
            mask == width_mask(w as nat),
            custom_decode(stream@, *format_spec) == custom_scan(
                stream@,
                offset as int,
                *format_spec,
                found_start,
                result@,
            ),
        decreases n - offset,
    {
        let extracted = if format_spec.lsb_first {
            extract_bits(stream, offset, w)
        } else {
            extract_bits_msb(stream, offset, w)
        };
        let mut char_bits = match extracted {
            Some(c) => c,
            None => {
                return Err(
                    DecoderError::BitstreamTooShort {
                        bit_count: n,
                        minimum_required: offset + width,
                    },
                )
            },
        };
        if format_spec.inverted {
            char_bits = invert_bits(char_bits) & mask;
        }
        if format_spec.parity != ParityType::NoParity {
            if !check_parity(char_bits, w, &format_spec.parity) {
                return Err(DecoderError::ParityError { position: offset / width });
            }
        }
        if let Some(start_sentinel) = format_spec.start_sentinel {
            if !found_start {
                if char_bits == start_sentinel {
                    found_start = true;
                }
                offset = offset + width;
                continue;
            }
        }
        if let Some(end_sentinel) = format_spec.end_sentinel {
            if char_bits == end_sentinel {
                return finish_custom(format_spec, found_start, true, result);
            }
        }
        let decoded_char = match decode_custom_character(char_bits, format_spec) {
            Ok(c) => c,
            Err(e) => return Err(e),
        };
        result.push(decoded_char);
        offset = offset + width;
    }
    finish_custom(format_spec, found_start, false, result)
}

} // verus!
