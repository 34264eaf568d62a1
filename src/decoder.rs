//! Per-format decoders and the orchestrator that tries formats in turn.
use vstd::prelude::*;

pub mod common;
pub mod custom;
pub mod framing;
pub mod track1;
pub mod track2;
pub mod track3;

pub use common::{
    calculate_lrc_track1, calculate_lrc_track2, check_parity, extract_bits, extract_bits_msb,
    invert_bits,
};
pub use custom::decode_custom;
pub use track1::decode_track1;
pub use track2::decode_track2;
pub use track3::decode_track3;

use crate::{BitStream, DecoderError, DecoderOutput, Format};
use custom::{custom_decode, valid_width};
use track1::track1_decode;
use track2::track2_decode;

verus! {

/// The characters of a successful decoding, if it succeeded.
pub open spec fn success(r: Result<Seq<char>, DecoderError>) -> Option<Seq<char>> {
    match r {
        Ok(s) => Some(s),
        Err(_) => None,
    }
}

/// The characters that `format` decodes from `bits`, or `None` where the
/// format's decoder fails.
pub open spec fn format_outcome(format: Format, bits: Seq<bool>) -> Option<Seq<char>> {
    match format {
        Format::Track2 => success(track2_decode(bits, false, true, false, false)),
        Format::Track2Inverted => success(track2_decode(bits, true, true, false, false)),
        Format::Track2MSB => success(track2_decode(bits, false, false, false, false)),
        Format::Track2LSB => success(track2_decode(bits, false, true, false, false)),
        Format::Track2Raw => success(track2_decode(bits, false, true, true, false)),
        Format::Track2SwappedParity => success(track2_decode(bits, false, true, false, false)),
        Format::Track2EvenParity => success(track2_decode(bits, false, true, false, true)),
        Format::Track1 => success(track1_decode(bits, false)),
        Format::Track1Inverted => success(track1_decode(bits, true)),
        Format::Track3 => success(track2_decode(bits, false, true, false, false)),
        Format::Custom(fs) => if valid_width(fs.bits_per_char) {
            success(custom_decode(bits, fs))
        } else {
            None
        },
    }
}

/// The position of the first format of `formats`, at or after `from`, that
/// decodes `bits`.
pub open spec fn first_match(formats: Seq<Format>, bits: Seq<bool>, from: int) -> Option<int>
    decreases formats.len() - from,
{
    if from < 0 || from >= formats.len() {
        None
    } else if format_outcome(formats[from], bits) is Some {
        Some(from)
    } else {
        first_match(formats, bits, from + 1)
    }
}

/// The result of decoding `bits` with `formats`: the characters and the
/// format of the first format that succeeds.
pub open spec fn decode_spec(formats: Seq<Format>, bits: Seq<bool>) -> Result<
    (Seq<char>, Format),
    DecoderError,
> {
    if formats.len() == 0 {
        Err(DecoderError::NoFormatsProvided)
    } else {
        match first_match(formats, bits, 0) {
            Some(i) => Ok((format_outcome(formats[i], bits)->0, formats[i])),
            None => Err(DecoderError::NoValidFormat { attempted: formats.len() as usize }),
        }
    }
}

/// The view of an orchestrator result: the decoded characters and the
/// format that matched.
pub open spec fn output_view(r: Result<DecoderOutput, DecoderError>) -> Result<
    (Seq<char>, Format),
    DecoderError,
> {
    match r {
        Ok(out) => Ok((out.data@, *out.format)),
        Err(e) => Err(e),
    }
}

/// Decodes `stream` with one format.
fn try_decode_format(format: &Format, stream: &BitStream) -> (r: Result<String, DecoderError>)
    ensures
        match r {
            Ok(s) => format_outcome(*format, stream@) == Some(s@),
            Err(_) => format_outcome(*format, stream@) is None,
        },
{
    match format {
        Format::Track2 => decode_track2(stream, false, true, false, false, false),
        Format::Track2Inverted => decode_track2(stream, true, true, false, false, false),
        Format::Track2MSB => decode_track2(stream, false, false, false, false, false),
        Format::Track2LSB => decode_track2(stream, false, true, false, false, false),
        Format::Track2Raw => decode_track2(stream, false, true, true, false, false),
        Format::Track2SwappedParity => decode_track2(stream, false, true, false, true, false),
        Format::Track2EvenParity => decode_track2(stream, false, true, false, false, true),
        Format::Track1 => decode_track1(stream, false),
        Format::Track1Inverted => decode_track1(stream, true),
        Format::Track3 => decode_track3(stream),
        Format::Custom(format_spec) => decode_custom(stream, format_spec),
    }
}

/// Tries each format of `formats` in order on `stream` and returns the
/// first success with the format that produced it.
///
/// An empty list fails with `NoFormatsProvided`; where every format fails,
/// the result is `NoValidFormat` with the number of formats attempted.
pub fn decode_with_formats<'a>(formats: &'a [Format], stream: BitStream) -> (r: Result<
    DecoderOutput<'a>,
    DecoderError,
>)
    ensures
        output_view(r) == decode_spec(formats@, stream@),
{
    if formats.len() == 0 {
        return Err(DecoderError::NoFormatsProvided);
    }
    let mut i: usize = 0;
    while i < formats.len()
        invariant
            i <= formats@.len(),
            formats@.len() > 0,
            first_match(formats@, stream@, 0) == first_match(formats@, stream@, i as int),
        decreases formats@.len() - i,
    {
        let format = &formats[i];
        match try_decode_format(format, &stream) {
            Ok(data) => {
                return Ok(DecoderOutput { data, format });
            },
            Err(_) => {},
        }
        i = i + 1;
    }
    Err(DecoderError::NoValidFormat { attempted: formats.len() })
}

/// Decoding is a function of the stream and the formats alone: two calls on
/// the same formats and streams with the same bits return the same
/// characters and format, or the same error.
pub proof fn decode_is_deterministic(
    formats: Seq<Format>,
    first: BitStream,
    second: BitStream,
    first_result: Result<DecoderOutput, DecoderError>,
    second_result: Result<DecoderOutput, DecoderError>,
)
    requires
        first@ == second@,
        output_view(first_result) == decode_spec(formats, first@),
        output_view(second_result) == decode_spec(formats, second@),
    ensures
        output_view(first_result) == output_view(second_result),
{
}

/// Where no format of a non-empty list decodes a stream, decoding fails with
/// `NoValidFormat` counting every format of the list, whatever each
/// format's own failure was.
pub proof fn all_failures_count_every_format(formats: Seq<Format>, bits: Seq<bool>)
    requires
        formats.len() > 0,
        forall|i: int| 0 <= i < formats.len() ==> #[trigger] format_outcome(formats[i], bits) is None,
    ensures
        decode_spec(formats, bits) == Err::<(Seq<char>, Format), DecoderError>(
            DecoderError::NoValidFormat { attempted: formats.len() as usize },
        ),
{
    lemma_no_match_from(formats, bits, 0);
}

proof fn lemma_no_match_from(formats: Seq<Format>, bits: Seq<bool>, from: int)
    requires
        0 <= from,
        forall|i: int| 0 <= i < formats.len() ==> #[trigger] format_outcome(formats[i], bits) is None,
    ensures
        first_match(formats, bits, from) is None,
    decreases formats.len() - from,
{
    if from < formats.len() {
        lemma_no_match_from(formats, bits, from + 1);
    }
}

/// An empty list of formats fails with `NoFormatsProvided`, whatever the
/// stream holds.
pub proof fn empty_format_list_fails(bits: Seq<bool>)
    ensures
        decode_spec(Seq::empty(), bits) == Err::<(Seq<char>, Format), DecoderError>(
            DecoderError::NoFormatsProvided,
        ),
{
}

/// A Track 2 stream with sentinels and fewer than 15 bits fails as too
/// short, naming 15 bits; a Track 1 stream of fewer than 21 bits fails as
/// too short, naming 21 bits.
pub proof fn short_streams_are_too_short(bits: Seq<bool>, inverted: bool, lsb_first: bool, even_parity: bool)
    ensures
        bits.len() < 15 ==> track2_decode(bits, inverted, lsb_first, false, even_parity) == Err::<
            Seq<char>,
            DecoderError,
        >(DecoderError::BitstreamTooShort { bit_count: bits.len() as usize, minimum_required: 15 }),
        bits.len() < 21 ==> track1_decode(bits, inverted) == Err::<Seq<char>, DecoderError>(
            DecoderError::BitstreamTooShort { bit_count: bits.len() as usize, minimum_required: 21 },
        ),
{
}

} // verus!
