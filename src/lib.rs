//! Decoding of raw magnetic stripe bit streams (ISO/IEC 7811, 7813 and 4909
//! tracks) into validated character payloads.
use vstd::prelude::*;

pub mod bitstream;
pub mod decoder;

pub use bitstream::{BitStream, BitStreamError};
use decoder::{decode_spec, output_view};

verus! {

/// Relies on `String::push`: the character is appended at the end.
pub assume_specification[ String::push ](s: &mut String, ch: char)
    ensures
        final(s)@ == old(s)@.push(ch),
;

/// The encoding formats of magnetic stripe cards, and common variations.
///
/// Track 1 is ISO/IEC 7811 (7-bit characters), Track 2 is ISO/IEC 7813
/// (5-bit characters) and Track 3 is ISO/IEC 4909 (5-bit characters).
#[derive(Debug, Clone, PartialEq, Eq, Structural)]
pub enum Format {
    /// Standard ABA Track 2: 4 data bits and an odd parity bit, least
    /// significant bit first, framed by `;` and `?` and followed by an LRC.
    Track2,
    /// Track 2 with all bits inverted (reversed magnetic polarity).
    Track2Inverted,
    /// Track 2 with the bits of each character in most-significant-first order.
    Track2MSB,
    /// Track 2 with explicit least-significant-first order (same as `Track2`).
    Track2LSB,
    /// Track 2 without sentinels: every aligned window is a data character.
    Track2Raw,
    /// Track 2 with the parity bit in another position; read with the
    /// standard layout.
    Track2SwappedParity,
    /// Track 2 with even parity instead of odd.
    Track2EvenParity,
    /// Standard IATA Track 1: 6 data bits and an odd parity bit, framed by
    /// `%` and `?` and followed by an LRC.
    Track1,
    /// Track 1 with all bits inverted.
    Track1Inverted,
    /// Track 3: decoded as the standard Track 2 profile.
    Track3,
    /// A format given by its parameters.
    Custom(FormatSpec),
}

/// The parameters of a custom format.
#[derive(Debug, Clone, PartialEq, Eq, Structural)]
pub struct FormatSpec {
    /// The width of a character in bits, from 1 to 8.
    pub bits_per_char: u8,
    /// The raw value of the start sentinel, if the format has one.
    pub start_sentinel: Option<u8>,
    /// The raw value of the end sentinel, if the format has one.
    pub end_sentinel: Option<u8>,
    /// Whether the first bit read is the least significant bit of a character.
    pub lsb_first: bool,
    /// The parity that each character carries.
    pub parity: ParityType,
    /// Whether all bits are inverted.
    pub inverted: bool,
}

/// The parity that each character of a format carries.
#[derive(Debug, Clone, Copy, PartialEq, Eq, Structural)]
pub enum ParityType {
    Odd,
    Even,
    NoParity,
}

/// Errors that can occur during magnetic stripe decoding.
#[derive(Debug, Clone, PartialEq, Eq)]
pub enum DecoderError {
    /// No formats were provided to attempt decoding.
    NoFormatsProvided,
    /// None of the attempted formats could decode the bit stream.
    NoValidFormat {
        /// The number of formats that were attempted.
        attempted: usize,
    },
    /// The bit stream is too short for the format.
    BitstreamTooShort {
        /// The number of bits in the stream.
        bit_count: usize,
        /// The minimum number of bits the format needs.
        minimum_required: usize,
    },
    /// A parity check failed during decoding.
    ParityError {
        /// The character position where the parity check failed.
        position: usize,
    },
    /// The start sentinel was not found.
    InvalidStartSentinel,
    /// The end sentinel was not found.
    InvalidEndSentinel,
    /// The LRC (longitudinal redundancy check) character did not match.
    LrcCheckFailed,
    /// A character outside the format's character set.
    InvalidCharacter {
        /// The position where the invalid character was found.
        position: usize,
        /// The invalid character value.
        character: u8,
    },
    /// A custom format specification was invalid.
    InvalidCustomFormat {
        /// What was invalid about the custom format.
        reason: String,
    },
}

/// The result of a successful decoding: the decoded characters and the
/// format, out of those attempted, that decoded them.
#[derive(Debug, Clone, PartialEq)]
pub struct DecoderOutput<'a> {
    /// The decoded character data.
    pub data: String,
    /// The format that decoded the stream.
    pub format: &'a Format,
}

/// A decoder that tries a list of formats in order.
pub struct Decoder<'formats> {
    attempt_formats: &'formats [Format],
}

impl Default for Decoder<'static> {
    /// A decoder that tries the standard Track 2 format alone.
    fn default() -> (r: Self)
        ensures
            r.formats() == seq![Format::Track2],
    {
        Decoder { attempt_formats: &[Format::Track2] }
    }
}

impl<'formats> Decoder<'formats> {
    /// The formats that the decoder tries, in order.
    pub closed spec fn formats(&self) -> Seq<Format> {
        self.attempt_formats@
    }

    /// Creates a decoder that tries `attempt_formats` in order.
    pub fn new(attempt_formats: &'formats [Format]) -> (r: Self)
        ensures
            r.formats() == attempt_formats@,
    {
        Decoder { attempt_formats }
    }

    /// Decodes `stream` with the first of the decoder's formats that succeeds.
    pub fn decode(&self, stream: BitStream) -> (r: Result<DecoderOutput<'formats>, DecoderError>)
        ensures
            output_view(r) == decode_spec(self.formats(), stream@),
    {
        decoder::decode_with_formats(self.attempt_formats, stream)
    }
}

} // verus!
