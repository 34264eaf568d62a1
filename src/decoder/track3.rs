//! The Track 3 decoder.
use vstd::prelude::*;

use super::track2::{decode_track2, result_view, track2_decode};
use crate::{BitStream, DecoderError};

verus! {

/// Decodes a Track 3 stream. Track 3 has the encoding of Track 2 at another
/// recording density, so this is the standard Track 2 profile: not inverted,
/// least significant bit first, with sentinels and odd parity.
pub fn decode_track3(stream: &BitStream) -> (r: Result<String, DecoderError>)
    ensures
        result_view(r) == track2_decode(stream@, false, true, false, false),
{
    decode_track2(stream, false, true, false, false, false)
}

} // verus!
