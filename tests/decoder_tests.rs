use magstripe_rs::decoder::{
    calculate_lrc_track1, calculate_lrc_track2, check_parity, decode_custom, decode_track1,
    decode_track2, decode_track3, extract_bits, extract_bits_msb, invert_bits,
};
use magstripe_rs::{BitStream, Decoder, DecoderError, Format, FormatSpec, ParityType};

const CARD: [u8; 17] = [
    255, 255, 255, 151, 222, 246, 253, 190, 141, 247, 7, 127, 255, 255, 255, 255, 192,
];

// ";123?" with its LRC after ten clear bits, then "1111".
const TRACK2_123: [u8; 6] = [0, 53, 4, 103, 251, 240];
// The same card with inverted polarity (the LRC stands as it is).
const TRACK2_123_INVERTED: [u8; 6] = [255, 202, 251, 152, 27, 240];
// "%AB1?" with its LRC after three spaces, Track 1.
const TRACK1_AB1: [u8; 8] = [2, 4, 13, 24, 104, 226, 252, 16];
const TRACK1_AB1_INVERTED: [u8; 8] = [253, 251, 242, 231, 151, 29, 3, 16];

fn spec(bits_per_char: u8) -> FormatSpec {
    FormatSpec {
        bits_per_char,
        start_sentinel: None,
        end_sentinel: None,
        lsb_first: false,
        parity: ParityType::NoParity,
        inverted: false,
    }
}

#[test]
fn extract_bits_reads_least_significant_first() {
    let data = vec![0b1011_0000];
    let stream = BitStream::new(&data, 8).unwrap();
    assert_eq!(extract_bits(&stream, 0, 4), Some(13));
    assert_eq!(extract_bits(&stream, 2, 3), Some(0b011));
    assert_eq!(extract_bits(&stream, 5, 4), None);
    assert_eq!(extract_bits(&stream, 4, 4), Some(0));
}

#[test]
fn extract_bits_msb_reads_most_significant_first() {
    let data = vec![0b1011_0000, 0b1000_0000];
    let stream = BitStream::new(&data, 9).unwrap();
    assert_eq!(extract_bits_msb(&stream, 0, 4), Some(11));
    assert_eq!(extract_bits_msb(&stream, 0, 8), Some(0b1011_0000));
    assert_eq!(extract_bits_msb(&stream, 5, 4), Some(1));
    assert_eq!(extract_bits_msb(&stream, 6, 4), None);
}

#[test]
fn invert_bits_complements() {
    assert_eq!(invert_bits(0b1010_0101), 0b0101_1010);
    assert_eq!(invert_bits(0), 255);
}

#[test]
fn check_parity_counts_low_bits() {
    assert!(check_parity(0b10110, 5, &ParityType::Odd));
    assert!(!check_parity(0b10110, 5, &ParityType::Even));
    assert!(check_parity(0b10110, 5, &ParityType::NoParity));
    assert!(!check_parity(0b11, 2, &ParityType::Odd));
    // Only the low bits count.
    assert!(check_parity(0b1110_0001, 5, &ParityType::Odd));
}

#[test]
fn lrc_values() {
    assert_eq!(calculate_lrc_track2(&[11, 1, 2, 19]), 27);
    assert_eq!(calculate_lrc_track2(&[]), 0);
    assert_eq!(calculate_lrc_track2(&[1]), 0b10001);
    assert_eq!(calculate_lrc_track1(&[69, 97, 98, 81, 31]), 8);
    assert_eq!(calculate_lrc_track1(&[]), 0x40);
}

#[test]
fn track2_round_trip_plain_and_inverted() {
    let stream = BitStream::new(&TRACK2_123, 44).unwrap();
    assert_eq!(decode_track2(&stream, false, true, false, false, false), Ok("123".to_string()));
    assert_eq!(decode_track3(&stream), Ok("123".to_string()));
    let stream = BitStream::new(&TRACK2_123_INVERTED, 44).unwrap();
    assert_eq!(decode_track2(&stream, true, true, false, false, false), Ok("123".to_string()));
    let formats = [Format::Track2, Format::Track2Inverted];
    let output = Decoder::new(&formats).decode(stream).unwrap();
    assert_eq!(output.data, "123");
    assert_eq!(output.format, &Format::Track2Inverted);
}

#[test]
fn track2_msb_and_even_parity_profiles() {
    let data = [0, 22, 74, 253, 64];
    let stream = BitStream::new(&data, 35).unwrap();
    assert_eq!(decode_track2(&stream, false, false, false, false, false), Ok("45".to_string()));
    let data = [1, 168, 164];
    let stream = BitStream::new(&data, 22).unwrap();
    assert_eq!(decode_track2(&stream, false, true, false, false, true), Ok("12".to_string()));
}

#[test]
fn track2_raw_decodes_every_window() {
    let data = [130, 0];
    let stream = BitStream::new(&data, 10).unwrap();
    assert_eq!(decode_track2(&stream, false, true, true, false, false), Ok("12".to_string()));
    let stream = BitStream::new(&data, 4).unwrap();
    assert_eq!(
        decode_track2(&stream, false, true, true, false, false),
        Err(DecoderError::NoValidFormat { attempted: 1 })
    );
}

#[test]
fn track2_checksum_and_parity_errors() {
    let data = [0, 53, 4, 103, 235, 240];
    let stream = BitStream::new(&data, 44).unwrap();
    assert_eq!(
        decode_track2(&stream, false, true, false, false, false),
        Err(DecoderError::LrcCheckFailed)
    );
    let data = [0, 52, 4, 103, 251, 240];
    let stream = BitStream::new(&data, 44).unwrap();
    assert_eq!(
        decode_track2(&stream, false, true, false, false, false),
        Err(DecoderError::ParityError { position: 3 })
    );
}

#[test]
fn track2_without_start_sentinel() {
    let data = [0, 0, 0];
    let stream = BitStream::new(&data, 24).unwrap();
    assert_eq!(
        decode_track2(&stream, false, true, false, false, false),
        Err(DecoderError::InvalidStartSentinel)
    );
}

#[test]
fn short_streams_name_the_minimum() {
    let data = [0xFF, 0xFF, 0xFF];
    let stream = BitStream::new(&data, 14).unwrap();
    assert_eq!(
        decode_track2(&stream, true, true, false, false, false),
        Err(DecoderError::BitstreamTooShort { bit_count: 14, minimum_required: 15 })
    );
    let stream = BitStream::new(&data, 20).unwrap();
    assert_eq!(
        decode_track1(&stream, false),
        Err(DecoderError::BitstreamTooShort { bit_count: 20, minimum_required: 21 })
    );
}

#[test]
fn track1_round_trip_plain_and_inverted() {
    let stream = BitStream::new(&TRACK1_AB1, 63).unwrap();
    assert_eq!(decode_track1(&stream, false), Ok("AB1".to_string()));
    let stream = BitStream::new(&TRACK1_AB1_INVERTED, 63).unwrap();
    assert_eq!(decode_track1(&stream, true), Ok("AB1".to_string()));
    let formats = [Format::Track2, Format::Track1, Format::Track1Inverted];
    let output = Decoder::new(&formats).decode(stream).unwrap();
    assert_eq!(output.data, "AB1");
    assert_eq!(output.format, &Format::Track1Inverted);
}

#[test]
fn track1_checksum_error_and_missing_start() {
    let mut data = TRACK1_AB1;
    data[7] ^= 0b0001_0000;
    let stream = BitStream::new(&data, 63).unwrap();
    assert_eq!(decode_track1(&stream, false), Err(DecoderError::LrcCheckFailed));
    // Spaces with odd parity only: no start sentinel.
    let data = [0b0000_0010, 0b0000_0100, 0b0000_1000];
    let stream = BitStream::new(&data, 21).unwrap();
    assert_eq!(decode_track1(&stream, false), Err(DecoderError::InvalidStartSentinel));
}

#[test]
fn custom_rejects_invalid_widths() {
    let data = [0xFF];
    let stream = BitStream::new(&data, 8).unwrap();
    for (width, reason) in [
        (0u8, "Invalid bits_per_char: 0"),
        (9, "Invalid bits_per_char: 9"),
        (42, "Invalid bits_per_char: 42"),
        (200, "Invalid bits_per_char: 200"),
    ] {
        assert_eq!(
            decode_custom(&stream, &spec(width)),
            Err(DecoderError::InvalidCustomFormat { reason: reason.to_string() })
        );
    }
    let empty: [u8; 0] = [];
    let stream = BitStream::new(&empty, 0).unwrap();
    assert_eq!(
        decode_custom(&stream, &spec(0)),
        Err(DecoderError::InvalidCustomFormat { reason: "Invalid bits_per_char: 0".to_string() })
    );
}

#[test]
fn custom_widths_map_characters() {
    let data = [72, 105];
    let stream = BitStream::new(&data, 16).unwrap();
    assert_eq!(decode_custom(&stream, &spec(8)), Ok("Hi".to_string()));
    let data = [0x12, 0x30];
    let stream = BitStream::new(&data, 12).unwrap();
    assert_eq!(decode_custom(&stream, &spec(4)), Ok("123".to_string()));
    let data = [0xC0];
    let stream = BitStream::new(&data, 4).unwrap();
    assert_eq!(
        decode_custom(&stream, &spec(4)),
        Err(DecoderError::InvalidCharacter { position: 0, character: 12 })
    );
}

#[test]
fn custom_sentinels() {
    let mut fs = spec(4);
    fs.start_sentinel = Some(0xF);
    fs.end_sentinel = Some(0xE);
    let data = [0x0F, 0x12, 0xE5];
    let stream = BitStream::new(&data, 24).unwrap();
    assert_eq!(decode_custom(&stream, &fs), Ok("12".to_string()));
    let data = [0x0F, 0x12];
    let stream = BitStream::new(&data, 16).unwrap();
    assert_eq!(decode_custom(&stream, &fs), Err(DecoderError::InvalidEndSentinel));
    let data = [0x12];
    let stream = BitStream::new(&data, 8).unwrap();
    assert_eq!(decode_custom(&stream, &fs), Err(DecoderError::InvalidStartSentinel));
}

#[test]
fn custom_inversion_and_parity() {
    let mut fs = spec(4);
    fs.inverted = true;
    let data = [0xED];
    let stream = BitStream::new(&data, 8).unwrap();
    assert_eq!(decode_custom(&stream, &fs), Ok("12".to_string()));
    let mut fs = spec(8);
    fs.inverted = true;
    let data = [!b'A'];
    let stream = BitStream::new(&data, 8).unwrap();
    assert_eq!(decode_custom(&stream, &fs), Ok("A".to_string()));
    let mut fs = spec(5);
    fs.parity = ParityType::Odd;
    let data = [0b1000_1000];
    let stream = BitStream::new(&data, 5).unwrap();
    assert_eq!(decode_custom(&stream, &fs), Err(DecoderError::ParityError { position: 0 }));
    let data = [0b0000_1000];
    let stream = BitStream::new(&data, 5).unwrap();
    assert_eq!(decode_custom(&stream, &fs), Ok("1".to_string()));
}

#[test]
fn empty_format_list_fails_for_any_stream() {
    for data in [vec![], vec![0u8], CARD.to_vec()] {
        let bits = data.len() * 8;
        let stream = BitStream::new(&data, bits).unwrap();
        assert_eq!(Decoder::new(&[]).decode(stream), Err(DecoderError::NoFormatsProvided));
    }
}

#[test]
fn every_failed_format_is_counted() {
    let data = [0xAA, 0xAA];
    let stream = BitStream::new(&data, 16).unwrap();
    let formats = [Format::Track1, Format::Track2, Format::Custom(spec(0))];
    assert_eq!(
        Decoder::new(&formats).decode(stream),
        Err(DecoderError::NoValidFormat { attempted: 3 })
    );
}

#[test]
fn decoding_twice_gives_the_same_result() {
    let formats = [Format::Track1, Format::Track2Inverted];
    let decoder = Decoder::new(&formats);
    let stream = BitStream::new(&CARD, 130).unwrap();
    let first = decoder.decode(stream).unwrap();
    let second = decoder.decode(stream).unwrap();
    assert_eq!(first, second);
    assert_eq!(first.data, "0004048712");
}

#[test]
fn default_decoder_tries_standard_track2() {
    let stream = BitStream::new(&TRACK2_123, 44).unwrap();
    let output = Decoder::default().decode(stream).unwrap();
    assert_eq!(output.data, "123");
    assert_eq!(output.format, &Format::Track2);
    let stream = BitStream::new(&CARD, 130).unwrap();
    assert!(Decoder::default().decode(stream).is_err());
}

#[test]
fn test_decode_track2_weird() {
    let payload = vec![255, 255, 255, 229, 243, 253, 235, 153, 239, 53, 192, 175, 255, 255, 240];
    let stream = BitStream::new(&payload, 116).unwrap();
    let decoded = decode_track2(&stream, true, true, false, false, false);
    assert_eq!(decoded, Ok("0100231132".to_string()));
}

#[test]
fn test_decode_track2_dogpatch_normal() {
    let payload = vec![
        255, 255, 255, 151, 222, 242, 135, 119, 239, 102, 4, 191, 255, 255, 255, 255, 192,
    ];
    let stream = BitStream::new(&payload, 130).unwrap();
    let decoded = decode_track2(&stream, true, true, false, false, false);
    assert_eq!(decoded, Ok("0005721443".to_string()));
}
