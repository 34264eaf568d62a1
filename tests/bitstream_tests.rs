use magstripe_rs::{BitStream, BitStreamError};

#[test]
fn test_new_valid() {
    let data = vec![0xFF, 0x00, 0xAA];
    let stream = BitStream::new(&data, 20).unwrap();
    assert_eq!(stream.len(), 20);
    assert_eq!(stream.buffer().len(), 3);
}

#[test]
fn test_new_shrinks_buffer() {
    let data = vec![0xFF, 0x00, 0xAA, 0xBB, 0xCC];
    let stream = BitStream::new(&data, 20).unwrap();
    assert_eq!(stream.buffer().len(), 3); // Should only keep 3 bytes
}

#[test]
fn test_new_buffer_too_small() {
    let data = vec![0xFF];
    let result = BitStream::new(&data, 16);
    assert!(matches!(
        result,
        Err(BitStreamError::BufferTooSmall {
            required_bytes: 2,
            provided_bytes: 1
        })
    ));
}

#[test]
fn test_debug_format() {
    // Test with exactly 8 bits
    let data = vec![0b11010110];
    let stream = BitStream::new(&data, 8).unwrap();
    let debug_str = stream.debug_string();
    assert_eq!(debug_str, "BitStream(11010110)");

    // Test with 12 bits (1.5 bytes)
    let data = vec![0b11010110, 0b10100000];
    let stream = BitStream::new(&data, 12).unwrap();
    let debug_str = stream.debug_string();
    assert_eq!(debug_str, "BitStream(11010110:1010)");

    // Test with 16 bits (2 bytes)
    let data = vec![0b11010110, 0b10101111];
    let stream = BitStream::new(&data, 16).unwrap();
    let debug_str = stream.debug_string();
    assert_eq!(debug_str, "BitStream(11010110:10101111)");

    // Test with 20 bits (2.5 bytes)
    let data = vec![0b11010110, 0b10101111, 0b11000000];
    let stream = BitStream::new(&data, 20).unwrap();
    let debug_str = stream.debug_string();
    assert_eq!(debug_str, "BitStream(11010110:10101111:1100)");
}

#[test]
fn test_empty_stream() {
    let data = vec![];
    let stream = BitStream::new(&data, 0).unwrap();
    assert_eq!(stream.len(), 0);
    assert!(stream.is_empty());
    let debug_str = stream.debug_string();
    assert_eq!(debug_str, "BitStream()");
}

#[test]
fn new_keeps_the_bit_count_over_a_larger_buffer() {
    let data = vec![0xAB, 0xCD];
    let stream = BitStream::new(&data, 9).unwrap();
    assert_eq!(stream.len(), 9);
    assert!(!stream.is_empty());
    assert_eq!(stream.buffer(), &[0xAB, 0xCD][..]);
    assert_eq!(stream.debug_string(), "BitStream(10101011:1)");
}

#[test]
fn new_rejects_an_empty_buffer_for_one_bit() {
    let data: Vec<u8> = vec![];
    assert!(matches!(
        BitStream::new(&data, 1),
        Err(BitStreamError::BufferTooSmall { required_bytes: 1, provided_bytes: 0 })
    ));
}

#[test]
fn new_with_a_one_byte_buffer_and_sixteen_bits_names_both_sizes() {
    for byte in [0x00u8, 0x5A, 0xFF] {
        let data = vec![byte];
        assert!(matches!(
            BitStream::new(&data, 16),
            Err(BitStreamError::BufferTooSmall { required_bytes: 2, provided_bytes: 1 })
        ));
    }
}
