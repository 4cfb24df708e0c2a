//! The little-endian vector codec, held against an independent encoder
//! and against the floating-point round trip.

use byteorder::{LittleEndian, WriteBytesExt};
use motorhead::vector::{decode_vector, encode_vector};
use std::io::Cursor;

#[test]
fn float_vector_round_trip_is_exact() {
    let floats: Vec<f32> = vec![0.0, 1.0, -2.5, 3.25, 1536.0, f32::MIN_POSITIVE, -0.0];
    let words: Vec<u32> = floats.iter().map(|f| f.to_bits()).collect();
    let bytes = encode_vector(&words);
    let back_words = decode_vector(&bytes).unwrap();
    let back: Vec<f32> = back_words.iter().map(|w| f32::from_bits(*w)).collect();
    assert_eq!(back.len(), floats.len());
    for (a, b) in floats.iter().zip(back.iter()) {
        assert_eq!(a.to_bits(), b.to_bits());
    }
}

#[test]
fn encoding_matches_independent_little_endian_writer() {
    let floats: Vec<f32> = vec![0.5, -17.75, 9000.125];
    let words: Vec<u32> = floats.iter().map(|f| f.to_bits()).collect();
    let ours = encode_vector(&words);

    let mut buf = Cursor::new(Vec::new());
    for f in &floats {
        buf.write_f32::<LittleEndian>(*f).unwrap();
    }
    assert_eq!(ours, buf.into_inner());
}

#[test]
fn known_word_encodes_little_endian() {
    let bytes = encode_vector(&vec![0x0403_0201u32]);
    assert_eq!(bytes, vec![0x01, 0x02, 0x03, 0x04]);
    let back = decode_vector(&bytes).unwrap();
    assert_eq!(back, vec![0x0403_0201u32]);
}

#[test]
fn misaligned_buffer_decodes_to_nothing() {
    assert!(decode_vector(&vec![1, 2, 3]).is_none());
    assert!(decode_vector(&vec![1, 2, 3, 4, 5]).is_none());
    assert_eq!(decode_vector(&Vec::new()).unwrap(), Vec::<u32>::new());
}
