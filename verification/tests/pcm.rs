use vosk_commands::pcm::decode_pcm;

#[test]
fn samples_are_little_endian() {
    assert_eq!(decode_pcm(&[0x34, 0x12, 0xff, 0xff, 0x00, 0x80, 0xff, 0x7f]), vec![
        0x1234, -1, -32768, 32767
    ]);
}

#[test]
fn odd_byte_is_dropped() {
    assert_eq!(decode_pcm(&[1, 0, 9]), vec![1]);
    assert_eq!(decode_pcm(&[9]), Vec::<i16>::new());
    assert_eq!(decode_pcm(&[]), Vec::<i16>::new());
}

#[test]
fn every_sample_decodes() {
    for high in 0..=255u8 {
        for low in [0u8, 1, 127, 128, 255] {
            assert_eq!(decode_pcm(&[low, high]), vec![i16::from_le_bytes([low, high])]);
        }
    }
}

#[test]
fn pieces_decode_on_their_own() {
    let bytes = [1u8, 2, 3, 4, 5, 6, 7];
    let mut joined = decode_pcm(&bytes[..4]);
    joined.extend(decode_pcm(&bytes[4..]));
    assert_eq!(decode_pcm(&bytes), joined);
}
