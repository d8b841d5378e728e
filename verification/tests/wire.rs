use async_prost::wire::{decode_len, encode_len, LEN_SIZE};

#[test]
fn length_prefix_has_four_bytes() {
    assert_eq!(LEN_SIZE, 4);
    assert_eq!(encode_len(0).len(), 4);
}

#[test]
fn length_prefix_is_written_most_significant_byte_first() {
    assert_eq!(encode_len(0), [0, 0, 0, 0]);
    assert_eq!(encode_len(5), [0, 0, 0, 5]);
    assert_eq!(encode_len(13), [0, 0, 0, 0x0d]);
    assert_eq!(encode_len(258), [0, 0, 1, 2]);
    assert_eq!(encode_len(0x0102_0304), [1, 2, 3, 4]);
    assert_eq!(encode_len(u32::MAX), [0xff, 0xff, 0xff, 0xff]);
}

#[test]
fn length_prefix_is_read_most_significant_byte_first() {
    assert_eq!(decode_len(&[0, 0, 0, 5]), Some(5));
    assert_eq!(decode_len(&[0, 0, 1, 2]), Some(258));
    assert_eq!(decode_len(&[1, 2, 3, 4]), Some(0x0102_0304));
    assert_eq!(decode_len(&[0xff, 0xff, 0xff, 0xff]), Some(u32::MAX));
}

#[test]
fn length_prefix_ignores_what_follows_it() {
    assert_eq!(decode_len(&[0, 0, 1, 2, 9, 9, 9]), Some(258));
}

#[test]
fn short_buffer_has_no_length_prefix() {
    assert_eq!(decode_len(&[]), None);
    assert_eq!(decode_len(&[0]), None);
    assert_eq!(decode_len(&[0, 0, 1]), None);
}

#[test]
fn written_length_reads_back() {
    for n in [0u32, 1, 255, 256, 65_535, 65_536, 0x00ff_ffff, 0x0100_0000, u32::MAX] {
        assert_eq!(decode_len(&encode_len(n)), Some(n));
    }
}
