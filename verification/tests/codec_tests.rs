use folish_store::codec::{compress_to_file, compress_to_file_str, decompress_bytes, decompress_from_file};
use folish_store::errors::StoreError;

#[test]
fn round_trip_empty() {
    let c = compress_to_file(&[]);
    assert_eq!(decompress_bytes(&c).unwrap(), Vec::<u8>::new());
}

#[test]
fn round_trip_all_zero() {
    let data = vec![0u8; 4096];
    let c = compress_to_file(&data);
    assert_eq!(decompress_bytes(&c).unwrap(), data);
}

#[test]
fn round_trip_pseudo_random_bytes() {
    let mut data = Vec::new();
    let mut x: u64 = 0x2545F4914F6CDD1D;
    for _ in 0..10000 {
        x ^= x << 13;
        x ^= x >> 7;
        x ^= x << 17;
        data.push((x & 0xFF) as u8);
    }
    let c = compress_to_file(&data);
    assert_eq!(decompress_bytes(&c).unwrap(), data);
}

#[test]
fn round_trip_multibyte_text() {
    let text = "héllo €uro — 日本語 \u{1F58C}";
    let c = compress_to_file_str(text);
    assert_eq!(decompress_from_file(&c).unwrap(), text);
}

#[test]
fn truncated_stream_is_codec_error() {
    let c = compress_to_file(b"a canvas worth of bytes, repeated a few times over");
    let cut = &c[..c.len() - 1];
    assert_eq!(decompress_bytes(cut), Err(StoreError::Codec));
}

#[test]
fn corrupted_stream_is_codec_error() {
    let mut c = compress_to_file(b"some reasonably long content so the stream has structure");
    let mid = c.len() / 2;
    c[mid] ^= 0xFF;
    c.push(0xFF);
    c.truncate(c.len() - 2);
    assert!(decompress_bytes(&c).is_err());
}

#[test]
fn invalid_text_is_encoding_error() {
    let c = compress_to_file(&[0xFF, 0xFE, 0x00, 0x41]);
    assert_eq!(decompress_from_file(&c).err(), Some(StoreError::Encoding));
}
