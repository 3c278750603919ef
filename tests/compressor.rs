use meta_media_search::compressor::{CompressError, DataCompressor};

#[test]
fn compress_round_trip() {
    let text = "[{\"id\":\"1\",\"title\":\"aaaaaaaaaaaaaaaaaaaaaaaaaaaaaaaaaaaaaaaa\"}]";
    let block = DataCompressor::compress(text).unwrap();
    assert_ne!(block, text.as_bytes().to_vec());
    assert!(block.len() < text.len());
    let back = DataCompressor::decompress(&block, text.len() as i32).unwrap();
    assert_eq!(back, text);
}

#[test]
fn negative_size_is_refused() {
    let block = DataCompressor::compress("hello").unwrap();
    assert_eq!(DataCompressor::decompress(&block, -1), Err(CompressError::Codec));
}

#[test]
fn garbage_block_is_refused() {
    assert!(DataCompressor::decompress(&[0xff, 0xff, 0xff], 10).is_err());
}
