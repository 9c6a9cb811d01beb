use gud::compression::{
    compress, compression_type_from_str, compression_type_to_str, decompress, lz4_compress,
    lz4_decompress, zlib_compress, zlib_decompress, CompressionType,
};
use gud::error::GudError;
use gud::hash::{content_hash, ContentHash};

fn sample() -> Vec<u8> {
    let mut v = Vec::new();
    for i in 0..2000u32 {
        v.extend_from_slice(format!("line {} of some text\n", i % 37).as_bytes());
    }
    v
}

#[test]
fn zlib_round_trip() {
    for input in [Vec::new(), b"hello".to_vec(), sample()] {
        let c = compress(CompressionType::Zlib, &input).unwrap();
        assert_eq!(decompress(CompressionType::Zlib, &c).unwrap(), input);
    }
}

#[test]
fn default_round_trip() {
    let input = sample();
    let c = compress(CompressionType::Default, &input).unwrap();
    assert_eq!(decompress(CompressionType::Default, &c).unwrap(), input);
    assert_eq!(decompress(CompressionType::Zlib, &c).unwrap(), input);
}

#[test]
fn lz4_round_trip() {
    for input in [Vec::new(), b"hello".to_vec(), sample()] {
        let c = compress(CompressionType::Lz4, &input).unwrap();
        assert_eq!(decompress(CompressionType::Lz4, &c).unwrap(), input);
    }
}

#[test]
fn compression_shrinks_repetitive_content() {
    let input = sample();
    let z = zlib_compress(&input);
    assert!(z.len() < input.len() / 4);
    let l = lz4_compress(&input).unwrap();
    assert!(l.len() < input.len() / 4);
    assert_ne!(z, input);
    assert_ne!(l, input);
    assert_eq!(zlib_decompress(&z).unwrap(), input);
    assert_eq!(lz4_decompress(&l).unwrap(), input);
}

#[test]
fn corrupt_objects_are_reported() {
    let garbage = vec![0xffu8, 0xfe, 0xfd, 0x00, 0x13, 0x37, 0x42, 0x42];
    assert_eq!(decompress(CompressionType::Zlib, &garbage), Err(GudError::CorruptObject));
    assert_eq!(decompress(CompressionType::Lz4, &garbage), Err(GudError::CorruptObject));
    assert!(zlib_decompress(&garbage).is_err());
}

#[test]
fn truncated_lz4_frames_are_corrupt() {
    let input = sample();
    let c = compress(CompressionType::Lz4, &input).unwrap();
    let cut = &c[..c.len() / 2];
    assert_eq!(decompress(CompressionType::Lz4, cut), Err(GudError::CorruptObject));
    assert_eq!(decompress(CompressionType::Lz4, &[]), Err(GudError::CorruptObject));
}

#[test]
fn compression_identifiers() {
    assert_eq!(compression_type_to_str(&CompressionType::Lz4), "lz4");
    assert_eq!(compression_type_to_str(&CompressionType::Zlib), "zlib");
    assert_eq!(compression_type_to_str(&CompressionType::Default), "default");
    assert_eq!(compression_type_from_str("lz4"), CompressionType::Lz4);
    assert_eq!(compression_type_from_str("zlib"), CompressionType::Zlib);
    assert_eq!(compression_type_from_str("default"), CompressionType::Default);
    assert_eq!(compression_type_from_str("brotli"), CompressionType::Default);
    assert_eq!(compression_type_from_str(""), CompressionType::Default);
}

#[test]
fn hashing_is_deterministic() {
    let a = content_hash(b"hello");
    let b = content_hash(&b"hello".to_vec());
    assert_eq!(a, b);
    assert_ne!(content_hash(b"hello"), content_hash(b"hello!"));
}

#[test]
fn hash_of_empty_input() {
    assert_eq!(content_hash(b"").to_hex(), "99aa06d3014798d86001c324468d497f");
}

#[test]
fn hex_rendering() {
    let h = ContentHash { value: 0x0123456789abcdef0011223344556677 };
    assert_eq!(h.to_hex(), "0123456789abcdef0011223344556677");
    assert_eq!(h.shard_name(), "01");
    assert_eq!(ContentHash { value: 0 }.to_hex(), "00000000000000000000000000000000");
    assert_eq!(ContentHash { value: u128::MAX }.to_hex(), "ffffffffffffffffffffffffffffffff");
}

#[test]
fn hex_parsing() {
    let h = content_hash(b"hello");
    let hex = h.to_hex();
    assert_eq!(hex.len(), 32);
    assert!(hex.chars().all(|c| c.is_ascii_digit() || ('a'..='f').contains(&c)));
    assert_eq!(ContentHash::from_hex(&hex), Some(h));
    assert_eq!(ContentHash::from_hex("0123456789ABCDEF0011223344556677"), None);
    assert_eq!(ContentHash::from_hex("0123"), None);
    assert_eq!(ContentHash::from_hex("0123456789abcdef00112233445566778"), None);
    assert_eq!(ContentHash::from_hex("0123456789abcdef001122334455667g"), None);
    assert_eq!(
        ContentHash::from_hex("ffffffffffffffffffffffffffffffff"),
        Some(ContentHash { value: u128::MAX })
    );
}
