use std::io::Write;

use aes::cipher::{BlockEncrypt, BlockEncryptMut, KeyInit, KeyIvInit};
use cbc::cipher::block_padding::Pkcs7;
use steamdepot::chunk::{
    adler32_steam, chunk_matches, decompress_chunk, decompress_vzip_lzma, decompress_vzstd,
    process_chunk, verify_adler32,
};
use steamdepot::error::Error;

fn encrypt(key: &[u8], plaintext: &[u8]) -> Vec<u8> {
    let iv = [6u8; 16];
    let cipher = aes::Aes256::new_from_slice(key).unwrap();
    let mut block = aes::Block::clone_from_slice(&iv);
    cipher.encrypt_block(&mut block);
    let mut buf = vec![0u8; plaintext.len() + 16];
    buf[..plaintext.len()].copy_from_slice(plaintext);
    let length = cbc::Encryptor::<aes::Aes256>::new_from_slices(key, &iv)
        .unwrap()
        .encrypt_padded_mut::<Pkcs7>(&mut buf, plaintext.len())
        .unwrap()
        .len();
    let mut data = block.to_vec();
    data.extend_from_slice(&buf[..length]);
    data
}

/// A Zstandard frame of one raw block.
fn zstd_frame(content: &[u8]) -> Vec<u8> {
    let mut frame = vec![0x28, 0xB5, 0x2F, 0xFD, 0x20, content.len() as u8];
    let header = 1 | (content.len() as u32) << 3;
    frame.extend_from_slice(&header.to_le_bytes()[..3]);
    frame.extend_from_slice(content);
    frame
}

fn vzstd(content: &[u8]) -> Vec<u8> {
    let mut data = b"VSZa\0\0\0\0".to_vec();
    data.extend_from_slice(&zstd_frame(content));
    data.extend_from_slice(&[0u8; 4]);
    data.extend_from_slice(&(content.len() as u32).to_le_bytes());
    data.extend_from_slice(b"\0\0\0\0zsv");
    data
}

fn vzip(content: &[u8]) -> Vec<u8> {
    let mut stream = Vec::new();
    let options = lzma_rs::compress::Options {
        unpacked_size: lzma_rs::compress::UnpackedSize::WriteToHeader(Some(content.len() as u64)),
    };
    lzma_rs::lzma_compress_with_options(&mut &content[..], &mut stream, &options).unwrap();
    let mut data = b"VZa\0\0\0\0".to_vec();
    data.extend_from_slice(&stream[..5]);
    data.extend_from_slice(&stream[13..]);
    data.extend_from_slice(&[0u8; 4]);
    data.extend_from_slice(&(content.len() as u32).to_le_bytes());
    data.extend_from_slice(b"zv");
    data
}

fn zipped(content: &[u8]) -> Vec<u8> {
    let mut writer = zip::ZipWriter::new(std::io::Cursor::new(Vec::new()));
    writer.start_file("z", zip::write::SimpleFileOptions::default()).unwrap();
    writer.write_all(content).unwrap();
    writer.finish().unwrap().into_inner()
}

#[test]
fn the_checksum_starts_at_zero() {
    assert_eq!(adler32_steam(b""), 0);
    assert_eq!(adler32_steam(b"a"), (97 << 16) | 97);
    // 97, 98, 99: sums 97, 195, 294, which add up to 586.
    assert_eq!(adler32_steam(b"abc"), (586 << 16) | 294);
}

#[test]
fn the_checksum_is_reduced_across_stretches() {
    let data = vec![0xFFu8; 20_000];
    let (mut a, mut b) = (0u64, 0u64);
    for byte in &data {
        a += *byte as u64;
        b += a;
    }
    assert_eq!(adler32_steam(&data) as u64, (b % 65521) << 16 | a % 65521);
}

#[test]
fn a_checksum_of_zero_is_not_checked() {
    assert!(verify_adler32(b"anything", 0).is_ok());
    assert!(verify_adler32(b"a", 0x0061_0061).is_ok());
    let e = verify_adler32(b"a", 0x1234).unwrap_err();
    assert_eq!(e.message(), "Adler-32 mismatch: expected 00001234, got 00610061");
}

#[test]
fn a_plain_chunk_is_left_alone() {
    for data in [&b""[..], &b"VZ"[..], &b"VSZ"[..], &b"PK\x03\x05rest"[..], &b"plain"[..]] {
        assert_eq!(decompress_chunk(data).unwrap(), data);
    }
}

#[test]
fn a_zstandard_chunk_is_unpacked() {
    assert_eq!(decompress_chunk(&vzstd(b"zstandard content")).unwrap(), b"zstandard content");
    assert_eq!(decompress_vzstd(&vzstd(b"x")).unwrap(), b"x");
}

#[test]
fn a_zstandard_chunk_is_refused_with_a_reason() {
    let e = decompress_chunk(b"VSZa too short").unwrap_err();
    assert_eq!(e.message(), "VZstd data too short");
    let e = decompress_chunk(&[&b"VSZa"[..], &[0u8; 40][..]].concat()).unwrap_err();
    assert!(e.message().starts_with("VZstd init: "), "{}", e.message());
    let mut data = vzstd(b"zstandard content");
    let cut = data.len() - 15 - 4;
    data.drain(cut..cut + 4);
    assert!(matches!(decompress_chunk(&data), Err(Error::Io(_))));
}

#[test]
fn an_lzma_chunk_is_unpacked() {
    let content = b"lzma content, lzma content, lzma content".repeat(20);
    assert_eq!(decompress_chunk(&vzip(&content)).unwrap(), content);
    assert_eq!(decompress_vzip_lzma(&vzip(b"y")).unwrap(), b"y");
}

#[test]
fn an_lzma_chunk_is_refused_with_a_reason() {
    let e = decompress_chunk(b"VZa too short").unwrap_err();
    assert_eq!(e.message(), "VZip data too short");
    let e = decompress_chunk(&[&b"VZa"[..], &[0xFFu8; 40][..]].concat()).unwrap_err();
    assert!(e.message().starts_with("VZip LZMA decompress: "), "{}", e.message());
}

#[test]
fn a_zipped_chunk_is_unpacked() {
    assert_eq!(decompress_chunk(&zipped(b"zip content")).unwrap(), b"zip content");
    let e = decompress_chunk(b"PK\x03\x04 and no more").unwrap_err();
    assert!(e.message().starts_with("chunk zip: "), "{}", e.message());
}

#[test]
fn a_chunk_is_decrypted_unpacked_and_checked() {
    let key = [2u8; 32];
    let content = b"the content of a chunk";
    let crc = adler32_steam(content);
    for packed in [content.to_vec(), vzstd(content), vzip(content), zipped(content)] {
        assert_eq!(process_chunk(&key, &encrypt(&key, &packed), crc).unwrap(), content);
    }
    let e = process_chunk(&key, &encrypt(&key, content), crc ^ 1).unwrap_err();
    assert!(e.message().starts_with("Adler-32 mismatch: "), "{}", e.message());
    let e = process_chunk(&key, &[0u8; 8], crc).unwrap_err();
    assert_eq!(e.message(), "encrypted data too short (8 bytes, need at least 32)");
    let e = process_chunk(&key, &encrypt(&key, b"VZa short"), crc).unwrap_err();
    assert_eq!(e.message(), "VZip data too short");
}

#[test]
fn a_chunk_on_disk_is_known_by_its_digest() {
    assert!(chunk_matches(b"abc", "a9993e364706816aba3e25717850c26c9cd0d89d"));
    assert!(chunk_matches(b"abc", "A9993E364706816ABA3E25717850C26C9CD0D89D"));
    assert!(!chunk_matches(b"abd", "a9993e364706816aba3e25717850c26c9cd0d89d"));
    assert!(!chunk_matches(b"abc", "a9993e"));
    assert!(chunk_matches(b"", "da39a3ee5e6b4b0d3255bfef95601890afd80709"));
}
