use aes::cipher::{BlockEncrypt, BlockEncryptMut, KeyInit, KeyIvInit};
use base64::Engine;
use cbc::cipher::block_padding::Pkcs7;
use steamdepot::crypto::{
    aes_cbc_decrypt, aes_ecb_decrypt, aes_ecb_decrypt_block, decrypt_filename,
    decrypt_filename_bytes, symmetric_decrypt,
};

type Aes256CbcEnc = cbc::Encryptor<aes::Aes256>;

fn encrypt_cbc(key: &[u8], iv: &[u8], plaintext: &[u8]) -> Vec<u8> {
    let encryptor = Aes256CbcEnc::new_from_slices(key, iv).unwrap();
    let mut buf = vec![0u8; plaintext.len() + 16];
    buf[..plaintext.len()].copy_from_slice(plaintext);
    let length = encryptor
        .encrypt_padded_mut::<Pkcs7>(&mut buf, plaintext.len())
        .unwrap()
        .len();
    buf.truncate(length);
    buf
}

fn encrypt_block(key: &[u8], block: &[u8]) -> Vec<u8> {
    let cipher = aes::Aes256::new_from_slice(key).unwrap();
    let mut output = aes::Block::clone_from_slice(block);
    cipher.encrypt_block(&mut output);
    output.to_vec()
}

fn encrypt_symmetric(key: &[u8], iv: &[u8], plaintext: &[u8]) -> Vec<u8> {
    let mut data = encrypt_block(key, iv);
    data.extend_from_slice(&encrypt_cbc(key, iv, plaintext));
    data
}

fn roundtrip(key: &[u8; 32], iv: &[u8; 16], plaintext: &[u8]) {
    let encryptor = Aes256CbcEnc::new_from_slices(key, iv).unwrap();
    let mut buf = vec![0u8; plaintext.len() + 16];
    buf[..plaintext.len()].copy_from_slice(plaintext);
    let ciphertext_len = encryptor
        .encrypt_padded_mut::<Pkcs7>(&mut buf, plaintext.len())
        .unwrap()
        .len();
    buf.truncate(ciphertext_len);

    let decrypted = aes_cbc_decrypt(key, iv, &buf).expect("decrypt failed");
    assert_eq!(decrypted, plaintext);
}

#[test]
fn aes_cbc_decrypt_roundtrips() {
    let key = [0x42u8; 32];
    let iv = [0x24u8; 16];

    roundtrip(&key, &iv, b"a short chunk of plaintext");
    roundtrip(&key, &iv, &[0u8; 16]);
    roundtrip(&key, &iv, &[0xABu8; 1024]);
    roundtrip(&key, &iv, b"");
}

#[test]
fn cbc_refuses_a_key_of_another_length() {
    let e = aes_cbc_decrypt(&[0u8; 16], &[0u8; 16], &[0u8; 16]).unwrap_err();
    assert_eq!(e.message(), "AES-CBC key must be 32 bytes, got 16");
}

#[test]
fn cbc_refuses_a_vector_of_another_length() {
    let e = aes_cbc_decrypt(&[0u8; 32], &[0u8; 8], &[0u8; 16]).unwrap_err();
    assert_eq!(e.message(), "AES-CBC IV must be 16 bytes, got 8");
}

#[test]
fn cbc_refuses_bad_padding_and_broken_blocks() {
    let key = [7u8; 32];
    let iv = [9u8; 16];
    for input in [vec![], vec![1u8; 15], vec![1u8; 33]] {
        let e = aes_cbc_decrypt(&key, &iv, &input).unwrap_err();
        assert_eq!(e.message(), "AES-CBC decrypt: Unpad Error");
    }
    // A block that decrypts to sixteen zeros ends in no padding.
    let block = encrypt_block(&key, &iv);
    let e = aes_cbc_decrypt(&key, &iv, &block).unwrap_err();
    assert_eq!(e.message(), "AES-CBC decrypt: Unpad Error");
}

#[test]
fn ecb_decrypts_block_by_block_and_unpads() {
    let key = [3u8; 32];
    let mut first = [0u8; 16];
    first.copy_from_slice(b"sixteen bytes!!!");
    let mut second = [13u8; 16];
    second[..3].copy_from_slice(b"abc");
    let mut input = encrypt_block(&key, &first);
    input.extend_from_slice(&encrypt_block(&key, &second));
    let plain = aes_ecb_decrypt(&key, &input).unwrap();
    assert_eq!(plain, b"sixteen bytes!!!abc");
}

#[test]
fn ecb_keeps_what_ends_in_no_padding() {
    let key = [3u8; 32];
    let block = [0u8; 16];
    assert_eq!(aes_ecb_decrypt(&key, &encrypt_block(&key, &block)).unwrap(), block);
    let block = *b"0123456789abcd\x03\x02";
    assert_eq!(aes_ecb_decrypt(&key, &encrypt_block(&key, &block)).unwrap(), block);
    assert_eq!(aes_ecb_decrypt(&key, &[]).unwrap(), Vec::<u8>::new());
    let whole = [16u8; 16];
    assert_eq!(aes_ecb_decrypt(&key, &encrypt_block(&key, &whole)).unwrap(), Vec::<u8>::new());
}

#[test]
fn ecb_refuses_keys_and_lengths() {
    let e = aes_ecb_decrypt(&[0u8; 31], &[0u8; 16]).unwrap_err();
    assert_eq!(e.message(), "depot key must be 32 bytes, got 31");
    let e = aes_ecb_decrypt(&[0u8; 32], &[0u8; 17]).unwrap_err();
    assert_eq!(e.message(), "encrypted data length 17 not a multiple of 16");
}

#[test]
fn one_block_is_decrypted_as_it_is() {
    let key = [5u8; 32];
    let block = [16u8; 16];
    assert_eq!(aes_ecb_decrypt_block(&key, &encrypt_block(&key, &block)).unwrap(), block);
    let e = aes_ecb_decrypt_block(&[5u8; 5], &block).unwrap_err();
    assert_eq!(e.message(), "AES key init: Invalid Length");
}

#[test]
fn symmetric_data_comes_back() {
    let key = [0x11u8; 32];
    let iv = *b"an iv, encrypted";
    for plain in [&b""[..], &b"chunk"[..], &[7u8; 100][..]] {
        let data = encrypt_symmetric(&key, &iv, plain);
        assert_eq!(symmetric_decrypt(&key, &data).unwrap(), plain);
    }
}

#[test]
fn symmetric_data_must_be_long_enough() {
    let e = symmetric_decrypt(&[0u8; 32], &[0u8; 31]).unwrap_err();
    assert_eq!(e.message(), "encrypted data too short (31 bytes, need at least 32)");
    let e = symmetric_decrypt(&[0u8; 3], &[0u8; 32]).unwrap_err();
    assert_eq!(e.message(), "AES key init: Invalid Length");
}

#[test]
fn a_file_name_comes_back() {
    let key = [0x77u8; 32];
    let data = encrypt_symmetric(&key, &[1u8; 16], b"addons\\m\xc3\xa4in.pbo\0\0");
    let text = base64::engine::general_purpose::STANDARD.encode(&data);
    assert_eq!(decrypt_filename(&key, &text).unwrap(), "addons\\m\u{e4}in.pbo");
    // White space may stand anywhere in the text.
    let spaced: String = text.chars().flat_map(|c| [c, '\n', ' ', '\t', '\r', '\x0C']).collect();
    assert_eq!(decrypt_filename(&key, &spaced).unwrap(), "addons\\m\u{e4}in.pbo");
}

#[test]
fn a_name_of_zeros_is_empty() {
    let key = [0x77u8; 32];
    let data = encrypt_symmetric(&key, &[1u8; 16], &[0u8; 5]);
    assert_eq!(decrypt_filename_bytes(&key, &data).unwrap(), "");
}

#[test]
fn file_names_are_refused_with_a_reason() {
    let key = [0x77u8; 32];
    let e = decrypt_filename(&key, "!!!!").unwrap_err();
    assert!(e.message().starts_with("filename base64 decode: "), "{}", e.message());
    let e = decrypt_filename(&key, "AAAA").unwrap_err();
    assert_eq!(e.message(), "encrypted filename too short (3 bytes, need at least 32)");
    let e = decrypt_filename_bytes(&[1u8; 2], &[0u8; 32]).unwrap_err();
    assert_eq!(e.message(), "AES key init: Invalid Length");
    let data = encrypt_symmetric(&key, &[1u8; 16], b"\xff\xfe");
    let e = decrypt_filename_bytes(&key, &data).unwrap_err();
    assert_eq!(
        e.message(),
        "filename UTF-8: invalid utf-8 sequence of 1 bytes from index 0"
    );
}
