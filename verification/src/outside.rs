//! What the library takes from outside crates and from std without proof.
//!
//! Each function makes one outside call and converts its arguments and its
//! result. Where an outside result takes pages to state, it has a name here,
//! and the contracts of the library speak of that name.

use std::hash::{BuildHasher, Hasher};
use std::io::Read;

use aes::cipher::{BlockDecrypt, KeyInit};
use base64::Engine;
use cbc::cipher::{BlockDecryptMut, KeyIvInit};
use sha1::Digest;
use vstd::arithmetic::power::pow;
use vstd::arithmetic::power2::pow2;
use vstd::prelude::*;
use vstd::utf8::{decode_utf8, valid_utf8};

use crate::error::outcome;
use crate::text::{ascii_lowercase, digit_char, is_ascii_text};
use crate::wire::be_value;
use crate::zstd::frame_is_countable;

verus! {

// ---------------------------------------------------------------------------
// Ciphers
// ---------------------------------------------------------------------------

/// What AES-256 makes of one block of 16 bytes when it decrypts it with `key`.
pub uninterp spec fn aes256_block(key: Seq<u8>, block: Seq<u8>) -> Seq<u8>;

/// The bytes before padding is taken off when `input` is decrypted block by
/// block in CBC mode: each decrypted block is combined by exclusive or with
/// the encrypted block before it, the first with `iv`.
pub open spec fn cbc_plain(key: Seq<u8>, iv: Seq<u8>, input: Seq<u8>) -> Seq<u8> {
    Seq::new(
        input.len(),
        |i: int|
            aes256_block(key, input.subrange(i / 16 * 16, i / 16 * 16 + 16))[i % 16] ^ (if i < 16 {
                iv[i]
            } else {
                input[i - 16]
            }),
    )
}

/// `padded` ends in PKCS7 padding for blocks of 16 bytes: its last byte says
/// how many bytes of padding there are, and each of them is that number.
pub open spec fn ends_in_padding(padded: Seq<u8>) -> bool {
    &&& padded.len() > 0
    &&& 1 <= padded.last() <= 16
    &&& padded.last() <= padded.len()
    &&& forall|i: int|
        padded.len() - padded.last() <= i < padded.len() ==> #[trigger] padded[i] == padded.last()
}

/// What stands before the PKCS7 padding of `padded`.
pub open spec fn before_padding(padded: Seq<u8>) -> Seq<u8> {
    padded.take(padded.len() - padded.last())
}

/// `aes::Aes256::new_from_slice` and `decrypt_block` of the aes crate.
///
/// A key of any length but 32 is refused with the text `Invalid Length`. With
/// a key of 32 bytes the result is the decrypted block, again 16 bytes.
#[verifier::external_body]
pub(crate) fn decrypt_block(key: &[u8], block: &[u8]) -> (r: Result<Vec<u8>, String>)
    requires
        block@.len() == 16,
    ensures
        r is Ok <==> key@.len() == 32,
        r matches Ok(output) ==> output@ == aes256_block(key@, block@) && output@.len() == 16,
        r matches Err(text) ==> text@ == "Invalid Length"@,
{
    let cipher = aes::Aes256::new_from_slice(key).map_err(|e| e.to_string())?;
    let mut output = aes::Block::clone_from_slice(block);
    cipher.decrypt_block(&mut output);
    Ok(output.to_vec())
}

/// `cbc::Decryptor::decrypt_padded_mut` of the cbc crate, over AES-256 and
/// with PKCS7 padding.
///
/// The input is decrypted in CBC mode. Where the result ends in PKCS7 padding,
/// what stands before the padding comes back. Where it does not, or where the
/// input is empty or not made of whole blocks, the text is `Unpad Error`.
#[verifier::external_body]
pub(crate) fn decrypt_cbc(key: &[u8], iv: &[u8], input: &[u8]) -> (r: Result<Vec<u8>, String>)
    requires
        key@.len() == 32,
        iv@.len() == 16,
    ensures
        match r {
            Ok(plain) => input@.len() % 16 == 0 && ends_in_padding(cbc_plain(key@, iv@, input@))
                && plain@ == before_padding(cbc_plain(key@, iv@, input@)),
            Err(text) => (input@.len() % 16 != 0 || !ends_in_padding(
                cbc_plain(key@, iv@, input@),
            )) && text@ == "Unpad Error"@,
        },
{
    let mut buf = input.to_vec();
    let plain = cbc::Decryptor::<aes::Aes256>::new(key.into(), iv.into())
        .decrypt_padded_mut::<cbc::cipher::block_padding::Pkcs7>(&mut buf)
        .map_err(|e| e.to_string())?;
    Ok(plain.to_vec())
}

/// The SHA-1 digest of `data`.
pub uninterp spec fn sha1_digest(data: Seq<u8>) -> Seq<u8>;

/// `sha1::Sha1::digest` of the sha1 crate: a digest of 20 bytes.
#[verifier::external_body]
pub(crate) fn sha1_of(data: &[u8]) -> (r: Vec<u8>)
    ensures
        r@ == sha1_digest(data@),
        r@.len() == 20,
{
    sha1::Sha1::digest(data).to_vec()
}

// ---------------------------------------------------------------------------
// Text encodings
// ---------------------------------------------------------------------------

/// What the standard base64 alphabet with padding makes of `text`: the bytes,
/// or the text of the error.
pub uninterp spec fn base64_decoded(text: Seq<char>) -> Result<Seq<u8>, Seq<char>>;

/// `base64::engine::general_purpose::STANDARD.decode` of the base64 crate.
#[verifier::external_body]
pub(crate) fn base64_decode(text: &str) -> (r: Result<Vec<u8>, String>)
    ensures
        outcome(r) == base64_decoded(text@),
{
    base64::engine::general_purpose::STANDARD.decode(text).map_err(|e| e.to_string())
}

/// What the URL-safe base64 alphabet with padding makes of `text`: the bytes,
/// or the text of the error.
pub uninterp spec fn base64url_decoded(text: Seq<char>) -> Result<Seq<u8>, Seq<char>>;

/// `base64::engine::general_purpose::URL_SAFE.decode` of the base64 crate.
#[verifier::external_body]
pub(crate) fn base64url_decode(text: &str) -> (r: Result<Vec<u8>, String>)
    ensures
        outcome(r) == base64url_decoded(text@),
{
    base64::engine::general_purpose::URL_SAFE.decode(text).map_err(|e| e.to_string())
}

/// The text that stands for `bytes` in the standard base64 alphabet with
/// padding.
pub uninterp spec fn base64_text(bytes: Seq<u8>) -> Seq<char>;

/// `base64::engine::general_purpose::STANDARD.encode` of the base64 crate.
#[verifier::external_body]
pub(crate) fn base64_encode(bytes: &[u8]) -> (r: String)
    ensures
        r@ == base64_text(bytes@),
{
    base64::engine::general_purpose::STANDARD.encode(bytes)
}

/// `String::push` of std: the character goes behind what the string holds.
pub assume_specification[ String::push ](s: &mut String, c: char)
    ensures
        final(s)@ == old(s)@.push(c),
;

/// How std words the fault in bytes that are not UTF-8.
pub uninterp spec fn utf8_fault(bytes: Seq<u8>) -> Seq<char>;

/// `String::from_utf8` of std: the characters where the bytes are UTF-8, and
/// the text of the error where they are not.
#[verifier::external_body]
pub(crate) fn text_from_utf8(bytes: Vec<u8>) -> (r: Result<String, String>)
    ensures
        r is Ok <==> valid_utf8(bytes@),
        r matches Ok(text) ==> text@ == decode_utf8(bytes@),
        r matches Err(text) ==> text@ == utf8_fault(bytes@),
{
    String::from_utf8(bytes).map_err(|e| e.to_string())
}

/// The lowercase equivalent, as Unicode defines it, of a text that is not all
/// ASCII.
pub uninterp spec fn unicode_lowercased(text: Seq<char>) -> Seq<char>;

/// `str::to_lowercase` of std.
///
/// In ASCII text the letters A to Z become a to z and all else stays. The
/// result for any other text has a name, and one thing is said of it: no
/// character has a backslash in its lowercase equivalent but the backslash
/// itself.
pub assume_specification[ str::to_lowercase ](s: &str) -> (r: String)
    ensures
        is_ascii_text(s@) ==> r@ == ascii_lowercase(s@),
        !is_ascii_text(s@) ==> r@ == unicode_lowercased(s@),
        !s@.contains('\\') ==> !r@.contains('\\'),
;

/// How std writes a text between quotes for a programmer to read.
pub uninterp spec fn quoted_text(text: Seq<char>) -> Seq<char>;

/// `Debug` of `str` in std.
#[verifier::external_body]
pub(crate) fn quoted(text: &str) -> (r: String)
    ensures
        r@ == quoted_text(text@),
{
    format!("{:?}", text)
}

/// How a character is written in a JSON string.
pub open spec fn json_char(c: char) -> Seq<char> {
    if c == '"' {
        seq!['\\', '"']
    } else if c == '\\' {
        seq!['\\', '\\']
    } else if c == '\x08' {
        seq!['\\', 'b']
    } else if c == '\x0C' {
        seq!['\\', 'f']
    } else if c == '\n' {
        seq!['\\', 'n']
    } else if c == '\r' {
        seq!['\\', 'r']
    } else if c == '\t' {
        seq!['\\', 't']
    } else if (c as int) < 32 {
        seq!['\\', 'u', '0', '0', digit_char(c as int / 16), digit_char(c as int % 16)]
    } else {
        seq![c]
    }
}

/// How characters are written in a JSON string.
pub open spec fn json_chars(text: Seq<char>) -> Seq<char>
    decreases text.len(),
{
    if text.len() == 0 {
        Seq::empty()
    } else {
        json_chars(text.drop_last()) + json_char(text.last())
    }
}

/// The JSON string that stands for a text, quotes and escapes with it.
pub open spec fn json_text(text: Seq<char>) -> Seq<char> {
    seq!['"'] + json_chars(text) + seq!['"']
}

/// `serde_json::Value::to_string` of the serde_json crate, on a string: quotes
/// around the text, in which quotes, backslashes and control characters are
/// escaped and nothing else is.
#[verifier::external_body]
pub(crate) fn json_string(text: &str) -> (r: String)
    ensures
        r@ == json_text(text@),
{
    serde_json::Value::from(text).to_string()
}

// ---------------------------------------------------------------------------
// Compression
// ---------------------------------------------------------------------------

/// What zlib makes of `data`: the bytes, or the text of the error.
pub uninterp spec fn zlib_inflated(data: Seq<u8>) -> Result<Seq<u8>, Seq<char>>;

/// `flate2::read::ZlibDecoder` of the flate2 crate, read to its end.
#[verifier::external_body]
pub(crate) fn zlib_inflate(data: &[u8]) -> (r: Result<Vec<u8>, String>)
    ensures
        outcome(r) == zlib_inflated(data@),
{
    let mut output = Vec::new();
    flate2::read::ZlibDecoder::new(data).read_to_end(&mut output).map_err(|e| e.to_string())?;
    Ok(output)
}

/// What gzip makes of `data`: the bytes, or the text of the error.
pub uninterp spec fn gzip_inflated(data: Seq<u8>) -> Result<Seq<u8>, Seq<char>>;

/// `flate2::read::GzDecoder` of the flate2 crate, read to its end.
#[verifier::external_body]
pub(crate) fn gzip_inflate(data: &[u8]) -> (r: Result<Vec<u8>, String>)
    ensures
        outcome(r) == gzip_inflated(data@),
{
    let mut output = Vec::new();
    flate2::read::GzDecoder::new(data).read_to_end(&mut output).map_err(|e| e.to_string())?;
    Ok(output)
}

/// What LZMA makes of a stream with a 13-byte header: the bytes, or the text
/// of the error.
pub uninterp spec fn lzma_expanded(stream: Seq<u8>) -> Result<Seq<u8>, Seq<char>>;

/// `lzma_rs::lzma_decompress` of the lzma-rs crate.
#[verifier::external_body]
pub(crate) fn lzma_expand(stream: &[u8]) -> (r: Result<Vec<u8>, String>)
    ensures
        outcome(r) == lzma_expanded(stream@),
{
    let mut output = Vec::new();
    let mut input = std::io::Cursor::new(stream);
    lzma_rs::lzma_decompress(&mut input, &mut output).map_err(|e| e.to_string())?;
    Ok(output)
}

/// How many bytes the distribution of a Finite State Entropy table takes at
/// the beginning of `source`, if there is one, of codes up to `max_symbol` and
/// of a size up to two to the power `max_log`.
pub uninterp spec fn fse_table_length(source: Seq<u8>, max_symbol: u8, max_log: u8) -> Option<nat>;

/// `FSETable::build_decoder` of the ruzstd crate: it never reads beyond the
/// source.
#[verifier::external_body]
pub(crate) fn read_fse_table(source: &[u8], max_symbol: u8, max_log: u8) -> (r: Option<usize>)
    ensures
        r matches Some(n) ==> n <= source@.len(),
        match r {
            Some(n) => fse_table_length(source@, max_symbol, max_log) == Some(n as nat),
            None => fse_table_length(source@, max_symbol, max_log) is None,
        },
{
    ruzstd::fse::FSETable::new(max_symbol).build_decoder(source, max_log).ok()
}

/// The lengths of the matches in a section of sequences that holds its tables
/// itself, if it can be read.
pub uninterp spec fn match_lengths_of(section: Seq<u8>) -> Option<Seq<u32>>;

/// `decode_sequences` of the ruzstd crate, by the header of the section and
/// with no tables from before.
#[verifier::external_body]
pub(crate) fn match_lengths(section: &[u8]) -> (r: Option<Vec<u32>>)
    ensures
        match r {
            Some(lengths) => match_lengths_of(section@) == Some(lengths@),
            None => match_lengths_of(section@) is None,
        },
{
    let mut header = ruzstd::blocks::sequence_section::SequencesHeader::new();
    let start = header.parse_from_header(section).ok()? as usize;
    let mut tables = ruzstd::decoding::scratch::FSEScratch::new();
    let mut sequences = Vec::new();
    ruzstd::decoding::sequence_section_decoder::decode_sequences(
        &header, &section[start..], &mut tables, &mut sequences,
    ).ok()?;
    Some(sequences.iter().map(|sequence| sequence.ml).collect())
}

/// What Zstandard makes of a frame: the text of the error where the frame
/// cannot be opened; else the bytes, or the text of the error that came up
/// while they were read.
pub uninterp spec fn zstd_expanded(frame: Seq<u8>) -> Result<
    Result<Seq<u8>, Seq<char>>,
    Seq<char>,
>;

/// `ruzstd::StreamingDecoder` of the ruzstd crate, made and read to its end.
/// It counts what a block expands to in 32 bits, and panics where the block
/// outgrows that count.
#[verifier::external_body]
pub(crate) fn zstd_expand(frame: &[u8]) -> (r: Result<Result<Vec<u8>, String>, String>)
    requires
        frame_is_countable(frame@),
    ensures
        nested_outcome(r) == zstd_expanded(frame@),
{
    let mut decoder = ruzstd::StreamingDecoder::new(frame).map_err(|e| e.to_string())?;
    let mut output = Vec::new();
    let read = decoder.read_to_end(&mut output);
    Ok(read.map(|_| output).map_err(|e| e.to_string()))
}

/// How many entries a ZIP archive has, or the text of the error where it
/// cannot be opened.
pub uninterp spec fn zip_entries(data: Seq<u8>) -> Result<usize, Seq<char>>;

/// `zip::ZipArchive::new` and `len` of the zip crate.
#[verifier::external_body]
pub(crate) fn zip_entry_count(data: &[u8]) -> (r: Result<usize, String>)
    ensures
        outcome(r) == zip_entries(data@),
{
    let archive = zip::ZipArchive::new(std::io::Cursor::new(data)).map_err(|e| e.to_string())?;
    Ok(archive.len())
}

/// The content of the first entry of a ZIP archive that can be opened: the
/// text of the error where the entry cannot be opened; else the bytes, or the
/// text of the error that came up while they were read.
pub uninterp spec fn zip_first(data: Seq<u8>) -> Result<Result<Seq<u8>, Seq<char>>, Seq<char>>;

/// `zip::ZipArchive::by_index` of the zip crate, for the first entry, read to
/// its end.
#[verifier::external_body]
pub(crate) fn zip_first_entry(data: &[u8]) -> (r: Result<Result<Vec<u8>, String>, String>)
    requires
        zip_entries(data@) is Ok,
    ensures
        nested_outcome(r) == zip_first(data@),
{
    let opened = zip::ZipArchive::new(std::io::Cursor::new(data));
    let mut archive = opened.map_err(|e| e.to_string())?;
    let mut file = archive.by_index(0).map_err(|e| e.to_string())?;
    let mut output = Vec::new();
    let read = file.read_to_end(&mut output);
    Ok(read.map(|_| output).map_err(|e| e.to_string()))
}

/// The result of an outside call that can fail in two places, over
/// mathematical values.
pub open spec fn nested_outcome(r: Result<Result<Vec<u8>, String>, String>) -> Result<
    Result<Seq<u8>, Seq<char>>,
    Seq<char>,
> {
    match r {
        Ok(inner) => Ok(outcome(inner)),
        Err(text) => Err(text@),
    }
}

// ---------------------------------------------------------------------------
// RSA
// ---------------------------------------------------------------------------

/// The value of a hexadecimal digit in ASCII, of either case.
pub open spec fn hex_digit_value(b: u8) -> Option<nat> {
    if 48 <= b <= 57 {
        Some((b - 48) as nat)
    } else if 97 <= b <= 102 {
        Some((b - 87) as nat)
    } else if 65 <= b <= 70 {
        Some((b - 55) as nat)
    } else {
        None
    }
}

/// The number that hexadecimal digits stand for; underscores between them say
/// nothing.
pub open spec fn hex_value(digits: Seq<u8>) -> nat
    decreases digits.len(),
{
    if digits.len() == 0 {
        0
    } else {
        match hex_digit_value(digits.last()) {
            Some(digit) => 16 * hex_value(digits.drop_last()) + digit,
            None => hex_value(digits.drop_last()),
        }
    }
}

/// The number that a hexadecimal text stands for: a plus sign may stand before
/// the digits, and underscores behind the first of them.
pub open spec fn hex_number(text: Seq<u8>) -> Option<nat> {
    let digits = if text.len() > 0 && text[0] == 43 {
        text.drop_first()
    } else {
        text
    };
    if digits.len() > 0 && digits[0] != 95 && forall|i: int|
        0 <= i < digits.len() ==> hex_digit_value(#[trigger] digits[i]) is Some || digits[i] == 95 {
        Some(hex_value(digits))
    } else {
        None
    }
}

/// `rsa::BigUint::parse_bytes` of the rsa crate, in base 16: the number that
/// the text stands for, most significant byte first. Zero is one zero byte; any
/// other number begins with a byte that is not zero.
#[verifier::external_body]
pub(crate) fn parse_hex_number(text: &[u8]) -> (r: Option<Vec<u8>>)
    ensures
        r is Some <==> hex_number(text@) is Some,
        r matches Some(n) ==> be_value(n@) == hex_number(text@)->0,
        r matches Some(n) ==> n@.len() > 0 && (n@.len() > 1 ==> n@[0] != 0),
{
    rsa::BigUint::parse_bytes(text, 16).map(|n| n.to_bytes_be())
}

/// What is wrong with a modulus and an exponent as an RSA public key, if
/// anything is.
pub open spec fn rsa_key_fault(n: nat, e: nat) -> Option<Seq<char>> {
    if n >= pow2(4096) {
        Some("modulus too large"@)
    } else if e > u64::MAX {
        Some("public exponent too large"@)
    } else if e >= n || n % 2 == 0 {
        Some("invalid modulus"@)
    } else if e % 2 == 0 {
        Some("invalid exponent"@)
    } else if e < 2 {
        Some("public exponent too small"@)
    } else if e >= 0x2_0000_0000 {
        Some("public exponent too large"@)
    } else {
        None
    }
}

/// `rsa::RsaPublicKey::new` of the rsa crate: a modulus of up to 4096 bits is
/// accepted that is odd and larger than the exponent, and an exponent that is
/// odd, more than one and of up to 33 bits.
#[verifier::external_body]
pub(crate) fn rsa_key_refused(n: &[u8], e: &[u8]) -> (r: Option<String>)
    ensures
        r is Some <==> rsa_key_fault(be_value(n@), be_value(e@)) is Some,
        r matches Some(text) ==> text@ == rsa_key_fault(be_value(n@), be_value(e@))->0,
{
    let modulus = rsa::BigUint::from_bytes_be(n);
    let exponent = rsa::BigUint::from_bytes_be(e);
    rsa::RsaPublicKey::new(modulus, exponent).err().map(|e| e.to_string())
}

/// `message` in PKCS#1 v1.5 padding: a zero and a two, bytes that are not zero,
/// and another zero stand before it.
pub open spec fn pkcs1_padded(filler: Seq<u8>, message: Seq<u8>) -> Seq<u8> {
    seq![0u8, 2u8] + filler + seq![0u8] + message
}

/// `cipher` is `message` encrypted with an RSA key whose modulus takes `size`
/// bytes: padded to that many bytes with one of the fillers that there are,
/// and raised to the exponent modulo the modulus.
pub open spec fn is_rsa_cipher(
    n: nat,
    e: nat,
    size: nat,
    message: Seq<u8>,
    cipher: Seq<u8>,
) -> bool {
    &&& cipher.len() == size
    &&& exists|filler: Seq<u8>|
        {
            &&& filler.len() == size - message.len() - 3
            &&& !filler.contains(0u8)
            &&& be_value(cipher) as int == pow(
                be_value(#[trigger] pkcs1_padded(filler, message)) as int,
                e,
            ) % (n as int)
        }
}

/// `rsa::RsaPublicKey::encrypt` of the rsa crate, with PKCS#1 v1.5 padding and
/// the random numbers of the operating system.
///
/// The padding is random, so two calls differ: which of the fillers that there
/// are was drawn is not stated. A message that leaves no room for 11 bytes of
/// padding is refused with the text `message too long`.
#[verifier::external_body]
pub(crate) fn rsa_encrypt(n: &[u8], e: &[u8], message: &[u8]) -> (r: Result<Vec<u8>, String>)
    requires
        n@.len() > 0,
        n@[0] != 0,
        rsa_key_fault(be_value(n@), be_value(e@)) is None,
    ensures
        r is Ok <==> message@.len() + 11 <= n@.len(),
        r matches Ok(cipher) ==> is_rsa_cipher(
            be_value(n@),
            be_value(e@),
            n@.len(),
            message@,
            cipher@,
        ),
        r matches Err(text) ==> text@ == "message too long"@,
{
    let modulus = rsa::BigUint::from_bytes_be(n);
    let exponent = rsa::BigUint::from_bytes_be(e);
    rsa::RsaPublicKey::new_unchecked(modulus, exponent)
        .encrypt(&mut rsa::rand_core::OsRng, rsa::Pkcs1v15Encrypt, message)
        .map_err(|e| e.to_string())
}

// ---------------------------------------------------------------------------
// Shared byte buffers
// ---------------------------------------------------------------------------

/// `bytes::Bytes` of the bytes crate: a shared, immutable run of bytes.
#[verifier::external_type_specification]
#[verifier::external_body]
pub struct ExBytes(bytes::Bytes);

/// The bytes that a shared buffer holds.
pub uninterp spec fn held(buffer: bytes::Bytes) -> Seq<u8>;

/// `From<Vec<u8>>` of `bytes::Bytes`: the buffer holds what the vector held.
#[verifier::external_body]
pub(crate) fn share(bytes: Vec<u8>) -> (buffer: bytes::Bytes)
    ensures
        held(buffer) == bytes@,
{
    bytes::Bytes::from(bytes)
}

/// `Deref` of `bytes::Bytes`: the bytes that the buffer holds.
#[verifier::external_body]
pub(crate) fn shared_bytes(buffer: &bytes::Bytes) -> (bytes: &[u8])
    ensures
        bytes@ == held(*buffer),
{
    &buffer[..]
}

/// `bytes::Bytes::slice`: a buffer that holds the bytes from `start` up to
/// `end`.
#[verifier::external_body]
pub(crate) fn shared_range(buffer: &bytes::Bytes, start: usize, end: usize) -> (part: bytes::Bytes)
    requires
        start <= end <= held(*buffer).len(),
    ensures
        held(part) == held(*buffer).subrange(start as int, end as int),
{
    buffer.slice(start..end)
}

// ---------------------------------------------------------------------------
// Chance and time
// ---------------------------------------------------------------------------

/// `std::collections::hash_map::RandomState`: the hash of nothing under keys
/// drawn at random, so any number may come back.
#[verifier::external_body]
pub(crate) fn random_hash() -> (r: u64) {
    std::collections::hash_map::RandomState::new().build_hasher().finish()
}

/// `std::time::SystemTime::now`: the seconds since the Unix epoch, or nothing
/// where the clock stands before it.
#[verifier::external_body]
pub(crate) fn unix_seconds() -> (r: Option<u64>) {
    std::time::SystemTime::now()
        .duration_since(std::time::UNIX_EPOCH)
        .ok()
        .map(|elapsed| elapsed.as_secs())
}

} // verus!
