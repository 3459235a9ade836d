//! Decryption of depot content: chunks, manifests and file names.

use vstd::arithmetic::div_mod::lemma_fundamental_div_mod_converse;
use vstd::prelude::*;
use vstd::utf8::{
    decode_utf8, encode_utf8, encode_utf8_decode_utf8, encode_utf8_valid_utf8, valid_utf8,
};

use crate::error::{label, labelled, refused, viewed, Error, ErrorView};
use crate::outside::{
    aes256_block, base64_decode, base64_decoded, before_padding, cbc_plain, decrypt_block,
    decrypt_cbc, ends_in_padding, text_from_utf8, utf8_fault,
};
use crate::text::{counted, decimal, numbered};
use crate::wire::{copy_range, push_bytes};

verus! {

/// `input` with each block of 16 bytes decrypted by itself.
pub open spec fn ecb_plain(key: Seq<u8>, input: Seq<u8>) -> Seq<u8> {
    Seq::new(
        input.len(),
        |i: int| aes256_block(key, input.subrange(i / 16 * 16, i / 16 * 16 + 16))[i % 16],
    )
}

/// What stands before the padding, or all of `plain` where it ends in none.
pub open spec fn unpadded(plain: Seq<u8>) -> Seq<u8> {
    if ends_in_padding(plain) {
        before_padding(plain)
    } else {
        plain
    }
}

/// What [`aes_ecb_decrypt`] gives.
pub open spec fn ecb_decrypted(key: Seq<u8>, input: Seq<u8>) -> Result<Seq<u8>, ErrorView> {
    if key.len() != 32 {
        refused("depot key must be 32 bytes, got "@ + decimal(key.len()))
    } else if input.len() % 16 != 0 {
        refused(
            "encrypted data length "@ + decimal(input.len()) + " not a multiple of 16"@,
        )
    } else {
        Ok(unpadded(ecb_plain(key, input)))
    }
}

/// What [`aes_cbc_decrypt`] gives.
pub open spec fn cbc_decrypted(key: Seq<u8>, iv: Seq<u8>, input: Seq<u8>) -> Result<
    Seq<u8>,
    ErrorView,
> {
    if key.len() != 32 {
        refused("AES-CBC key must be 32 bytes, got "@ + decimal(key.len()))
    } else if iv.len() != 16 {
        refused("AES-CBC IV must be 16 bytes, got "@ + decimal(iv.len()))
    } else if input.len() % 16 == 0 && ends_in_padding(cbc_plain(key, iv, input)) {
        Ok(before_padding(cbc_plain(key, iv, input)))
    } else {
        refused(labelled("AES-CBC decrypt"@, "Unpad Error"@))
    }
}

/// What decrypting data of at least 32 bytes gives, where the first 16 bytes
/// are the encrypted initialisation vector of the rest.
pub open spec fn vector_first_decrypted(key: Seq<u8>, input: Seq<u8>) -> Result<
    Seq<u8>,
    ErrorView,
> {
    if key.len() != 32 {
        refused(labelled("AES key init"@, "Invalid Length"@))
    } else {
        cbc_decrypted(key, aes256_block(key, input.take(16)), input.skip(16))
    }
}

/// What [`symmetric_decrypt`] gives.
pub open spec fn symmetric_decrypted(key: Seq<u8>, input: Seq<u8>) -> Result<Seq<u8>, ErrorView> {
    if input.len() < 32 {
        refused(
            "encrypted data too short ("@ + decimal(input.len()) + " bytes, need at least 32)"@,
        )
    } else {
        vector_first_decrypted(key, input)
    }
}

/// `bytes` without the zeros at its end.
pub open spec fn without_trailing_zeros(bytes: Seq<u8>) -> Seq<u8>
    decreases bytes.len(),
{
    if bytes.len() > 0 && bytes.last() == 0 {
        without_trailing_zeros(bytes.drop_last())
    } else {
        bytes
    }
}

/// Whether ASCII counts `c` as white space.
pub open spec fn is_ascii_blank(c: char) -> bool {
    c == ' ' || c == '\t' || c == '\n' || c == '\x0C' || c == '\r'
}

/// `text` without ASCII white space.
pub open spec fn without_blanks(text: Seq<char>) -> Seq<char> {
    text.filter(|c: char| !is_ascii_blank(c))
}

/// What [`decrypt_filename_bytes`] gives.
pub open spec fn filename_from(key: Seq<u8>, encrypted: Seq<u8>) -> Result<Seq<char>, ErrorView> {
    if encrypted.len() < 32 {
        refused(
            "encrypted filename too short ("@ + decimal(encrypted.len())
                + " bytes, need at least 32)"@,
        )
    } else {
        match vector_first_decrypted(key, encrypted) {
            Ok(plain) => {
                let name = without_trailing_zeros(plain);
                if valid_utf8(name) {
                    Ok(decode_utf8(name))
                } else {
                    refused(labelled("filename UTF-8"@, utf8_fault(name)))
                }
            },
            Err(error) => Err(error),
        }
    }
}

/// What [`decrypt_filename`] gives.
pub open spec fn filename_decrypted(key: Seq<u8>, encrypted_b64: Seq<char>) -> Result<
    Seq<char>,
    ErrorView,
> {
    match base64_decoded(without_blanks(encrypted_b64)) {
        Ok(encrypted) => filename_from(key, encrypted),
        Err(text) => refused(labelled("filename base64 decode"@, text)),
    }
}

/// `plain` behind which PKCS7 puts as many bytes as fill the last block of 16,
/// or a whole block where `plain` leaves no room.
pub open spec fn padded(plain: Seq<u8>) -> Seq<u8> {
    let count = (16 - plain.len() % 16) as nat;
    plain + Seq::new(count, |i: int| count as u8)
}

/// `cipher` is what CBC mode makes of whole blocks `text`: each block of
/// `text`, combined by exclusive or with the block of `cipher` before it (the
/// first with `iv`), is what AES decrypts the block of `cipher` to.
pub open spec fn cbc_encrypts(key: Seq<u8>, iv: Seq<u8>, text: Seq<u8>, cipher: Seq<u8>) -> bool {
    &&& text.len() == cipher.len()
    &&& text.len() % 16 == 0
    &&& forall|i: int|
        0 <= i < text.len() ==> aes256_block(
            key,
            cipher.subrange(i / 16 * 16, i / 16 * 16 + 16),
        )[i % 16] == #[trigger] text[i] ^ (if i < 16 {
            iv[i]
        } else {
            cipher[i - 16]
        })
}

/// Decryption gives back what was encrypted: the padding that encryption put
/// behind a text is what decryption takes off, whatever the text's length.
pub proof fn cbc_round_trip(key: Seq<u8>, iv: Seq<u8>, plain: Seq<u8>, cipher: Seq<u8>)
    requires
        key.len() == 32,
        iv.len() == 16,
        cbc_encrypts(key, iv, padded(plain), cipher),
    ensures
        cbc_decrypted(key, iv, cipher) == Ok::<Seq<u8>, ErrorView>(plain),
{
    let text = padded(plain);
    let out = cbc_plain(key, iv, cipher);
    assert forall|i: int| 0 <= i < text.len() implies out[i] == text[i] by {
        let t = text[i];
        let before = if i < 16 {
            iv[i]
        } else {
            cipher[i - 16]
        };
        assert((t ^ before) ^ before == t) by (bit_vector);
    }
    assert(out =~= text);
    padding_comes_off(plain);
}

/// The padding of a text comes off again, and nothing else does.
pub proof fn padding_comes_off(plain: Seq<u8>)
    ensures
        padded(plain).len() % 16 == 0,
        ends_in_padding(padded(plain)),
        before_padding(padded(plain)) == plain,
        unpadded(padded(plain)) == plain,
{
    let text = padded(plain);
    assert(text.last() == 16 - plain.len() % 16);
    assert(before_padding(text) =~= plain);
}

/// `cipher` is what encrypting block by block makes of whole blocks `text`:
/// AES decrypts each block of `cipher` to the block of `text` in its place.
pub open spec fn ecb_encrypts(key: Seq<u8>, text: Seq<u8>, cipher: Seq<u8>) -> bool {
    &&& text.len() == cipher.len()
    &&& text.len() % 16 == 0
    &&& forall|i: int|
        0 <= i < text.len() ==> aes256_block(
            key,
            cipher.subrange(i / 16 * 16, i / 16 * 16 + 16),
        )[i % 16] == #[trigger] text[i]
}

/// What was padded and encrypted block by block comes back.
pub proof fn ecb_round_trip(key: Seq<u8>, plain: Seq<u8>, cipher: Seq<u8>)
    requires
        key.len() == 32,
        ecb_encrypts(key, padded(plain), cipher),
    ensures
        ecb_decrypted(key, cipher) == Ok::<Seq<u8>, ErrorView>(plain),
        cipher.len() >= 16,
{
    padding_comes_off(plain);
    assert(ecb_plain(key, cipher) =~= padded(plain));
}

/// What was encrypted behind an encrypted initialisation vector comes back.
pub proof fn symmetric_round_trip(
    key: Seq<u8>,
    vector: Seq<u8>,
    plain: Seq<u8>,
    cipher: Seq<u8>,
)
    requires
        key.len() == 32,
        vector.len() == 16,
        aes256_block(key, vector).len() == 16,
        cbc_encrypts(key, aes256_block(key, vector), padded(plain), cipher),
    ensures
        symmetric_decrypted(key, vector + cipher) == Ok::<Seq<u8>, ErrorView>(plain),
{
    let input = vector + cipher;
    assert(input.take(16) =~= vector);
    assert(input.skip(16) =~= cipher);
    padding_comes_off(plain);
    cbc_round_trip(key, aes256_block(key, vector), plain, cipher);
}

proof fn lemma_zeros_come_off(bytes: Seq<u8>, count: nat)
    requires
        bytes.len() > 0 ==> bytes.last() != 0,
    ensures
        without_trailing_zeros(bytes + Seq::new(count, |i: int| 0u8)) == bytes,
    decreases count,
{
    let longer = bytes + Seq::new(count, |i: int| 0u8);
    if count == 0 {
        assert(longer =~= bytes);
    } else {
        assert(longer.drop_last() =~= bytes + Seq::new((count - 1) as nat, |i: int| 0u8));
        lemma_zeros_come_off(bytes, (count - 1) as nat);
    }
}

/// A file name that was encrypted behind an encrypted initialisation vector
/// comes back, without the zeros that were put behind it.
pub proof fn filename_round_trip(
    key: Seq<u8>,
    vector: Seq<u8>,
    name: Seq<char>,
    zeros: nat,
    cipher: Seq<u8>,
)
    requires
        key.len() == 32,
        vector.len() == 16,
        aes256_block(key, vector).len() == 16,
        encode_utf8(name).len() > 0 ==> encode_utf8(name).last() != 0,
        cbc_encrypts(
            key,
            aes256_block(key, vector),
            padded(encode_utf8(name) + Seq::new(zeros, |i: int| 0u8)),
            cipher,
        ),
    ensures
        filename_from(key, vector + cipher) == Ok::<Seq<char>, ErrorView>(name),
{
    let bytes = encode_utf8(name);
    symmetric_round_trip(key, vector, bytes + Seq::new(zeros, |i: int| 0u8), cipher);
    padding_comes_off(bytes + Seq::new(zeros, |i: int| 0u8));
    lemma_zeros_come_off(bytes, zeros);
    encode_utf8_valid_utf8(name);
    encode_utf8_decode_utf8(name);
}

proof fn lemma_blanks_part(a: Seq<char>, b: Seq<char>)
    ensures
        without_blanks(a + b) == without_blanks(a) + without_blanks(b),
    decreases b.len(),
{
    reveal(Seq::filter);
    if b.len() == 0 {
        assert(a + b =~= a);
        assert(without_blanks(a) + without_blanks(b) =~= without_blanks(a));
    } else {
        lemma_blanks_part(a, b.drop_last());
        assert((a + b).drop_last() =~= a + b.drop_last());
        assert((a + b).last() == b.last());
        assert(without_blanks(a + b) =~= without_blanks(a) + without_blanks(b));
    }
}

/// Only zeros come off the end, and all that are there.
pub proof fn lemma_only_zeros_come_off(bytes: Seq<u8>)
    ensures
        without_trailing_zeros(bytes).is_prefix_of(bytes),
        without_trailing_zeros(bytes).len() > 0 ==> without_trailing_zeros(bytes).last() != 0,
        forall|i: int|
            without_trailing_zeros(bytes).len() <= i < bytes.len() ==> #[trigger] bytes[i] == 0,
    decreases bytes.len(),
{
    if bytes.len() > 0 && bytes.last() == 0 {
        let fewer = bytes.drop_last();
        lemma_only_zeros_come_off(fewer);
        let short = without_trailing_zeros(bytes);
        assert(short =~= bytes.take(short.len() as int)) by {
            assert(short =~= fewer.take(short.len() as int));
        }
        assert forall|i: int| short.len() <= i < bytes.len() implies #[trigger] bytes[i] == 0 by {
            if i < fewer.len() {
                assert(fewer[i] == 0);
            }
        }
    } else {
        assert(bytes =~= bytes.take(bytes.len() as int));
    }
}

/// A text without blanks stays as it is.
pub proof fn lemma_no_blanks(text: Seq<char>)
    requires
        forall|i: int| 0 <= i < text.len() ==> !is_ascii_blank(#[trigger] text[i]),
    ensures
        without_blanks(text) == text,
    decreases text.len(),
{
    reveal(Seq::filter);
    if text.len() > 0 {
        let fewer = text.drop_last();
        assert forall|i: int| 0 <= i < fewer.len() implies !is_ascii_blank(
            #[trigger] fewer[i],
        ) by {
            assert(fewer[i] == text[i]);
        }
        lemma_no_blanks(fewer);
        assert(!is_ascii_blank(text[text.len() - 1]));
        assert(without_blanks(text) =~= text);
    } else {
        assert(without_blanks(text) =~= text);
    }
}

/// A space, tab or line break anywhere in an encrypted file name changes
/// nothing.
pub proof fn blanks_in_a_file_name_change_nothing(
    key: Seq<u8>,
    front: Seq<char>,
    blank: char,
    back: Seq<char>,
)
    requires
        blank == ' ' || blank == '\t' || blank == '\n' || blank == '\r',
    ensures
        filename_decrypted(key, front + seq![blank] + back) == filename_decrypted(
            key,
            front + back,
        ),
{
    reveal_with_fuel(Seq::filter, 2);
    assert(without_blanks(seq![blank]) =~= Seq::<char>::empty()) by {
        assert(seq![blank].drop_last() =~= Seq::<char>::empty());
        assert(seq![blank].last() == blank);
    }
    lemma_blanks_part(front + seq![blank], back);
    lemma_blanks_part(front, seq![blank]);
    lemma_blanks_part(front, back);
    assert(without_blanks(front) + Seq::<char>::empty() =~= without_blanks(front));
}

/// A file name that was encrypted behind an encrypted initialisation vector
/// and written in base64 comes back.
pub proof fn written_filename_comes_back(
    key: Seq<u8>,
    vector: Seq<u8>,
    name: Seq<char>,
    zeros: nat,
    cipher: Seq<u8>,
    text: Seq<char>,
)
    requires
        key.len() == 32,
        vector.len() == 16,
        aes256_block(key, vector).len() == 16,
        encode_utf8(name).len() > 0 ==> encode_utf8(name).last() != 0,
        cbc_encrypts(
            key,
            aes256_block(key, vector),
            padded(encode_utf8(name) + Seq::new(zeros, |i: int| 0u8)),
            cipher,
        ),
        forall|i: int| 0 <= i < text.len() ==> !is_ascii_blank(#[trigger] text[i]),
        base64_decoded(text) == Ok::<Seq<u8>, Seq<char>>(vector + cipher),
    ensures
        filename_decrypted(key, text) == Ok::<Seq<char>, ErrorView>(name),
{
    lemma_no_blanks(text);
    filename_round_trip(key, vector, name, zeros, cipher);
}

proof fn lemma_place_in_block(at: int, j: int)
    requires
        0 <= at,
        at % 16 == 0,
        0 <= j < 16,
    ensures
        (at + j) / 16 * 16 == at,
        (at + j) % 16 == j,
{
    lemma_fundamental_div_mod_converse(at + j, 16, at / 16, j);
}

/// Decrypts block by block with AES-256 and takes the PKCS7 padding off, where
/// there is any.
#[verifier::rlimit(30)]
#[verifier::spinoff_prover]
pub fn aes_ecb_decrypt(key: &[u8], input: &[u8]) -> (r: Result<Vec<u8>, Error>)
    ensures
        viewed(r) == ecb_decrypted(key@, input@),
{
    if key.len() != 32 {
        return Err(
            Error::Other(numbered("depot key must be 32 bytes, got ", key.len() as u64)),
        );
    }
    if input.len() % 16 != 0 {
        return Err(
            Error::Other(
                counted(
                    "encrypted data length ",
                    input.len() as u64,
                    " not a multiple of 16",
                ),
            ),
        );
    }
    let mut output: Vec<u8> = Vec::new();
    let ghost whole = ecb_plain(key@, input@);
    let mut at: usize = 0;
    while at < input.len()
        invariant
            key@.len() == 32,
            input@.len() % 16 == 0,
            at % 16 == 0,
            at <= input@.len(),
            whole == ecb_plain(key@, input@),
            output@ == whole.take(at as int),
        decreases input@.len() - at,
    {
        let length: usize = input.len();
        assert(at + 16 <= length);
        let block: &[u8] = vstd::slice::slice_subrange(input, at, at + 16);
        match decrypt_block(key, block) {
            Ok(plain) => {
                push_bytes(&mut output, plain.as_slice());
                assert forall|j: int| 0 <= j < 16 implies whole[at + j] == plain@[j] by {
                    lemma_place_in_block(at as int, j);
                    assert(input@.subrange(at as int, at + 16) == block@);
                }
                assert(output@ =~= whole.take(at + 16));
            },
            Err(text) => {
                return Err(Error::Other(label("AES key init", text.as_str())));
            },
        }
        at = at + 16;
    }
    assert(output@ =~= whole);
    if output.len() > 0 {
        let count: usize = output[output.len() - 1] as usize;
        if count > 0 && count <= 16 && output.len() >= count {
            let start: usize = output.len() - count;
            if all_equal(output.as_slice(), start, count as u8) {
                output.truncate(start);
                assert(output@ =~= before_padding(whole));
            }
        }
    }
    Ok(output)
}

/// Whether each byte of `data` from `start` on is `byte`.
fn all_equal(data: &[u8], start: usize, byte: u8) -> (r: bool)
    requires
        start <= data@.len(),
    ensures
        r == (forall|i: int| start <= i < data@.len() ==> #[trigger] data@[i] == byte),
{
    for i in start..data.len()
        invariant
            forall|j: int| start <= j < i ==> #[trigger] data@[j] == byte,
    {
        if data[i] != byte {
            return false;
        }
    }
    true
}

/// Decrypts in CBC mode with AES-256 and takes the PKCS7 padding off.
pub fn aes_cbc_decrypt(key: &[u8], iv: &[u8], input: &[u8]) -> (r: Result<Vec<u8>, Error>)
    ensures
        viewed(r) == cbc_decrypted(key@, iv@, input@),
{
    if key.len() != 32 {
        return Err(
            Error::Other(numbered("AES-CBC key must be 32 bytes, got ", key.len() as u64)),
        );
    }
    if iv.len() != 16 {
        return Err(Error::Other(numbered("AES-CBC IV must be 16 bytes, got ", iv.len() as u64)));
    }
    match decrypt_cbc(key, iv, input) {
        Ok(plain) => Ok(plain),
        Err(text) => Err(Error::Other(label("AES-CBC decrypt", text.as_str()))),
    }
}

/// Decrypts data whose first 16 bytes are the encrypted initialisation vector
/// of the rest.
fn decrypt_vector_first(key: &[u8], input: &[u8]) -> (r: Result<Vec<u8>, Error>)
    requires
        input@.len() >= 32,
    ensures
        viewed(r) == vector_first_decrypted(key@, input@),
{
    let head: &[u8] = vstd::slice::slice_subrange(input, 0, 16);
    let rest: &[u8] = vstd::slice::slice_subrange(input, 16, input.len());
    assert(head@ =~= input@.take(16));
    assert(rest@ =~= input@.skip(16));
    match aes_ecb_decrypt_block(key, head) {
        Ok(iv) => aes_cbc_decrypt(key, iv.as_slice(), rest),
        Err(error) => Err(error),
    }
}

/// Decrypts one block of 16 bytes, with no padding to take off.
pub fn aes_ecb_decrypt_block(key: &[u8], block: &[u8]) -> (r: Result<Vec<u8>, Error>)
    requires
        block@.len() == 16,
    ensures
        viewed(r) == if key@.len() == 32 {
            Ok::<Seq<u8>, ErrorView>(aes256_block(key@, block@))
        } else {
            refused(labelled("AES key init"@, "Invalid Length"@))
        },
        r matches Ok(plain) ==> plain@.len() == 16,
{
    match decrypt_block(key, block) {
        Ok(plain) => Ok(plain),
        Err(text) => Err(Error::Other(label("AES key init", text.as_str()))),
    }
}

/// Decrypts a file name as a manifest holds it: base64, in which white space
/// may stand, of an encrypted initialisation vector and a name that zeros may
/// follow.
pub fn decrypt_filename(key: &[u8], encrypted_b64: &str) -> (r: Result<String, Error>)
    ensures
        viewed(r) == filename_decrypted(key@, encrypted_b64@),
{
    let cleaned: String = strip_blanks(encrypted_b64);
    match base64_decode(cleaned.as_str()) {
        Ok(encrypted) => decrypt_filename_bytes(key, encrypted.as_slice()),
        Err(text) => Err(Error::Other(label("filename base64 decode", text.as_str()))),
    }
}

/// Decrypts the bytes of a file name.
pub fn decrypt_filename_bytes(key: &[u8], encrypted: &[u8]) -> (r: Result<String, Error>)
    ensures
        viewed(r) == filename_from(key@, encrypted@),
{
    if encrypted.len() < 32 {
        return Err(
            Error::Other(
                counted(
                    "encrypted filename too short (",
                    encrypted.len() as u64,
                    " bytes, need at least 32)",
                ),
            ),
        );
    }
    match decrypt_vector_first(key, encrypted) {
        Ok(plain) => {
            let name: Vec<u8> = strip_trailing_zeros(plain);
            match text_from_utf8(name) {
                Ok(text) => Ok(text),
                Err(fault) => Err(Error::Other(label("filename UTF-8", fault.as_str()))),
            }
        },
        Err(error) => Err(error),
    }
}

/// Copies `text` without ASCII white space.
fn strip_blanks(text: &str) -> (s: String)
    ensures
        s@ == without_blanks(text@),
{
    let mut s: String = String::new();
    let ghost keep = |c: char| !is_ascii_blank(c);
    for c in it: text.chars()
        invariant
            it.seq() == text@,
            keep == (|c: char| !is_ascii_blank(c)),
            s@ == it.seq().take(it.index() as int).filter(keep),
    {
        proof {
            let i = it.index() as int;
            assert(it.seq().take(i + 1).drop_last() =~= it.seq().take(i));
            reveal(Seq::filter);
        }
        if !(c == ' ' || c == '\t' || c == '\n' || c == '\x0C' || c == '\r') {
            s.push(c);
        }
    }
    assert(text@.take(text@.len() as int) =~= text@);
    s
}

/// Takes the zeros at the end off.
fn strip_trailing_zeros(bytes: Vec<u8>) -> (v: Vec<u8>)
    ensures
        v@ == without_trailing_zeros(bytes@),
{
    let mut end: usize = bytes.len();
    assert(bytes@.take(end as int) =~= bytes@);
    while end > 0 && bytes[end - 1] == 0
        invariant
            end <= bytes@.len(),
            without_trailing_zeros(bytes@) == without_trailing_zeros(bytes@.take(end as int)),
        decreases end,
    {
        assert(bytes@.take(end as int).drop_last() =~= bytes@.take(end - 1));
        end = end - 1;
    }
    let v: Vec<u8> = copy_range(bytes.as_slice(), 0, end);
    assert(v@ =~= bytes@.take(end as int));
    v
}

/// Decrypts data whose first 16 bytes are the encrypted initialisation vector
/// and whose rest is encrypted in CBC mode: chunks of a depot.
pub fn symmetric_decrypt(key: &[u8], input: &[u8]) -> (r: Result<Vec<u8>, Error>)
    ensures
        viewed(r) == symmetric_decrypted(key@, input@),
{
    if input.len() < 32 {
        return Err(
            Error::Other(
                counted(
                    "encrypted data too short (",
                    input.len() as u64,
                    " bytes, need at least 32)",
                ),
            ),
        );
    }
    decrypt_vector_first(key, input)
}

} // verus!
