//! Chunks: decryption, decompression and the checksum.

use vstd::arithmetic::div_mod::{lemma_add_mod_noop, lemma_fundamental_div_mod_converse};
use vstd::prelude::*;

use crate::crypto::{
    cbc_encrypts, padded, symmetric_decrypt, symmetric_decrypted, symmetric_round_trip,
};
use crate::error::{label, labelled, refused, viewed, Error, ErrorView};
use crate::outside::{
    aes256_block, lzma_expand, lzma_expanded, sha1_digest, sha1_of, zip_entries, zip_entry_count, zip_first,
    zip_first_entry, zstd_expand, zstd_expanded,
};
use crate::text::{
    hex_digits, hex_encode, hex_text, push_hex, same_but_for_case, same_ignoring_case,
};
use crate::wire::{
    begins_with, byte_power, copy_range, le_bytes, le_value, lemma_le_round_trip, push_bytes,
    push_le, u32_at,
};
use crate::zstd::{check_frame, frame_is_countable};

verus! {

/// The largest prime below two to the power 16.
pub const MOD_ADLER: u32 = 65521;

/// The sum of the bytes.
pub open spec fn byte_sum(data: Seq<u8>) -> nat
    decreases data.len(),
{
    if data.len() == 0 {
        0
    } else {
        byte_sum(data.drop_last()) + data.last() as nat
    }
}

/// The sum of the byte sums of all that the data begins with.
pub open spec fn running_sum(data: Seq<u8>) -> nat
    decreases data.len(),
{
    if data.len() == 0 {
        0
    } else {
        running_sum(data.drop_last()) + byte_sum(data)
    }
}

/// Adler-32 from a seed of zero: the running sum in the high half, the byte
/// sum in the low half, both modulo [`MOD_ADLER`].
pub open spec fn adler32(data: Seq<u8>) -> nat {
    (running_sum(data) % 65521) * 65536 + byte_sum(data) % 65521
}

proof fn lemma_same_remainder(a: int, b: int, c: int, d: int)
    requires
        a % 65521 == b % 65521,
        c % 65521 == d % 65521,
    ensures
        (a + c) % 65521 == (b + d) % 65521,
{
    lemma_add_mod_noop(a, c, 65521);
    lemma_add_mod_noop(b, d, 65521);
}

/// The checksum of a chunk.
#[verifier::rlimit(60)]
#[verifier::spinoff_prover]
pub fn adler32_steam(data: &[u8]) -> (sum: u32)
    ensures
        sum == adler32(data@),
{
    let mut s1: u32 = 0;
    let mut s2: u32 = 0;
    let mut at: usize = 0;
    while at < data.len()
        invariant
            at <= data@.len(),
            s1 < 65521,
            s2 < 65521,
            s1 == byte_sum(data@.take(at as int)) % 65521,
            s2 == running_sum(data@.take(at as int)) % 65521,
        decreases data@.len() - at,
    {
        let end: usize = if data.len() - at < 5552 {
            data.len()
        } else {
            at + 5552
        };
        let start: usize = at;
        while at < end
            invariant
                start <= at <= end <= data@.len(),
                end - start <= 5552,
                s1 <= 65520 + 255 * (at - start),
                2 * s2 <= 131040 * (at - start + 1) + 255 * ((at - start) * (at - start + 1)),
                s1 % 65521 == byte_sum(data@.take(at as int)) % 65521,
                s2 % 65521 == running_sum(data@.take(at as int)) % 65521,
            decreases end - at,
        {
            let ghost k = at - start;
            proof {
                let next = data@.take(at + 1);
                assert(next.drop_last() =~= data@.take(at as int));
                assert(next.last() == data@[at as int]);
                assert(255 * (k * (k + 1)) + 510 * (k + 1) == 255 * ((k + 1) * (k + 2)))
                    by (nonlinear_arith);
                assert((k + 1) * (k + 2) <= 5552 * 5553) by (nonlinear_arith)
                    requires
                        0 <= k < 5552,
                ;
                let before = data@.take(at as int);
                let byte = data@[at as int] as int;
                lemma_same_remainder(s1 as int, byte_sum(before) as int, byte, byte);
                lemma_same_remainder(
                    s2 as int,
                    running_sum(before) as int,
                    s1 + byte,
                    byte_sum(before) + byte,
                );
            }
            s1 = s1 + data[at] as u32;
            s2 = s2 + s1;
            at = at + 1;
        }
        s1 = s1 % MOD_ADLER;
        s2 = s2 % MOD_ADLER;
    }
    assert(data@.take(at as int) =~= data@);
    assert((s2 << 16) | s1 == s2 * 65536 + s1) by (bit_vector)
        requires
            s1 < 65521,
            s2 < 65521,
    ;
    (s2 << 16) | s1
}

/// What checking data against a checksum says; a checksum of zero is not
/// checked.
pub open spec fn checksum_verdict(data: Seq<u8>, expected: u32) -> Result<(), ErrorView> {
    if expected == 0 || adler32(data) == expected {
        Ok(())
    } else {
        refused(
            "Adler-32 mismatch: expected "@ + hex_digits(expected as nat, 8) + ", got "@
                + hex_digits(adler32(data), 8),
        )
    }
}

/// Checks data against a checksum.
pub fn verify_adler32(data: &[u8], expected: u32) -> (r: Result<(), Error>)
    ensures
        match r {
            Ok(_) => checksum_verdict(data@, expected) is Ok,
            Err(e) => checksum_verdict(data@, expected) == Err::<(), ErrorView>(e@),
        },
{
    if expected == 0 {
        return Ok(());
    }
    let actual: u32 = adler32_steam(data);
    if actual != expected {
        let mut text: String = "Adler-32 mismatch: expected ".to_string();
        push_hex(&mut text, expected as u64, 8);
        text.append(", got ");
        push_hex(&mut text, actual as u64, 8);
        return Err(Error::Other(text));
    }
    Ok(())
}

/// What a chunk in a Zstandard envelope begins with.
pub open spec fn vzstd_magic() -> Seq<u8> {
    seq![0x56, 0x53, 0x5A, 0x61]
}

/// What a chunk in an LZMA envelope begins with.
pub open spec fn vzip_magic() -> Seq<u8> {
    seq![0x56, 0x5A, 0x61]
}

/// What a ZIP archive begins with.
pub open spec fn zip_magic() -> Seq<u8> {
    seq![0x50, 0x4B, 0x03, 0x04]
}

/// What a Zstandard envelope holds: the frame stands behind a header of 8
/// bytes and before a footer of 15. A frame with a block that expands
/// beyond what 32 bits count is refused.
pub open spec fn vzstd_unpacked(data: Seq<u8>) -> Result<Seq<u8>, ErrorView> {
    if data.len() < 23 {
        refused("VZstd data too short"@)
    } else if !frame_is_countable(data.subrange(8, data.len() - 15)) {
        refused("VZstd block too large"@)
    } else {
        match zstd_expanded(data.subrange(8, data.len() - 15)) {
            Err(text) => refused(labelled("VZstd init"@, text)),
            Ok(Err(text)) => Err(ErrorView::Io(text)),
            Ok(Ok(content)) => Ok(content),
        }
    }
}

/// The stream that an LZMA envelope stands for: the five property bytes, the
/// unpacked size of the footer in eight bytes, and the packed data.
pub open spec fn vzip_stream(data: Seq<u8>) -> Seq<u8> {
    data.subrange(7, 12) + le_bytes(
        le_value(data.subrange(data.len() - 6, data.len() - 2)),
        8,
    ) + data.subrange(12, data.len() - 10)
}

/// What an LZMA envelope holds: the properties and the packed data stand
/// behind a header of 7 bytes and before a footer of 10, which names the
/// unpacked size.
pub open spec fn vzip_unpacked(data: Seq<u8>) -> Result<Seq<u8>, ErrorView> {
    if data.len() < 22 {
        refused("VZip data too short"@)
    } else {
        match lzma_expanded(vzip_stream(data)) {
            Err(text) => refused(labelled("VZip LZMA decompress"@, text)),
            Ok(content) => Ok(content),
        }
    }
}

/// What a chunk in a ZIP archive holds.
pub open spec fn zipped_chunk(data: Seq<u8>) -> Result<Seq<u8>, ErrorView> {
    match zip_entries(data) {
        Err(text) => refused(labelled("chunk zip"@, text)),
        Ok(_) => match zip_first(data) {
            Err(text) => refused(labelled("chunk zip entry"@, text)),
            Ok(Err(text)) => Err(ErrorView::Io(text)),
            Ok(Ok(content)) => Ok(content),
        },
    }
}

/// What a chunk holds, by what it begins with; any other beginning says that
/// it is not packed.
pub open spec fn chunk_unpacked(data: Seq<u8>) -> Result<Seq<u8>, ErrorView> {
    if vzstd_magic().is_prefix_of(data) {
        vzstd_unpacked(data)
    } else if vzip_magic().is_prefix_of(data) {
        vzip_unpacked(data)
    } else if zip_magic().is_prefix_of(data) {
        zipped_chunk(data)
    } else {
        Ok(data)
    }
}

/// Unpacks a decrypted chunk.
pub fn decompress_chunk(data: &[u8]) -> (r: Result<Vec<u8>, Error>)
    ensures
        viewed(r) == chunk_unpacked(data@),
{
    let vzstd: [u8; 4] = [0x56, 0x53, 0x5A, 0x61];
    let vzip: [u8; 3] = [0x56, 0x5A, 0x61];
    let zip: [u8; 4] = [0x50, 0x4B, 0x03, 0x04];
    assert(vzstd@ =~= vzstd_magic());
    assert(vzip@ =~= vzip_magic());
    assert(zip@ =~= zip_magic());
    if begins_with(data, vzstd.as_slice()) {
        decompress_vzstd(data)
    } else if begins_with(data, vzip.as_slice()) {
        decompress_vzip_lzma(data)
    } else if begins_with(data, zip.as_slice()) {
        match zip_entry_count(data) {
            Err(text) => Err(Error::Other(label("chunk zip", text.as_str()))),
            Ok(_) => match zip_first_entry(data) {
                Err(text) => Err(Error::Other(label("chunk zip entry", text.as_str()))),
                Ok(Err(text)) => Err(Error::Io(text)),
                Ok(Ok(content)) => Ok(content),
            },
        }
    } else {
        let copy: Vec<u8> = copy_range(data, 0, data.len());
        assert(copy@ =~= data@);
        Ok(copy)
    }
}

/// Unpacks a Zstandard envelope.
pub fn decompress_vzstd(data: &[u8]) -> (r: Result<Vec<u8>, Error>)
    ensures
        viewed(r) == vzstd_unpacked(data@),
{
    if data.len() < 23 {
        return Err(Error::other("VZstd data too short"));
    }
    let frame: &[u8] = vstd::slice::slice_subrange(data, 8, data.len() - 15);
    if !check_frame(frame) {
        return Err(Error::other("VZstd block too large"));
    }
    match zstd_expand(frame) {
        Err(text) => Err(Error::Other(label("VZstd init", text.as_str()))),
        Ok(Err(text)) => Err(Error::Io(text)),
        Ok(Ok(content)) => Ok(content),
    }
}

/// Unpacks an LZMA envelope.
pub fn decompress_vzip_lzma(data: &[u8]) -> (r: Result<Vec<u8>, Error>)
    ensures
        viewed(r) == vzip_unpacked(data@),
{
    if data.len() < 22 {
        return Err(Error::other("VZip data too short"));
    }
    let size: u32 = u32_at(data, data.len() - 6);
    let mut stream: Vec<u8> = copy_range(data, 7, 12);
    push_le(&mut stream, size as u64, 8);
    push_bytes(&mut stream, vstd::slice::slice_subrange(data, 12, data.len() - 10));
    assert(stream@ =~= vzip_stream(data@));
    match lzma_expand(stream.as_slice()) {
        Err(text) => Err(Error::Other(label("VZip LZMA decompress", text.as_str()))),
        Ok(content) => Ok(content),
    }
}

/// What a chunk as a CDN server sends it holds: it is decrypted, unpacked and
/// checked, and the first of these that fails says why.
pub open spec fn chunk_content(depot_key: Seq<u8>, encrypted: Seq<u8>, crc: u32) -> Result<
    Seq<u8>,
    ErrorView,
> {
    match symmetric_decrypted(depot_key, encrypted) {
        Err(e) => Err(e),
        Ok(packed) => match chunk_unpacked(packed) {
            Err(e) => Err(e),
            Ok(content) => match checksum_verdict(content, crc) {
                Err(e) => Err(e),
                Ok(_) => Ok(content),
            },
        },
    }
}

/// What comes out of a chunk has the checksum that the manifest gives, unless
/// the manifest gives none.
pub proof fn accepted_chunk_has_its_checksum(depot_key: Seq<u8>, encrypted: Seq<u8>, crc: u32)
    requires
        chunk_content(depot_key, encrypted, crc) is Ok,
    ensures
        crc != 0 ==> adler32(chunk_content(depot_key, encrypted, crc)->Ok_0) == crc,
{
}

/// A chunk comes back: what was packed, encrypted behind an encrypted
/// initialisation vector and given its checksum, or none, is what comes out.
pub proof fn stored_chunk_comes_back(
    depot_key: Seq<u8>,
    vector: Seq<u8>,
    packed: Seq<u8>,
    cipher: Seq<u8>,
    content: Seq<u8>,
    crc: u32,
)
    requires
        depot_key.len() == 32,
        vector.len() == 16,
        aes256_block(depot_key, vector).len() == 16,
        cbc_encrypts(depot_key, aes256_block(depot_key, vector), padded(packed), cipher),
        chunk_unpacked(packed) == Ok::<Seq<u8>, ErrorView>(content),
        crc == 0 || crc == adler32(content),
    ensures
        chunk_content(depot_key, vector + cipher, crc) == Ok::<Seq<u8>, ErrorView>(content),
{
    symmetric_round_trip(depot_key, vector, packed, cipher);
}

/// An LZMA envelope: its magic, four bytes that nobody reads, the properties,
/// the packed data, four more such bytes, the unpacked size and two bytes at
/// the end.
pub open spec fn vzip_envelope(
    head: Seq<u8>,
    properties: Seq<u8>,
    packed: Seq<u8>,
    sum: Seq<u8>,
    size: nat,
    end: Seq<u8>,
) -> Seq<u8> {
    vzip_magic() + head + properties + packed + sum + le_bytes(size, 4) + end
}

/// An LZMA envelope stands for the stream that it was made from.
pub proof fn vzip_envelope_holds_its_stream(
    head: Seq<u8>,
    properties: Seq<u8>,
    packed: Seq<u8>,
    sum: Seq<u8>,
    size: nat,
    end: Seq<u8>,
)
    requires
        head.len() == 4,
        properties.len() == 5,
        sum.len() == 4,
        size < 0x1_0000_0000,
        end.len() == 2,
    ensures
        chunk_unpacked(vzip_envelope(head, properties, packed, sum, size, end))
            == match lzma_expanded(properties + le_bytes(size, 8) + packed) {
            Ok(content) => Ok::<Seq<u8>, ErrorView>(content),
            Err(text) => refused(labelled("VZip LZMA decompress"@, text)),
        },
{
    let data = vzip_envelope(head, properties, packed, sum, size, end);
    reveal_with_fuel(byte_power, 5);
    lemma_le_round_trip(size, 4);
    assert(data.subrange(7, 12) =~= properties);
    assert(data.subrange(12, data.len() - 10) =~= packed);
    assert(data.subrange(data.len() - 6, data.len() - 2) =~= le_bytes(size, 4));
    assert(vzip_stream(data) =~= properties + le_bytes(size, 8) + packed);
    assert(data[1] == 0x5A);
    assert(!vzstd_magic().is_prefix_of(data)) by {
        assert(vzstd_magic()[1] == 0x53);
        if vzstd_magic().is_prefix_of(data) {
            assert(data.take(4)[1] == data[1]);
        }
    }
    assert(vzip_magic() =~= data.take(3));
}

/// A Zstandard envelope stands for its frame: four bytes of magic, four that
/// nobody reads, the frame, and a footer of 15 bytes that nobody reads either.
/// All that the frame expands to is the content, whatever the footer says.
pub proof fn vzstd_envelope_holds_its_frame(head: Seq<u8>, frame: Seq<u8>, footer: Seq<u8>)
    requires
        head.len() == 4,
        footer.len() == 15,
        frame_is_countable(frame),
    ensures
        zstd_expanded(frame) matches Ok(Ok(content)) ==> chunk_unpacked(
            seq![0x56u8, 0x53, 0x5A, 0x61] + head + frame + footer,
        ) == Ok::<Seq<u8>, ErrorView>(content),
        zstd_expanded(frame) matches Ok(Err(text)) ==> chunk_unpacked(
            seq![0x56u8, 0x53, 0x5A, 0x61] + head + frame + footer,
        ) == Err::<Seq<u8>, ErrorView>(ErrorView::Io(text)),
        zstd_expanded(frame) matches Err(text) ==> chunk_unpacked(
            seq![0x56u8, 0x53, 0x5A, 0x61] + head + frame + footer,
        ) == Err::<Seq<u8>, ErrorView>(ErrorView::Other("VZstd init"@ + ": "@ + text)),
{
    let data = seq![0x56u8, 0x53, 0x5A, 0x61] + head + frame + footer;
    assert(vzstd_magic() =~= data.take(4));
    assert(data.subrange(8, data.len() - 15) =~= frame);
}

/// A chunk that is a ZIP archive holds what its first entry does.
pub proof fn zipped_chunk_holds_its_first_entry(data: Seq<u8>, content: Seq<u8>)
    requires
        data.len() >= 4,
        data[0] == 0x50 && data[1] == 0x4B && data[2] == 0x03 && data[3] == 0x04,
        zip_entries(data) is Ok,
        zip_first(data) == Ok::<Result<Seq<u8>, Seq<char>>, Seq<char>>(Ok(content)),
    ensures
        chunk_unpacked(data) == Ok::<Seq<u8>, ErrorView>(content),
{
    assert(zip_magic() =~= data.take(4));
    assert(vzstd_magic()[0] == 0x56 && vzip_magic()[0] == 0x56);
    assert(!vzstd_magic().is_prefix_of(data)) by {
        assert(data.take(4)[0] == 0x50);
    }
    assert(!vzip_magic().is_prefix_of(data)) by {
        assert(data.take(3)[0] == 0x50);
    }
}

/// A chunk that begins like none of the envelopes is its own content: one that
/// is not even four bytes long and does not begin like the LZMA envelope, and
/// one whose first bytes are others.
pub proof fn bare_chunk_is_its_content(data: Seq<u8>)
    requires
        data.len() < 4 || !(data[0] == 0x56 && data[1] == 0x53 && data[2] == 0x5A && data[3]
            == 0x61),
        data.len() < 3 || !(data[0] == 0x56 && data[1] == 0x5A && data[2] == 0x61),
        data.len() < 4 || !(data[0] == 0x50 && data[1] == 0x4B && data[2] == 0x03 && data[3]
            == 0x04),
    ensures
        chunk_unpacked(data) == Ok::<Seq<u8>, ErrorView>(data),
{
    if vzstd_magic().is_prefix_of(data) {
        let front = data.take(4);
        assert(front == vzstd_magic());
        assert(data[0] == front[0] && data[1] == front[1] && data[2] == front[2] && data[3]
            == front[3]);
    }
    if vzip_magic().is_prefix_of(data) {
        let front = data.take(3);
        assert(front == vzip_magic());
        assert(data[0] == front[0] && data[1] == front[1] && data[2] == front[2]);
    }
    if zip_magic().is_prefix_of(data) {
        let front = data.take(4);
        assert(front == zip_magic());
        assert(data[0] == front[0] && data[1] == front[1] && data[2] == front[2] && data[3]
            == front[3]);
    }
}

/// The checksum of nothing is zero, and one more byte changes its two halves:
/// the byte goes into the low half, and the new low half into the high one,
/// both modulo 65521.
pub proof fn checksum_of_one_more_byte(data: Seq<u8>, byte: u8)
    ensures
        adler32(Seq::empty()) == 0,
        adler32(data.push(byte)) % 65536 == (adler32(data) % 65536 + byte) % 65521,
        adler32(data.push(byte)) / 65536 == (adler32(data) / 65536 + adler32(data.push(byte))
            % 65536) % 65521,
{
    let longer = data.push(byte);
    assert(longer.drop_last() =~= data);
    let low = byte_sum(data);
    let high = running_sum(data);
    lemma_checksum_halves(data);
    lemma_checksum_halves(longer);
    assert(byte_sum(longer) == low + byte);
    assert(running_sum(longer) == high + (low + byte));
    lemma_add_mod_noop(low as int, byte as int, 65521);
    lemma_add_mod_noop(high as int, low + byte, 65521);
}

proof fn lemma_checksum_halves(data: Seq<u8>)
    ensures
        adler32(data) % 65536 == byte_sum(data) % 65521,
        adler32(data) / 65536 == running_sum(data) % 65521,
{
    let low = (byte_sum(data) % 65521) as int;
    let high = (running_sum(data) % 65521) as int;
    lemma_fundamental_div_mod_converse(adler32(data) as int, 65536, high, low);
}

/// A chunk of another checksum than the manifest gives is refused, and so is
/// one that cannot be decrypted or unpacked: nothing comes out that was not
/// decrypted, unpacked and checked.
pub proof fn wrong_chunk_is_refused(depot_key: Seq<u8>, encrypted: Seq<u8>, crc: u32)
    ensures
        symmetric_decrypted(depot_key, encrypted) is Err ==> chunk_content(
            depot_key,
            encrypted,
            crc,
        ) is Err,
        symmetric_decrypted(depot_key, encrypted) matches Ok(packed) ==> {
            &&& chunk_unpacked(packed) is Err ==> chunk_content(depot_key, encrypted, crc) is Err
            &&& chunk_unpacked(packed) matches Ok(content) ==> {
                &&& crc != 0 && adler32(content) != crc ==> chunk_content(
                    depot_key,
                    encrypted,
                    crc,
                ) is Err
                &&& crc == 0 || adler32(content) == crc ==> chunk_content(
                    depot_key,
                    encrypted,
                    crc,
                ) == Ok::<Seq<u8>, ErrorView>(content)
            }
        },
{
}

/// Decrypts, unpacks and checks a chunk.
pub fn process_chunk(depot_key: &[u8], encrypted: &[u8], crc: u32) -> (r: Result<Vec<u8>, Error>)
    ensures
        viewed(r) == chunk_content(depot_key@, encrypted@, crc),
{
    let packed: Vec<u8> = match symmetric_decrypt(depot_key, encrypted) {
        Ok(packed) => packed,
        Err(e) => return Err(e),
    };
    let content: Vec<u8> = match decompress_chunk(packed.as_slice()) {
        Ok(content) => content,
        Err(e) => return Err(e),
    };
    match verify_adler32(content.as_slice(), crc) {
        Ok(_) => Ok(content),
        Err(e) => Err(e),
    }
}

/// Whether data has the SHA-1 digest that `expected_sha_hex` gives, in either
/// case of its letters.
pub fn chunk_matches(data: &[u8], expected_sha_hex: &str) -> (r: bool)
    ensures
        r == same_but_for_case(hex_text(sha1_digest(data@)), expected_sha_hex@),
{
    let actual: String = hex_encode(sha1_of(data).as_slice());
    same_ignoring_case(actual.as_str(), expected_sha_hex)
}

} // verus!
