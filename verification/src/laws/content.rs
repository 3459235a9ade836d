//! Laws of chunks, manifests, encrypted names and tokens.

use vstd::prelude::*;
use vstd::utf8::{decode_utf8, decode_utf8_encode_utf8, encode_utf8, valid_utf8};

use crate::chunk::{
    adler32_steam, bare_chunk_is_its_content, checksum_of_one_more_byte, chunk_matches,
    decompress_chunk, decompress_vzip_lzma, decompress_vzstd, process_chunk, verify_adler32,
    vzip_envelope, vzip_envelope_holds_its_stream, vzstd_envelope_holds_its_frame,
    zipped_chunk_holds_its_first_entry,
};
use crate::crypto::{
    aes_cbc_decrypt, aes_ecb_decrypt, aes_ecb_decrypt_block, cbc_encrypts, cbc_round_trip,
    decrypt_filename, decrypt_filename_bytes, ecb_encrypts, ecb_plain, ecb_round_trip,
    filename_round_trip, is_ascii_blank, padded, symmetric_decrypt, symmetric_round_trip,
    written_filename_comes_back,
};
use crate::error::Error;
use crate::jwt::{
    extract_steamid_from_jwt, first_place, numbers_are_read_digit_by_digit, one_digit_is_read,
    one_more_digit_is_read, steam_id_was_in_the_token, subject_is_read, subject_is_what_is_quoted,
    subject_of, subject_was_in_the_text, token_names_the_subject_of_its_payload,
};
use crate::manifest::{
    assemble_manifest, encrypted_manifest_comes_back, extract_zip,
    manifest_address_is_made_of_its_parts, manifest_url, parse_manifest,
    parted_manifest_was_made_of_its_sections, read_section, section_bytes, sections_are_read_back,
    unpack_manifest, zipped_manifest_is_its_first_entry, zlib_decompress, DepotManifest,
    ManifestSections, SectionKind,
};
use crate::outside::{
    aes256_block, base64_decoded, base64url_decoded, before_padding, cbc_plain, ends_in_padding,
    lzma_expanded, match_lengths_of, sha1_digest, zip_entries, zip_first, zlib_inflated,
    zstd_expanded,
};
use crate::proto::{ContentManifestMetadata, ContentManifestPayload, ContentManifestSignature};
use crate::text::{decimal, hex_text, hex_text_gives_its_bytes_back};
use crate::wire::{byte_power, le_bytes, le_value, lemma_le_round_trip};
use crate::zstd::{
    check_frame, frame_is_countable, only_overgrown_frames_are_refused, opens,
    overgrown_block_is_refused, stored_block_makes_no_difference, total,
};

verus! {

// ---------------------------------------------------------------------------
// Chunks
// ---------------------------------------------------------------------------

/// Unpacking a Zstandard envelope gives all that its frame expands to,
/// whatever the bytes before and behind the frame are.
pub proof fn zstandard_chunk_is_unpacked_in_full(
    data: &[u8],
    head: Seq<u8>,
    frame: Seq<u8>,
    footer: Seq<u8>,
    content: Seq<u8>,
    r: Result<Vec<u8>, Error>,
)
    requires
        data@ == seq![0x56u8, 0x53, 0x5A, 0x61] + head + frame + footer,
        head.len() == 4,
        footer.len() == 15,
        frame_is_countable(frame),
        zstd_expanded(frame) == Ok::<Result<Seq<u8>, Seq<char>>, Seq<char>>(Ok(content)),
        call_ensures(decompress_chunk, (data,), r),
    ensures
        r is Ok,
        r->Ok_0@ == content,
{
    vzstd_envelope_holds_its_frame(head, frame, footer);
}

/// Unpacking an LZMA envelope gives what its stream expands to: properties,
/// size and packed data make the stream.
pub proof fn lzma_chunk_is_unpacked_in_full(
    data: &[u8],
    head: Seq<u8>,
    properties: Seq<u8>,
    packed: Seq<u8>,
    sum: Seq<u8>,
    size: nat,
    end: Seq<u8>,
    content: Seq<u8>,
    r: Result<Vec<u8>, Error>,
)
    requires
        data@ == seq![0x56u8, 0x5A, 0x61] + head + properties + packed + sum + le_bytes(size, 4)
            + end,
        head.len() == 4,
        properties.len() == 5,
        sum.len() == 4,
        size < 0x1_0000_0000,
        end.len() == 2,
        lzma_expanded(properties + le_bytes(size, 8) + packed) == Ok::<Seq<u8>, Seq<char>>(content),
        call_ensures(decompress_chunk, (data,), r),
    ensures
        r is Ok,
        r->Ok_0@ == content,
{
    vzip_envelope_holds_its_stream(head, properties, packed, sum, size, end);
    assert(data@ =~= vzip_envelope(head, properties, packed, sum, size, end));
}

/// Unpacking a chunk that is a ZIP archive gives its first entry.
pub proof fn zipped_chunk_is_unpacked_in_full(
    data: &[u8],
    content: Seq<u8>,
    r: Result<Vec<u8>, Error>,
)
    requires
        data@.len() >= 4,
        data@[0] == 0x50 && data@[1] == 0x4B && data@[2] == 0x03 && data@[3] == 0x04,
        zip_entries(data@) is Ok,
        zip_first(data@) == Ok::<Result<Seq<u8>, Seq<char>>, Seq<char>>(Ok(content)),
        call_ensures(decompress_chunk, (data,), r),
    ensures
        r is Ok,
        r->Ok_0@ == content,
{
    zipped_chunk_holds_its_first_entry(data@, content);
}

/// Unpacking a chunk that begins like no envelope gives the chunk.
pub proof fn bare_chunk_is_left_alone(data: &[u8], r: Result<Vec<u8>, Error>)
    requires
        data@.len() < 4 || !(data@[0] == 0x56 && data@[1] == 0x53 && data@[2] == 0x5A && data@[3]
            == 0x61),
        data@.len() < 3 || !(data@[0] == 0x56 && data@[1] == 0x5A && data@[2] == 0x61),
        data@.len() < 4 || !(data@[0] == 0x50 && data@[1] == 0x4B && data@[2] == 0x03 && data@[3]
            == 0x04),
        call_ensures(decompress_chunk, (data,), r),
    ensures
        r is Ok,
        r->Ok_0@ == data@,
{
    bare_chunk_is_its_content(data@);
}

/// What begins like an envelope is opened as one: what cannot be opened is
/// refused, never handed out as it is.
pub proof fn envelopes_are_opened_or_refused(
    data: &[u8],
    r: Result<Vec<u8>, Error>,
    zstandard: Result<Vec<u8>, Error>,
    lzma: Result<Vec<u8>, Error>,
)
    requires
        call_ensures(decompress_chunk, (data,), r),
        call_ensures(decompress_vzstd, (data,), zstandard),
        call_ensures(decompress_vzip_lzma, (data,), lzma),
    ensures
        data@.len() >= 4 && data@[0] == 0x56 && data@[1] == 0x53 && data@[2] == 0x5A && data@[3]
            == 0x61 ==> (r is Ok <==> zstandard is Ok) && (r is Ok ==> r->Ok_0@
            == zstandard->Ok_0@),
        data@.len() >= 3 && data@[0] == 0x56 && data@[1] == 0x5A && data@[2] == 0x61 ==> (r is Ok
            <==> lzma is Ok) && (r is Ok ==> r->Ok_0@ == lzma->Ok_0@),
        data@.len() >= 4 && data@[0] == 0x50 && data@[1] == 0x4B && data@[2] == 0x03 && data@[3]
            == 0x04 ==> (r is Ok <==> zip_entries(data@) is Ok && match zip_first(data@) {
            Ok(entry) => entry is Ok,
            Err(_) => false,
        }) && (r is Ok ==> zip_first(data@) == Ok::<Result<Seq<u8>, Seq<char>>, Seq<char>>(
            Ok(r->Ok_0@),
        )),
{
    let zstandard_magic = seq![0x56u8, 0x53, 0x5A, 0x61];
    let lzma_magic = seq![0x56u8, 0x5A, 0x61];
    let zip_magic = seq![0x50u8, 0x4B, 0x03, 0x04];
    if data@.len() >= 4 && data@[0] == 0x56 && data@[1] == 0x53 && data@[2] == 0x5A && data@[3]
        == 0x61 {
        assert(zstandard_magic =~= data@.take(4));
    } else if data@.len() >= 3 && data@[0] == 0x56 && data@[1] == 0x5A && data@[2] == 0x61 {
        assert(lzma_magic =~= data@.take(3));
        if zstandard_magic.is_prefix_of(data@) {
            assert(zstandard_magic[1] == data@.take(4)[1]);
        }
    } else if data@.len() >= 4 && data@[0] == 0x50 && data@[1] == 0x4B && data@[2] == 0x03
        && data@[3] == 0x04 {
        assert(zip_magic =~= data@.take(4));
        if zstandard_magic.is_prefix_of(data@) {
            assert(zstandard_magic[0] == data@.take(4)[0]);
        }
        if lzma_magic.is_prefix_of(data@) {
            assert(lzma_magic[0] == data@.take(3)[0]);
        }
    }
}

/// A chunk comes out only where it can be decrypted and unpacked, and what
/// comes out is what was unpacked.
pub proof fn chunk_comes_from_what_was_packed(
    depot_key: &[u8],
    encrypted: &[u8],
    crc: u32,
    decrypted: Result<Vec<u8>, Error>,
    packed: &[u8],
    unpacked: Result<Vec<u8>, Error>,
    r: Result<Vec<u8>, Error>,
)
    requires
        call_ensures(process_chunk, (depot_key, encrypted, crc), r),
        call_ensures(symmetric_decrypt, (depot_key, encrypted), decrypted),
        decrypted is Ok ==> packed@ == decrypted->Ok_0@,
        call_ensures(decompress_chunk, (packed,), unpacked),
    ensures
        decrypted is Err ==> r is Err,
        decrypted is Ok && unpacked is Err ==> r is Err,
        decrypted is Ok && unpacked is Ok && r is Ok ==> r->Ok_0@ == unpacked->Ok_0@,
        decrypted is Ok && unpacked is Ok && crc == 0 ==> r is Ok,
{
}

/// What was packed and encrypted comes out of a chunk: where unpacking what
/// was encrypted gives the content, and the checksum is that of the content or
/// zero, processing gives the content.
pub proof fn encrypted_chunk_comes_back(
    depot_key: &[u8],
    encrypted: &[u8],
    crc: u32,
    vector: Seq<u8>,
    cipher: Seq<u8>,
    packed: &[u8],
    content: Vec<u8>,
    bytes: &[u8],
    sum: u32,
    r: Result<Vec<u8>, Error>,
)
    requires
        depot_key@.len() == 32,
        encrypted@ == vector + cipher,
        vector.len() == 16,
        aes256_block(depot_key@, vector).len() == 16,
        cbc_encrypts(depot_key@, aes256_block(depot_key@, vector), padded(packed@), cipher),
        call_ensures(decompress_chunk, (packed,), Ok(content)),
        bytes@ == content@,
        call_ensures(adler32_steam, (bytes,), sum),
        crc == 0 || crc == sum,
        call_ensures(process_chunk, (depot_key, encrypted, crc), r),
    ensures
        r is Ok,
        r->Ok_0@ == content@,
{
    symmetric_round_trip(depot_key@, vector, packed@, cipher);
}

/// What comes out of a chunk has the checksum that it was to have, unless that
/// is zero.
pub proof fn no_chunk_passes_with_another_checksum(
    depot_key: &[u8],
    encrypted: &[u8],
    crc: u32,
    content: Vec<u8>,
    bytes: &[u8],
    sum: u32,
)
    requires
        call_ensures(process_chunk, (depot_key, encrypted, crc), Ok(content)),
        bytes@ == content@,
        call_ensures(adler32_steam, (bytes,), sum),
    ensures
        crc == 0 || crc == sum,
{
}

/// The checksum of nothing is zero. One more byte goes into the low half, and
/// the new low half into the high one, both modulo 65521.
pub proof fn checksum_goes_byte_by_byte(
    data: &[u8],
    longer: &[u8],
    byte: u8,
    sum: u32,
    next: u32,
)
    requires
        longer@ == data@.push(byte),
        call_ensures(adler32_steam, (data,), sum),
        call_ensures(adler32_steam, (longer,), next),
    ensures
        data@.len() == 0 ==> sum == 0,
        next % 65536 == (sum % 65536 + byte) % 65521,
        next / 65536 == (sum / 65536 + next % 65536) % 65521,
{
    checksum_of_one_more_byte(data@, byte);
    assert(data@.len() == 0 ==> data@ =~= Seq::<u8>::empty());
}

/// A chunk matches the digest of its content, written in hexadecimal with
/// letters of either case, and no other text.
pub proof fn chunk_matches_its_digest(data: &[u8], expected: &str, r: bool)
    requires
        call_ensures(chunk_matches, (data, expected), r),
    ensures
        r <==> {
            let digest = hex_text(sha1_digest(data@));
            &&& expected@.len() == digest.len()
            &&& forall|i: int|
                0 <= i < digest.len() ==> #[trigger] expected@[i] == digest[i] || ('a' <= digest[i]
                    && digest[i] <= 'f' && expected@[i] as int + 32 == digest[i] as int)
        },
{
    let digest = hex_text(sha1_digest(data@));
    let low = |c: char| crate::text::ascii_lower(c);
    assert forall|i: int| 0 <= i < digest.len() implies ('0' <= #[trigger] digest[i] && digest[i]
        <= '9') || ('a' <= digest[i] && digest[i] <= 'f') by {
        hex_text_gives_its_bytes_back(sha1_digest(data@), i / 2);
        assert(i == 2 * (i / 2) || i == 2 * (i / 2) + 1);
    }
    let x = crate::text::ascii_lowercase(digest);
    let y = crate::text::ascii_lowercase(expected@);
    if r {
        assert(x == y);
        assert(x.len() == digest.len() && y.len() == expected@.len());
        assert forall|i: int| 0 <= i < digest.len() implies #[trigger] expected@[i] == digest[i] || (
        'a' <= digest[i] && digest[i] <= 'f' && expected@[i] as int + 32 == digest[i] as int) by {
            assert(x[i] == y[i]);
        }
    } else if expected@.len() == digest.len() && forall|i: int|
        0 <= i < digest.len() ==> #[trigger] expected@[i] == digest[i] || ('a' <= digest[i]
            && digest[i] <= 'f' && expected@[i] as int + 32 == digest[i] as int) {
        assert forall|i: int| 0 <= i < x.len() implies x[i] == y[i] by {
            assert(expected@[i] == digest[i] || ('a' <= digest[i] && digest[i] <= 'f'
                && expected@[i] as int + 32 == digest[i] as int));
        }
        assert(x =~= y);
    }
}

// ---------------------------------------------------------------------------
// Manifests
// ---------------------------------------------------------------------------

/// A manifest that a server sends as a ZIP archive of one entry or more is
/// what the first entry holds, whatever the key.
pub proof fn zipped_manifest_is_unpacked(
    depot_key: &[u8],
    data: &[u8],
    content: Seq<u8>,
    r: Result<Vec<u8>, Error>,
)
    requires
        data@.len() >= 2,
        data@[0] == 0x50,
        data@[1] == 0x4B,
        zip_entries(data@) is Ok,
        zip_entries(data@)->Ok_0 >= 1,
        zip_first(data@) == Ok::<Result<Seq<u8>, Seq<char>>, Seq<char>>(Ok(content)),
        call_ensures(unpack_manifest, (depot_key, data), r),
    ensures
        r is Ok,
        r->Ok_0@ == content,
{
    zipped_manifest_is_its_first_entry(depot_key@, data@);
}

/// A manifest that was packed by zlib and encrypted with the depot key comes
/// back.
pub proof fn encrypted_manifest_is_unpacked(
    depot_key: &[u8],
    data: &[u8],
    packed: Seq<u8>,
    content: Seq<u8>,
    r: Result<Vec<u8>, Error>,
)
    requires
        depot_key@.len() == 32,
        ecb_encrypts(depot_key@, padded(packed), data@),
        !(data@[0] == 0x50 && data@[1] == 0x4B),
        zlib_inflated(packed) == Ok::<Seq<u8>, Seq<char>>(content),
        call_ensures(unpack_manifest, (depot_key, data), r),
    ensures
        r is Ok,
        r->Ok_0@ == content,
{
    encrypted_manifest_comes_back(depot_key@, packed, data@, content);
}

/// A manifest that is neither a ZIP archive nor made of whole cipher blocks is
/// unpacked by zlib alone.
pub proof fn bare_manifest_is_unpacked(
    depot_key: &[u8],
    data: &[u8],
    content: Seq<u8>,
    r: Result<Vec<u8>, Error>,
)
    requires
        data@.len() % 16 != 0,
        !(data@.len() >= 2 && data@[0] == 0x50 && data@[1] == 0x4B),
        zlib_inflated(data@) == Ok::<Seq<u8>, Seq<char>>(content),
        call_ensures(unpack_manifest, (depot_key, data), r),
    ensures
        r is Ok,
        r->Ok_0@ == content,
{
}

/// How a manifest is unpacked goes by its first two bytes and its length: as
/// an archive, as a cipher and then by zlib, or by zlib alone. What cannot be
/// unpacked in that way is refused.
pub proof fn manifest_is_unpacked_in_one_way(
    depot_key: &[u8],
    data: &[u8],
    r: Result<Vec<u8>, Error>,
    archive: Result<Vec<u8>, Error>,
    decrypted: Result<Vec<u8>, Error>,
)
    requires
        call_ensures(unpack_manifest, (depot_key, data), r),
        call_ensures(extract_zip, (data,), archive),
        call_ensures(aes_ecb_decrypt, (depot_key, data), decrypted),
    ensures
        ({
            let zipped = data@.len() >= 2 && data@[0] == 0x50 && data@[1] == 0x4B;
            &&& zipped ==> (r is Ok <==> archive is Ok) && (r is Ok ==> r->Ok_0@ == archive->Ok_0@)
            &&& !zipped && data@.len() % 16 == 0 ==> (r is Ok <==> decrypted is Ok
                && zlib_inflated(decrypted->Ok_0@) is Ok) && (r is Ok ==> zlib_inflated(
                decrypted->Ok_0@,
            ) == Ok::<Seq<u8>, Seq<char>>(r->Ok_0@))
            &&& !zipped && data@.len() % 16 != 0 ==> (r is Ok <==> zlib_inflated(data@) is Ok) && (r
                is Ok ==> zlib_inflated(data@) == Ok::<Seq<u8>, Seq<char>>(r->Ok_0@))
        }),
{
}

/// Parting a manifest gives the bodies that it was made of, in their order,
/// whatever stands behind them.
pub proof fn manifest_is_parted_into_its_sections(
    data: &[u8],
    payload: Seq<u8>,
    metadata: Seq<u8>,
    signature: Seq<u8>,
    behind: Seq<u8>,
    sections: ManifestSections,
)
    requires
        payload.len() < 0x1_0000_0000,
        metadata.len() < 0x1_0000_0000,
        signature.len() < 0x1_0000_0000,
        data@ == seq![0xD0u8, 0x17, 0xF6, 0x71] + le_bytes(payload.len(), 4) + payload + seq![
            0xBEu8,
            0x12,
            0x48,
            0x1F,
        ] + le_bytes(metadata.len(), 4) + metadata + seq![0x17u8, 0xB8, 0x81, 0x1B] + le_bytes(
            signature.len(),
            4,
        ) + signature + behind,
        call_ensures(parse_manifest, (data,), sections),
    ensures
        sections.failure is None,
        sections.bodies@.len() == 3,
        sections.bodies@[0]@ == payload,
        sections.bodies@[1]@ == metadata,
        sections.bodies@[2]@ == signature,
{
    sections_are_read_back(payload, metadata, signature, behind);
    crate::manifest::lemma_magic_bytes();
    assert(data@ =~= section_bytes(SectionKind::Payload, payload) + section_bytes(
        SectionKind::Metadata,
        metadata,
    ) + section_bytes(SectionKind::Signature, signature) + behind);
    let view = |body: &[u8]| body@;
    assert(sections@.0 == seq![payload, metadata, signature]);
    assert(sections@.0.len() == sections.bodies@.len());
    assert(sections@.0[0] == sections.bodies@[0]@);
    assert(sections@.0[1] == sections.bodies@[1]@);
    assert(sections@.0[2] == sections.bodies@[2]@);
}

/// Only what is made of the three sections, from its beginning, can be parted.
pub proof fn nothing_else_is_a_manifest(data: &[u8], sections: ManifestSections)
    requires
        call_ensures(parse_manifest, (data,), sections),
    ensures
        sections.failure is None <==> sections.bodies@.len() == 3,
        sections.failure is None ==> (seq![0xD0u8, 0x17, 0xF6, 0x71] + le_bytes(
            sections.bodies@[0]@.len(),
            4,
        ) + sections.bodies@[0]@ + seq![0xBEu8, 0x12, 0x48, 0x1F] + le_bytes(
            sections.bodies@[1]@.len(),
            4,
        ) + sections.bodies@[1]@ + seq![0x17u8, 0xB8, 0x81, 0x1B] + le_bytes(
            sections.bodies@[2]@.len(),
            4,
        ) + sections.bodies@[2]@).is_prefix_of(data@),
{
    parted_manifest_was_made_of_its_sections(data@);
    assert(sections@.0.len() == sections.bodies@.len());
    if sections.failure is None {
        assert(sections@.0[0] == sections.bodies@[0]@);
        assert(sections@.0[1] == sections.bodies@[1]@);
        assert(sections@.0[2] == sections.bodies@[2]@);
    }
}

/// The address of a manifest with a token is the address without one, with the
/// token behind it; that one is made of the parts that name the manifest.
pub proof fn manifest_address_names_the_manifest(
    cdn: &crate::cdn::CdnServer,
    depot_id: u32,
    manifest_id: u64,
    request_code: u64,
    token: &str,
    bare: String,
    full: String,
)
    requires
        call_ensures(manifest_url, (cdn, depot_id, manifest_id, request_code, None), bare),
        call_ensures(manifest_url, (cdn, depot_id, manifest_id, request_code, Some(token)), full),
    ensures
        full@ == bare@ + token@,
        bare@ == seq!['h', 't', 't', 'p', 's', ':', '/', '/'] + cdn.vhost@ + seq![
            '/',
            'd',
            'e',
            'p',
            'o',
            't',
            '/',
        ] + decimal(depot_id as nat) + seq!['/', 'm', 'a', 'n', 'i', 'f', 'e', 's', 't', '/']
            + decimal(manifest_id as nat) + seq!['/', '5', '/'] + decimal(request_code as nat),
{
    manifest_address_is_made_of_its_parts(
        cdn.vhost@,
        depot_id,
        manifest_id,
        request_code,
        token@,
    );
}

/// Opening a Zstandard envelope gives all that the frame between its first
/// eight and its last fifteen bytes expands to, and nothing else does: what is
/// too short or cannot be expanded is refused.
pub proof fn zstandard_envelope_is_opened_in_full(data: &[u8], r: Result<Vec<u8>, Error>)
    requires
        call_ensures(decompress_vzstd, (data,), r),
    ensures
        r is Ok <==> data@.len() >= 23 && {
            let frame = data@.subrange(8, data@.len() - 15);
            frame_is_countable(frame) && match zstd_expanded(frame) {
                Ok(expanded) => expanded is Ok,
                Err(_) => false,
            }
        },
        r is Ok ==> zstd_expanded(data@.subrange(8, data@.len() - 15)) == Ok::<
            Result<Seq<u8>, Seq<char>>,
            Seq<char>,
        >(Ok(r->Ok_0@)),
{
}

/// Opening an LZMA envelope gives what its stream expands to: the properties
/// behind the first seven bytes, the size from the last six, and what stands
/// between.
pub proof fn lzma_envelope_is_opened_in_full(data: &[u8], r: Result<Vec<u8>, Error>)
    requires
        call_ensures(decompress_vzip_lzma, (data,), r),
    ensures
        data@.len() < 22 ==> r is Err,
        data@.len() >= 22 ==> {
            let end = data@.len() as int;
            let size = data@[end - 6] + 256 * data@[end - 5] + 65536 * data@[end - 4] + 16777216
                * data@[end - 3];
            let stream = data@.subrange(7, 12) + le_bytes(size as nat, 8) + data@.subrange(
                12,
                end - 10,
            );
            &&& r is Ok <==> lzma_expanded(stream) is Ok
            &&& r is Ok ==> lzma_expanded(stream) == Ok::<Seq<u8>, Seq<char>>(r->Ok_0@)
        },
{
    if data@.len() >= 22 {
        let end = data@.len() as int;
        let size = data@.subrange(end - 6, end - 2);
        crate::wire::lemma_le_value_4(size);
        assert(size[0] == data@[end - 6] && size[1] == data@[end - 5] && size[2] == data@[end - 4]
            && size[3] == data@[end - 3]);
    }
}

/// A frame is refused only where the matches of some section copy about as
/// much as a count of 32 bits holds, or more; a block that is stored as it is
/// in front of the others makes no difference.
pub proof fn few_frames_are_refused(
    frame: &[u8],
    longer: &[u8],
    start: Seq<u8>,
    content: Seq<u8>,
    rest: Seq<u8>,
    r: bool,
    s: bool,
)
    requires
        opens(start),
        content.len() <= 131072,
        frame@ == start + rest,
        longer@ == start + (le_bytes(8 * content.len(), 3) + content + rest),
        call_ensures(check_frame, (frame,), r),
        call_ensures(check_frame, (longer,), s),
    ensures
        r == s,
        !r ==> exists|section: Seq<u8>| #[trigger]
            match_lengths_of(section) is Some && total(match_lengths_of(section)->0) > 0xFFEF_FFFF,
{
    stored_block_makes_no_difference(start, content, 0, 0, rest);
    if !r {
        let section = only_overgrown_frames_are_refused(frame@);
        assert(match_lengths_of(section) is Some);
    }
}

/// A frame whose first block is compressed, holds up to 31 literals as they
/// are, and reads its sequences by the predefined tables, is refused exactly
/// where what it expands to outgrows a count of 32 bits, if no other block
/// follows.
pub proof fn overgrown_frame_is_refused(
    frame: &[u8],
    start: Seq<u8>,
    literals: Seq<u8>,
    count: u8,
    bits: Seq<u8>,
    behind: Seq<u8>,
    lengths: Seq<u32>,
    r: bool,
)
    requires
        opens(start),
        literals.len() < 32,
        1 <= count < 128,
        bits.len() <= 131000,
        match_lengths_of(seq![count, 0u8] + bits) == Some(lengths),
        ({
            let block = seq![(8 * literals.len()) as u8] + literals + (seq![count, 0u8] + bits);
            frame@ == start + (le_bytes(8 * block.len() + 5, 3) + block + behind)
        }),
        call_ensures(check_frame, (frame,), r),
    ensures
        r <==> literals.len() + total(lengths) <= 0xFFFF_FFFF,
{
    overgrown_block_is_refused(start, literals, count, bits, true, behind, lengths);
    let block = seq![(8 * literals.len()) as u8] + literals + (seq![count, 0u8] + bits);
    assert(8 * block.len() + 4 + 1 == 8 * block.len() + 5);
}

/// What does not begin like a frame is not refused here; it is left to the
/// decoder.
pub proof fn other_data_is_left_to_the_decoder(frame: &[u8], r: bool)
    requires
        frame@.len() < 5 || !(frame@[0] == 0x28 && frame@[1] == 0xB5 && frame@[2] == 0x2F && frame@[3]
            == 0xFD),
        call_ensures(check_frame, (frame,), r),
    ensures
        r,
{
    if frame@.len() >= 5 {
        let first = frame@.subrange(0, 4);
        crate::wire::lemma_le_value_4(first);
        assert(first[0] == frame@[0] && first[1] == frame@[1] && first[2] == frame@[2] && first[3]
            == frame@[3]);
    }
}

/// The checksum of a chunk is accepted where it is right or zero, and nowhere
/// else.
pub proof fn right_checksum_is_accepted(
    data: &[u8],
    expected: u32,
    sum: u32,
    r: Result<(), Error>,
)
    requires
        call_ensures(adler32_steam, (data,), sum),
        call_ensures(verify_adler32, (data, expected), r),
    ensures
        r is Ok <==> expected == 0 || expected == sum,
{
}

/// An archive gives its first entry wherever it has one that can be read, and
/// nothing else.
pub proof fn archive_gives_its_first_entry(data: &[u8], r: Result<Vec<u8>, Error>)
    requires
        call_ensures(extract_zip, (data,), r),
    ensures
        r is Ok <==> zip_entries(data@) is Ok && zip_entries(data@)->Ok_0 >= 1 && match zip_first(
            data@,
        ) {
            Ok(entry) => entry is Ok,
            Err(_) => false,
        },
        r is Ok ==> zip_first(data@) == Ok::<Result<Seq<u8>, Seq<char>>, Seq<char>>(
            Ok(r->Ok_0@),
        ),
{
}

/// Data packed by zlib gives what it inflates to, and nothing else.
pub proof fn zlib_data_is_inflated(data: &[u8], r: Result<Vec<u8>, Error>)
    requires
        call_ensures(zlib_decompress, (data,), r),
    ensures
        r is Ok <==> zlib_inflated(data@) is Ok,
        r is Ok ==> zlib_inflated(data@) == Ok::<Seq<u8>, Seq<char>>(r->Ok_0@),
{
}

/// Reading a section gives the four bytes that it begins with, as a number,
/// and its body, and goes on behind it.
pub proof fn section_is_read(
    data: &[u8],
    before: Seq<u8>,
    kind: u32,
    body: Seq<u8>,
    behind: Seq<u8>,
    offset: &mut usize,
    r: Result<(u32, &[u8]), Error>,
)
    requires
        body.len() < 0x1_0000_0000,
        data@ == before + le_bytes(kind as nat, 4) + le_bytes(body.len(), 4) + body + behind,
        *old(offset) == before.len(),
        call_ensures(read_section, (data, offset), r),
    ensures
        match r {
            Ok((magic, read)) => magic == kind && read@ == body,
            Err(_) => false,
        },
        *final(offset) == before.len() + 8 + body.len(),
{
    let at = before.len() as int;
    reveal_with_fuel(byte_power, 5);
    lemma_le_round_trip(kind as nat, 4);
    lemma_le_round_trip(body.len(), 4);
    assert(data@.subrange(at, at + 4) =~= le_bytes(kind as nat, 4));
    assert(data@.subrange(at + 4, at + 8) =~= le_bytes(body.len(), 4));
    assert(data@.subrange(at + 8, at + 8 + body.len()) =~= body);
}

/// A section that is cut short is refused.
pub proof fn cut_section_is_refused(
    data: &[u8],
    offset: &mut usize,
    r: Result<(u32, &[u8]), Error>,
)
    requires
        *old(offset) + 8 > data@.len() || *old(offset) + 8 + le_value(
            data@.subrange(*old(offset) + 4, *old(offset) + 8),
        ) > data@.len(),
        call_ensures(read_section, (data, offset), r),
    ensures
        r is Err,
{
}

/// A manifest is made of its three decoded parts; the first that fails is why
/// there is none.
pub proof fn manifest_is_made_of_its_parts(
    payload: Option<Result<ContentManifestPayload, Error>>,
    metadata: Option<Result<ContentManifestMetadata, Error>>,
    signature: Option<Result<ContentManifestSignature, Error>>,
    failure: Option<Error>,
    r: Result<DepotManifest, Error>,
)
    requires
        call_ensures(assemble_manifest, (payload, metadata, signature, failure), r),
    ensures
        r is Ok ==> payload == Some(Ok::<ContentManifestPayload, Error>(r->Ok_0.payload))
            && metadata == Some(Ok::<ContentManifestMetadata, Error>(r->Ok_0.metadata)) && signature
            == Some(Ok::<ContentManifestSignature, Error>(r->Ok_0.signature)),
        r matches Err(e) ==> {
            ||| payload == Some(Err::<ContentManifestPayload, Error>(e))
            ||| metadata == Some(Err::<ContentManifestMetadata, Error>(e)) && payload is Some
                && payload->0 is Ok
            ||| signature == Some(Err::<ContentManifestSignature, Error>(e)) && metadata is Some
                && metadata->0 is Ok
            ||| payload is None || metadata is None || signature is None
        },
        payload is Some && payload->0 is Ok && metadata is Some && metadata->0 is Ok && signature
            is Some && signature->0 is Ok ==> r is Ok,
{
}

// ---------------------------------------------------------------------------
// Ciphers
// ---------------------------------------------------------------------------

proof fn lemma_padding_goes_back_on(plain: Seq<u8>)
    requires
        plain.len() % 16 == 0,
        ends_in_padding(plain),
    ensures
        padded(before_padding(plain)) == plain,
{
    let short = before_padding(plain);
    let count = plain.last() as int;
    assert(short.len() == plain.len() - count);
    assert(short.len() % 16 == if count == 16 {
        0
    } else {
        16 - count
    });
    assert(padded(short).len() == plain.len());
    assert forall|i: int| 0 <= i < plain.len() implies padded(short)[i] == plain[i] by {
        if i >= short.len() {
            assert(plain[i] == plain.last());
        }
    }
    assert(padded(short) =~= plain);
}

/// What a cipher of chained blocks is decrypted to encrypts to it again, and
/// what was encrypted comes back: padding comes off and is never made up.
pub proof fn chained_blocks_are_undone(
    key: &[u8],
    iv: &[u8],
    input: &[u8],
    plain: Seq<u8>,
    r: Result<Vec<u8>, Error>,
)
    requires
        key@.len() == 32,
        iv@.len() == 16,
        call_ensures(aes_cbc_decrypt, (key, iv, input), r),
    ensures
        cbc_encrypts(key@, iv@, padded(plain), input@) ==> r is Ok && r->Ok_0@ == plain,
        r is Ok ==> cbc_encrypts(key@, iv@, padded(r->Ok_0@), input@),
{
    if cbc_encrypts(key@, iv@, padded(plain), input@) {
        cbc_round_trip(key@, iv@, plain, input@);
    }
    if r is Ok {
        let text = cbc_plain(key@, iv@, input@);
        lemma_padding_goes_back_on(text);
        assert forall|i: int| 0 <= i < text.len() implies aes256_block(
            key@,
            input@.subrange(i / 16 * 16, i / 16 * 16 + 16),
        )[i % 16] == #[trigger] text[i] ^ (if i < 16 {
            iv@[i]
        } else {
            input@[i - 16]
        }) by {
            let block = aes256_block(key@, input@.subrange(i / 16 * 16, i / 16 * 16 + 16))[i % 16];
            let chain = if i < 16 {
                iv@[i]
            } else {
                input@[i - 16]
            };
            assert(text[i] == block ^ chain);
            assert((block ^ chain) ^ chain == block) by (bit_vector);
        }
    }
}

/// A key or a vector of another length is refused.
pub proof fn other_keys_are_refused(
    key: &[u8],
    iv: &[u8],
    input: &[u8],
    chained: Result<Vec<u8>, Error>,
    single: Result<Vec<u8>, Error>,
    behind: Result<Vec<u8>, Error>,
)
    requires
        call_ensures(aes_cbc_decrypt, (key, iv, input), chained),
        call_ensures(aes_ecb_decrypt, (key, input), single),
        call_ensures(symmetric_decrypt, (key, input), behind),
    ensures
        key@.len() != 32 || iv@.len() != 16 || input@.len() % 16 != 0 ==> chained is Err,
        key@.len() != 32 || input@.len() % 16 != 0 <==> single is Err,
        key@.len() != 32 || input@.len() < 32 || input@.len() % 16 != 0 ==> behind is Err,
{
    assert(input@.len() >= 32 ==> input@.skip(16).len() % 16 == input@.len() % 16);
}

/// What a cipher of single blocks is decrypted to encrypts to it again, with
/// its padding or, where there was none, as it is; what was encrypted with
/// padding comes back.
pub proof fn single_blocks_are_undone(
    key: &[u8],
    input: &[u8],
    plain: Seq<u8>,
    r: Result<Vec<u8>, Error>,
)
    requires
        key@.len() == 32,
        call_ensures(aes_ecb_decrypt, (key, input), r),
    ensures
        ecb_encrypts(key@, padded(plain), input@) ==> r is Ok && r->Ok_0@ == plain,
        r is Ok ==> ecb_encrypts(key@, padded(r->Ok_0@), input@) || ecb_encrypts(
            key@,
            r->Ok_0@,
            input@,
        ),
{
    if ecb_encrypts(key@, padded(plain), input@) {
        ecb_round_trip(key@, plain, input@);
    }
    if r is Ok {
        let text = ecb_plain(key@, input@);
        if ends_in_padding(text) {
            lemma_padding_goes_back_on(text);
        }
    }
}

/// One block is decrypted by the cipher alone.
pub proof fn one_block_is_decrypted(key: &[u8], block: &[u8], r: Result<Vec<u8>, Error>)
    requires
        block@.len() == 16,
        call_ensures(aes_ecb_decrypt_block, (key, block), r),
    ensures
        r is Ok <==> key@.len() == 32,
        r is Ok ==> r->Ok_0@ == aes256_block(key@, block@) && r->Ok_0@.len() == 16,
{
}

/// What comes from behind an encrypted vector encrypts to it again.
pub proof fn data_behind_a_vector_is_undone(key: &[u8], input: &[u8], r: Result<Vec<u8>, Error>)
    requires
        call_ensures(symmetric_decrypt, (key, input), r),
        r is Ok,
    ensures
        key@.len() == 32,
        input@.len() >= 32,
        cbc_encrypts(
            key@,
            aes256_block(key@, input@.take(16)),
            padded(r->Ok_0@),
            input@.skip(16),
        ),
{
    let iv = aes256_block(key@, input@.take(16));
    let cipher = input@.skip(16);
    let text = cbc_plain(key@, iv, cipher);
    lemma_padding_goes_back_on(text);
    assert forall|i: int| 0 <= i < text.len() implies aes256_block(
        key@,
        cipher.subrange(i / 16 * 16, i / 16 * 16 + 16),
    )[i % 16] == #[trigger] text[i] ^ (if i < 16 {
        iv[i]
    } else {
        cipher[i - 16]
    }) by {
        let block = aes256_block(key@, cipher.subrange(i / 16 * 16, i / 16 * 16 + 16))[i % 16];
        let chain = if i < 16 {
            iv[i]
        } else {
            cipher[i - 16]
        };
        assert(text[i] == block ^ chain);
        assert((block ^ chain) ^ chain == block) by (bit_vector);
    }
}

/// A file name comes only from what is base64, can be decrypted and is UTF-8:
/// it is what was decrypted, without the zeros behind it.
pub proof fn file_name_comes_from_what_was_encrypted(
    key: &[u8],
    text: &str,
    encrypted: &[u8],
    plain: Result<Vec<u8>, Error>,
    from_bytes: Result<String, Error>,
    r: Result<String, Error>,
)
    requires
        forall|i: int|
            0 <= i < text@.len() ==> (#[trigger] text@[i]) != ' ' && text@[i] != '\t' && text@[i]
                != '\n' && text@[i] != '\r' && text@[i] != '\x0C',
        base64_decoded(text@) is Ok ==> encrypted@ == base64_decoded(text@)->Ok_0,
        call_ensures(decrypt_filename, (key, text), r),
        call_ensures(decrypt_filename_bytes, (key, encrypted), from_bytes),
        call_ensures(symmetric_decrypt, (key, encrypted), plain),
    ensures
        base64_decoded(text@) is Err ==> r is Err,
        base64_decoded(text@) is Ok ==> (r is Ok <==> from_bytes is Ok) && (r is Ok ==> r->Ok_0@
            == from_bytes->Ok_0@),
        plain is Err ==> from_bytes is Err,
        plain is Ok && from_bytes is Ok ==> {
            let name = encode_utf8(from_bytes->Ok_0@);
            &&& name.is_prefix_of(plain->Ok_0@)
            &&& name.len() > 0 ==> name.last() != 0
            &&& forall|i: int|
                name.len() <= i < plain->Ok_0@.len() ==> #[trigger] plain->Ok_0@[i] == 0
        },
{
    assert forall|i: int| 0 <= i < text@.len() implies !is_ascii_blank(#[trigger] text@[i]) by {
        assert(text@[i] != ' ');
    }
    crate::crypto::lemma_no_blanks(text@);
    if plain is Ok && from_bytes is Ok {
        crate::crypto::lemma_only_zeros_come_off(plain->Ok_0@);
        let bytes = crate::crypto::without_trailing_zeros(plain->Ok_0@);
        decode_utf8_encode_utf8(bytes);
    }
}

/// A file name that was encrypted comes back from the bytes too, without the
/// zeros behind it.
pub proof fn encrypted_name_comes_back_from_bytes(
    key: &[u8],
    encrypted: &[u8],
    vector: Seq<u8>,
    name: Seq<char>,
    zeros: nat,
    cipher: Seq<u8>,
    r: Result<String, Error>,
)
    requires
        key@.len() == 32,
        vector.len() == 16,
        aes256_block(key@, vector).len() == 16,
        encode_utf8(name).len() > 0 ==> encode_utf8(name).last() != 0,
        cbc_encrypts(
            key@,
            aes256_block(key@, vector),
            padded(encode_utf8(name) + Seq::new(zeros, |i: int| 0u8)),
            cipher,
        ),
        encrypted@ == vector + cipher,
        call_ensures(decrypt_filename_bytes, (key, encrypted), r),
    ensures
        r is Ok,
        r->Ok_0@ == name,
{
    filename_round_trip(key@, vector, name, zeros, cipher);
}

// ---------------------------------------------------------------------------
// Encrypted file names and tokens
// ---------------------------------------------------------------------------

/// What was encrypted behind an encrypted initialisation vector comes back.
pub proof fn encrypted_data_comes_back(
    key: &[u8],
    input: &[u8],
    vector: Seq<u8>,
    plain: Seq<u8>,
    cipher: Seq<u8>,
    r: Result<Vec<u8>, Error>,
)
    requires
        key@.len() == 32,
        input@ == vector + cipher,
        vector.len() == 16,
        aes256_block(key@, vector).len() == 16,
        cbc_encrypts(key@, aes256_block(key@, vector), padded(plain), cipher),
        call_ensures(symmetric_decrypt, (key, input), r),
    ensures
        r is Ok,
        r->Ok_0@ == plain,
{
    symmetric_round_trip(key@, vector, plain, cipher);
}

/// A file name that was encrypted and written in base64 comes back, without
/// the zeros behind it.
pub proof fn encrypted_file_name_comes_back(
    key: &[u8],
    text: &str,
    vector: Seq<u8>,
    name: Seq<char>,
    zeros: nat,
    cipher: Seq<u8>,
    r: Result<String, Error>,
)
    requires
        key@.len() == 32,
        vector.len() == 16,
        aes256_block(key@, vector).len() == 16,
        encode_utf8(name).len() > 0 ==> encode_utf8(name).last() != 0,
        cbc_encrypts(
            key@,
            aes256_block(key@, vector),
            padded(encode_utf8(name) + Seq::new(zeros, |i: int| 0u8)),
            cipher,
        ),
        forall|i: int|
            0 <= i < text@.len() ==> (#[trigger] text@[i]) != ' ' && text@[i] != '\t' && text@[i]
                != '\n' && text@[i] != '\r' && text@[i] != '\x0C',
        base64_decoded(text@) == Ok::<Seq<u8>, Seq<char>>(vector + cipher),
        call_ensures(decrypt_filename, (key, text), r),
    ensures
        r is Ok,
        r->Ok_0@ == name,
{
    assert forall|i: int| 0 <= i < text@.len() implies !is_ascii_blank(#[trigger] text@[i]) by {
    }
    written_filename_comes_back(key@, vector, name, zeros, cipher, text@);
}

/// The SteamID that stands in the payload of a token, behind the first
/// `"sub"`, is the one that is read from the token.
pub proof fn steam_id_of_a_token_is_read(
    token: &str,
    head: Seq<char>,
    payload: Seq<char>,
    signature: Seq<char>,
    filled: Seq<char>,
    bytes: Seq<u8>,
    before_sub: Seq<char>,
    before_colon: Seq<char>,
    before_quote: Seq<char>,
    steam_id: u64,
    rest: Seq<char>,
    r: Option<u64>,
)
    requires
        token@ == head + seq!['.'] + (payload + seq!['.'] + signature),
        !head.contains('.'),
        !payload.contains('.'),
        !signature.contains('.'),
        filled == payload + if encode_utf8(payload).len() % 4 == 2 {
            seq!['=', '=']
        } else if encode_utf8(payload).len() % 4 == 3 {
            seq!['=']
        } else {
            Seq::empty()
        },
        base64url_decoded(filled) == Ok::<Seq<u8>, Seq<char>>(bytes),
        valid_utf8(bytes),
        decode_utf8(bytes) == before_sub + seq!['"', 's', 'u', 'b', '"'] + (before_colon + seq![':']
            + (before_quote + seq!['"'] + (decimal(steam_id as nat) + seq!['"'] + rest))),
        first_place(decode_utf8(bytes), seq!['"', 's', 'u', 'b', '"']) == Some(
            before_sub.len() as int,
        ),
        !before_colon.contains(':'),
        !before_quote.contains('"'),
        call_ensures(extract_steamid_from_jwt, (token,), r),
    ensures
        r == Some(steam_id),
{
    token_names_the_subject_of_its_payload(head, payload, signature, filled, bytes);
    subject_is_read(before_sub, before_colon, before_quote, steam_id, rest);
}

/// A SteamID that is read from a token was in it: in the middle one of three
/// parts, between the quotes behind a colon behind `"sub"`, digit by digit.
pub proof fn steam_id_comes_from_its_token(token: &str, r: Option<u64>) -> (parts: (
    Seq<char>,
    Seq<char>,
    Seq<char>,
    Seq<u8>,
    Seq<char>,
))
    requires
        call_ensures(extract_steamid_from_jwt, (token,), r),
        r is Some,
    ensures
        ({
            let (head, payload, signature, bytes, number) = parts;
            let filled = payload + if encode_utf8(payload).len() % 4 == 2 {
                seq!['=', '=']
            } else if encode_utf8(payload).len() % 4 == 3 {
                seq!['=']
            } else {
                Seq::empty()
            };
            &&& token@ == head + seq!['.'] + (payload + seq!['.'] + signature)
            &&& !head.contains('.')
            &&& !payload.contains('.')
            &&& !signature.contains('.')
            &&& match base64url_decoded(filled) {
                Ok(decoded) => bytes == decoded,
                Err(_) => base64_decoded(filled) == Ok::<Seq<u8>, Seq<char>>(bytes),
            }
            &&& valid_utf8(bytes)
            &&& number.len() > 0
            &&& '0' <= number.last() <= '9'
            &&& r->0 % 10 == number.last() as int - '0' as int
            &&& exists|front: Seq<char>, back: Seq<char>| #[trigger]
                (front + (seq!['"'] + number + seq!['"']) + back) == decode_utf8(bytes)
        }),
{
    let steam_id = r->0;
    let (head, payload, signature) = steam_id_was_in_the_token(token@, steam_id);
    let filled = crate::jwt::with_padding(payload);
    assert(payload + Seq::<char>::empty() =~= payload);
    let bytes = match base64url_decoded(filled) {
        Ok(decoded) => decoded,
        Err(_) => base64_decoded(filled)->Ok_0,
    };
    let text = decode_utf8(bytes);
    let (a, b, c, number, rest) = subject_was_in_the_text(text, steam_id);
    numbers_are_read_digit_by_digit(number, steam_id);
    let front = a + seq!['"', 's', 'u', 'b', '"'] + (b + seq![':'] + c);
    assert(text =~= front + (seq!['"'] + number + seq!['"']) + rest);
    (head, payload, signature, bytes, number)
}

/// The subject of a payload is the number between the quotes behind the colon
/// behind the first `"sub"`; what is not UTF-8 has none. One more digit counts
/// once, what stands before it ten times as much.
pub proof fn subject_of_a_payload_is_read(
    payload: Vec<u8>,
    longer: Vec<u8>,
    before_sub: Seq<char>,
    before_colon: Seq<char>,
    before_quote: Seq<char>,
    number: Seq<char>,
    digit: char,
    rest: Seq<char>,
    r: Option<u64>,
    more: Option<u64>,
)
    requires
        call_ensures(subject_of, (payload,), r),
        call_ensures(subject_of, (longer,), more),
        valid_utf8(payload@),
        decode_utf8(payload@) == quoted_subject(before_sub, before_colon, before_quote, number, rest),
        valid_utf8(longer@),
        decode_utf8(longer@) == quoted_subject(
            before_sub,
            before_colon,
            before_quote,
            number.push(digit),
            rest,
        ),
        first_place(decode_utf8(payload@), seq!['"', 's', 'u', 'b', '"']) == Some(
            before_sub.len() as int,
        ),
        first_place(decode_utf8(longer@), seq!['"', 's', 'u', 'b', '"']) == Some(
            before_sub.len() as int,
        ),
        !before_colon.contains(':'),
        !before_quote.contains('"'),
        !number.contains('"'),
        digit != '"',
    ensures
        number.len() == 1 && '0' <= number[0] <= '9' ==> r == Some(
            (number[0] as int - '0' as int) as u64,
        ),
        number.len() == 2 && number[0] == '+' && '0' <= number[1] <= '9' ==> r == Some(
            (number[1] as int - '0' as int) as u64,
        ),
        r is Some && '0' <= digit <= '9' && 10 * r->0 + (digit as int - '0' as int) <= u64::MAX
            ==> more == Some((10 * r->0 + (digit as int - '0' as int)) as u64),
        r is Some && !('0' <= digit <= '9') ==> more is None,
{
    subject_is_what_is_quoted(before_sub, before_colon, before_quote, number, rest);
    assert(!number.push(digit).contains('"')) by {
        if number.push(digit).contains('"') {
            let i = choose|i: int| 0 <= i < number.push(digit).len() && number.push(digit)[i] == '"';
            assert(number[i] == '"');
        }
    }
    subject_is_what_is_quoted(before_sub, before_colon, before_quote, number.push(digit), rest);
    if number.len() == 1 && '0' <= number[0] <= '9' {
        one_digit_is_read(number[0]);
        assert(number =~= seq![number[0]]);
    }
    if number.len() == 2 && number[0] == '+' && '0' <= number[1] <= '9' {
        one_digit_is_read(number[1]);
        assert(number =~= seq!['+', number[1]]);
    }
    if r is Some {
        one_more_digit_is_read(number, r->0, digit);
    }
}

/// A payload in which a number is quoted as the subject.
pub open spec fn quoted_subject(
    before_sub: Seq<char>,
    before_colon: Seq<char>,
    before_quote: Seq<char>,
    number: Seq<char>,
    rest: Seq<char>,
) -> Seq<char> {
    before_sub + seq!['"', 's', 'u', 'b', '"'] + (before_colon + seq![':'] + (before_quote + seq![
        '"',
    ] + (number + seq!['"'] + rest)))
}

/// What is not UTF-8 has no subject.
pub proof fn other_payloads_have_no_subject(payload: Vec<u8>, r: Option<u64>)
    requires
        call_ensures(subject_of, (payload,), r),
        !valid_utf8(payload@),
    ensures
        r is None,
{
}

} // verus!
