//! Depot manifests: where they are, how a CDN packs them, and the sections
//! that they are made of.

use vstd::prelude::*;

use crate::cdn::CdnServer;
use crate::crypto::{aes_ecb_decrypt, ecb_decrypted, ecb_encrypts, ecb_round_trip, padded};
use crate::error::{label, labelled, refused, viewed, Error, ErrorView};
use crate::outside::{
    zip_entries, zip_entry_count, zip_first, zip_first_entry, zlib_inflate, zlib_inflated,
};
use crate::proto::{ContentManifestMetadata, ContentManifestPayload, ContentManifestSignature};
use crate::text::{decimal, hex_digits, push_decimal, push_hex};
use crate::wire::{
    byte_power, le_bytes, le_value, lemma_le_round_trip, read_bytes_are_written_back, u32_at,
};

verus! {

/// What the payload section of a manifest begins with.
pub const PAYLOAD_MAGIC: u32 = 0x71F617D0;

/// What the metadata section of a manifest begins with.
pub const METADATA_MAGIC: u32 = 0x1F4812BE;

/// What the signature section of a manifest begins with.
pub const SIGNATURE_MAGIC: u32 = 0x1B81B817;

/// A depot manifest.
#[derive(Debug)]
pub struct DepotManifest {
    pub payload: ContentManifestPayload,
    pub metadata: ContentManifestMetadata,
    pub signature: ContentManifestSignature,
}

/// Where a CDN server keeps a manifest.
pub open spec fn manifest_location(
    vhost: Seq<char>,
    depot_id: u32,
    manifest_id: u64,
    request_code: u64,
    token: Option<Seq<char>>,
) -> Seq<char> {
    "https://"@ + vhost + "/depot/"@ + decimal(depot_id as nat) + "/manifest/"@ + decimal(
        manifest_id as nat,
    ) + "/5/"@ + decimal(request_code as nat) + match token {
        Some(text) => text,
        None => Seq::empty(),
    }
}

/// The address of a manifest is made of the virtual host, the depot, the
/// manifest, the version of the format and the request code, in this order,
/// with the token behind them where there is one.
pub proof fn manifest_address_is_made_of_its_parts(
    vhost: Seq<char>,
    depot_id: u32,
    manifest_id: u64,
    request_code: u64,
    token: Seq<char>,
)
    ensures
        manifest_location(vhost, depot_id, manifest_id, request_code, Some(token))
            == manifest_location(vhost, depot_id, manifest_id, request_code, None) + token,
        manifest_location(vhost, depot_id, manifest_id, request_code, None) == seq![
            'h',
            't',
            't',
            'p',
            's',
            ':',
            '/',
            '/',
        ] + vhost + seq!['/', 'd', 'e', 'p', 'o', 't', '/'] + decimal(depot_id as nat) + seq![
            '/',
            'm',
            'a',
            'n',
            'i',
            'f',
            'e',
            's',
            't',
            '/',
        ] + decimal(manifest_id as nat) + seq!['/', '5', '/'] + decimal(request_code as nat),
{
    reveal_strlit("https://");
    reveal_strlit("/depot/");
    reveal_strlit("/manifest/");
    reveal_strlit("/5/");
    assert("https://"@ =~= seq!['h', 't', 't', 'p', 's', ':', '/', '/']);
    assert("/depot/"@ =~= seq!['/', 'd', 'e', 'p', 'o', 't', '/']);
    assert("/manifest/"@ =~= seq!['/', 'm', 'a', 'n', 'i', 'f', 'e', 's', 't', '/']);
    assert("/5/"@ =~= seq!['/', '5', '/']);
    let bare = manifest_location(vhost, depot_id, manifest_id, request_code, None);
    assert(bare =~= "https://"@ + vhost + "/depot/"@ + decimal(depot_id as nat) + "/manifest/"@
        + decimal(manifest_id as nat) + "/5/"@ + decimal(request_code as nat));
    assert(manifest_location(vhost, depot_id, manifest_id, request_code, Some(token)) =~= bare
        + token);
}

/// The address of a manifest on a CDN server, behind which the token goes
/// where the server wants one.
pub fn manifest_url(
    cdn: &CdnServer,
    depot_id: u32,
    manifest_id: u64,
    request_code: u64,
    cdn_auth_token: Option<&str>,
) -> (url: String)
    ensures
        url@ == manifest_location(
            cdn.vhost@,
            depot_id,
            manifest_id,
            request_code,
            match cdn_auth_token {
                Some(token) => Some(token@),
                None => None,
            },
        ),
{
    let mut url: String = "https://".to_string();
    url.append(cdn.vhost.as_str());
    url.append("/depot/");
    push_decimal(&mut url, depot_id as u64);
    url.append("/manifest/");
    push_decimal(&mut url, manifest_id);
    url.append("/5/");
    push_decimal(&mut url, request_code);
    match cdn_auth_token {
        Some(token) => url.append(token),
        None => {},
    }
    url
}

/// What the first entry of a ZIP archive holds.
pub open spec fn zip_extracted(data: Seq<u8>) -> Result<Seq<u8>, ErrorView> {
    match zip_entries(data) {
        Err(text) => refused(labelled("zip open"@, text)),
        Ok(count) => if count == 0 {
            refused("zip archive is empty"@)
        } else {
            match zip_first(data) {
                Err(text) => refused(labelled("zip entry"@, text)),
                Ok(Err(text)) => Err(ErrorView::Io(text)),
                Ok(Ok(content)) => Ok(content),
            }
        },
    }
}

/// What zlib makes of the data.
pub open spec fn zlib_unpacked(data: Seq<u8>) -> Result<Seq<u8>, ErrorView> {
    match zlib_inflated(data) {
        Ok(content) => Ok(content),
        Err(text) => Err(ErrorView::Io(text)),
    }
}

/// What a CDN server's answer to a request for a manifest holds: a ZIP archive
/// where it begins as one; else, where it is made of whole cipher blocks,
/// encrypted zlib data; else zlib data.
pub open spec fn manifest_unpacked(depot_key: Seq<u8>, data: Seq<u8>) -> Result<
    Seq<u8>,
    ErrorView,
> {
    if data.len() >= 2 && data[0] == 0x50 && data[1] == 0x4b {
        zip_extracted(data)
    } else if data.len() % 16 == 0 {
        match ecb_decrypted(depot_key, data) {
            Ok(decrypted) => zlib_unpacked(decrypted),
            Err(e) => Err(e),
        }
    } else {
        zlib_unpacked(data)
    }
}

/// A manifest that comes in a ZIP archive is what the first entry holds,
/// however many entries there are and whatever the key; an archive without
/// entries is refused.
pub proof fn zipped_manifest_is_its_first_entry(depot_key: Seq<u8>, data: Seq<u8>)
    requires
        data.len() >= 2,
        data[0] == 0x50,
        data[1] == 0x4B,
        zip_entries(data) is Ok,
    ensures
        zip_entries(data)->Ok_0 >= 1 ==> match zip_first(data) {
            Ok(Ok(content)) => manifest_unpacked(depot_key, data) == Ok::<Seq<u8>, ErrorView>(
                content,
            ),
            _ => manifest_unpacked(depot_key, data) is Err,
        },
        zip_entries(data)->Ok_0 == 0 ==> manifest_unpacked(depot_key, data) is Err,
{
}

/// A manifest that was packed by zlib, padded and encrypted block by block
/// comes back, unless its cipher begins like a ZIP archive.
pub proof fn encrypted_manifest_comes_back(
    depot_key: Seq<u8>,
    packed: Seq<u8>,
    cipher: Seq<u8>,
    content: Seq<u8>,
)
    requires
        depot_key.len() == 32,
        ecb_encrypts(depot_key, padded(packed), cipher),
        !(cipher[0] == 0x50 && cipher[1] == 0x4B),
        zlib_inflated(packed) == Ok::<Seq<u8>, Seq<char>>(content),
    ensures
        manifest_unpacked(depot_key, cipher) == Ok::<Seq<u8>, ErrorView>(content),
{
    ecb_round_trip(depot_key, packed, cipher);
}

/// A manifest that is neither a ZIP archive nor made of whole cipher blocks is
/// zlib data, and needs no key.
pub proof fn bare_manifest_is_zlib_data(depot_key: Seq<u8>, data: Seq<u8>)
    requires
        data.len() % 16 != 0,
        !(data.len() >= 2 && data[0] == 0x50 && data[1] == 0x4B),
    ensures
        match zlib_inflated(data) {
            Ok(content) => manifest_unpacked(depot_key, data) == Ok::<Seq<u8>, ErrorView>(content),
            Err(_) => manifest_unpacked(depot_key, data) is Err,
        },
{
}

/// Unpacks a CDN server's answer to a request for a manifest.
pub fn unpack_manifest(depot_key: &[u8], data: &[u8]) -> (r: Result<Vec<u8>, Error>)
    ensures
        viewed(r) == manifest_unpacked(depot_key@, data@),
{
    if data.len() >= 2 && data[0] == 0x50 && data[1] == 0x4b {
        extract_zip(data)
    } else if data.len() % 16 == 0 {
        match aes_ecb_decrypt(depot_key, data) {
            Ok(decrypted) => zlib_decompress(decrypted.as_slice()),
            Err(e) => Err(e),
        }
    } else {
        zlib_decompress(data)
    }
}

/// Takes the first entry out of a ZIP archive.
pub fn extract_zip(data: &[u8]) -> (r: Result<Vec<u8>, Error>)
    ensures
        viewed(r) == zip_extracted(data@),
{
    match zip_entry_count(data) {
        Err(text) => Err(Error::Other(label("zip open", text.as_str()))),
        Ok(count) => {
            if count == 0 {
                return Err(Error::other("zip archive is empty"));
            }
            match zip_first_entry(data) {
                Err(text) => Err(Error::Other(label("zip entry", text.as_str()))),
                Ok(Err(text)) => Err(Error::Io(text)),
                Ok(Ok(content)) => Ok(content),
            }
        },
    }
}

/// Unpacks zlib data.
pub fn zlib_decompress(data: &[u8]) -> (r: Result<Vec<u8>, Error>)
    ensures
        viewed(r) == zlib_unpacked(data@),
{
    match zlib_inflate(data) {
        Ok(content) => Ok(content),
        Err(text) => Err(Error::Io(text)),
    }
}

/// A section that begins at `offset`: four bytes of magic, four of length,
/// both least significant first, and the body. Where there is one, its magic,
/// its body and where it ends.
pub open spec fn section_at(data: Seq<u8>, offset: int) -> Result<
    (nat, Seq<u8>, int),
    ErrorView,
> {
    if offset + 8 > data.len() {
        refused("manifest section header truncated"@)
    } else {
        let magic = le_value(data.subrange(offset, offset + 4));
        let length = le_value(data.subrange(offset + 4, offset + 8));
        if offset + 8 + length > data.len() {
            refused("manifest section body truncated"@)
        } else {
            Ok((magic, data.subrange(offset + 8, offset + 8 + length), offset + 8 + length))
        }
    }
}

/// Reads the section that begins at `offset` and moves `offset` behind it; a
/// header whose body is cut short is still passed over.
pub fn read_section<'a>(data: &'a [u8], offset: &mut usize) -> (r: Result<(u32, &'a [u8]), Error>)
    ensures
        match r {
            Ok((magic, body)) => section_at(data@, *old(offset) as int) == Ok::<
                (nat, Seq<u8>, int),
                ErrorView,
            >((magic as nat, body@, *final(offset) as int)),
            Err(e) => section_at(data@, *old(offset) as int) == Err::<
                (nat, Seq<u8>, int),
                ErrorView,
            >(e@) && *final(offset) == if *old(offset) + 8 > data@.len() {
                *old(offset) as int
            } else {
                *old(offset) + 8
            },
        },
{
    let start: usize = *offset;
    if start > data.len() || data.len() - start < 8 {
        return Err(Error::other("manifest section header truncated"));
    }
    let magic: u32 = u32_at(data, start);
    let length: usize = u32_at(data, start + 4) as usize;
    *offset = start + 8;
    if length > data.len() - (start + 8) {
        return Err(Error::other("manifest section body truncated"));
    }
    let body: &'a [u8] = vstd::slice::slice_subrange(data, start + 8, start + 8 + length);
    *offset = start + 8 + length;
    Ok((magic, body))
}

/// The sections of a manifest, in their order.
#[derive(Debug, Clone, Copy, PartialEq, Eq, Structural)]
pub enum SectionKind {
    Payload,
    Metadata,
    Signature,
}

/// What a section of this kind begins with.
pub open spec fn section_magic(kind: SectionKind) -> u32 {
    match kind {
        SectionKind::Payload => PAYLOAD_MAGIC,
        SectionKind::Metadata => METADATA_MAGIC,
        SectionKind::Signature => SIGNATURE_MAGIC,
    }
}

/// What a section of this kind is called.
pub open spec fn section_name(kind: SectionKind) -> Seq<char> {
    match kind {
        SectionKind::Payload => "payload"@,
        SectionKind::Metadata => "metadata"@,
        SectionKind::Signature => "signature"@,
    }
}

/// The section of this kind that begins at `offset`, and where it ends.
pub open spec fn kind_at(data: Seq<u8>, offset: int, kind: SectionKind) -> Result<
    (Seq<u8>, int),
    ErrorView,
> {
    match section_at(data, offset) {
        Err(e) => Err(e),
        Ok((magic, body, end)) => if magic == section_magic(kind) {
            Ok((body, end))
        } else {
            refused(
                "bad "@ + section_name(kind) + " magic: expected "@ + hex_digits(
                    section_magic(kind) as nat,
                    8,
                ) + ", got "@ + hex_digits(magic, 8),
            )
        },
    }
}

/// The bodies of the sections of these kinds that begin at `offset`, up to the
/// first that is not as it should be, and what is wrong with that one.
pub open spec fn sections_from(data: Seq<u8>, offset: int, kinds: Seq<SectionKind>) -> (
    Seq<Seq<u8>>,
    Option<ErrorView>,
)
    decreases kinds.len(),
{
    if kinds.len() == 0 {
        (Seq::empty(), None)
    } else {
        match kind_at(data, offset, kinds[0]) {
            Err(e) => (Seq::empty(), Some(e)),
            Ok((body, end)) => {
                let (bodies, failure) = sections_from(data, end, kinds.drop_first());
                (seq![body] + bodies, failure)
            },
        }
    }
}

/// A section as bytes: magic, length and body.
pub open spec fn section_bytes(kind: SectionKind, body: Seq<u8>) -> Seq<u8> {
    le_bytes(section_magic(kind) as nat, 4) + le_bytes(body.len(), 4) + body
}

/// A section that stands anywhere in a manifest is read back, whatever stands
/// before it and behind it.
proof fn lemma_section_read_back(
    before: Seq<u8>,
    kind: SectionKind,
    body: Seq<u8>,
    behind: Seq<u8>,
)
    requires
        body.len() < 0x1_0000_0000,
    ensures
        kind_at(before + section_bytes(kind, body) + behind, before.len() as int, kind) == Ok::<
            (Seq<u8>, int),
            ErrorView,
        >((body, (before + section_bytes(kind, body)).len() as int)),
{
    let data = before + section_bytes(kind, body) + behind;
    let at = before.len() as int;
    reveal_with_fuel(byte_power, 5);
    lemma_le_round_trip(section_magic(kind) as nat, 4);
    lemma_le_round_trip(body.len(), 4);
    assert(data.subrange(at, at + 4) =~= le_bytes(section_magic(kind) as nat, 4));
    assert(data.subrange(at + 4, at + 8) =~= le_bytes(body.len(), 4));
    assert(data.subrange(at + 8, at + 8 + body.len()) =~= body);
}

/// Parting a manifest gives back the bodies that its sections were made of.
pub proof fn sections_are_read_back(
    payload: Seq<u8>,
    metadata: Seq<u8>,
    signature: Seq<u8>,
    behind: Seq<u8>,
)
    requires
        payload.len() < 0x1_0000_0000,
        metadata.len() < 0x1_0000_0000,
        signature.len() < 0x1_0000_0000,
    ensures
        sections_from(
            section_bytes(SectionKind::Payload, payload) + section_bytes(
                SectionKind::Metadata,
                metadata,
            ) + section_bytes(SectionKind::Signature, signature) + behind,
            0,
            manifest_kinds(),
        ) == (seq![payload, metadata, signature], None::<ErrorView>),
{
    let first = section_bytes(SectionKind::Payload, payload);
    let second = section_bytes(SectionKind::Metadata, metadata);
    let third = section_bytes(SectionKind::Signature, signature);
    let data = first + second + third + behind;
    let none = Seq::<u8>::empty();
    lemma_section_read_back(none, SectionKind::Payload, payload, second + third + behind);
    assert(none + first + (second + third + behind) =~= data);
    assert(none + first =~= first);
    lemma_section_read_back(first, SectionKind::Metadata, metadata, third + behind);
    assert(first + second + (third + behind) =~= data);
    lemma_section_read_back(first + second, SectionKind::Signature, signature, behind);
    let kinds = manifest_kinds();
    assert(kinds.drop_first() =~= seq![SectionKind::Metadata, SectionKind::Signature]);
    assert(kinds.drop_first().drop_first() =~= seq![SectionKind::Signature]);
    assert(kinds.drop_first().drop_first().drop_first() =~= Seq::<SectionKind>::empty());
    let end = (first + second + third).len() as int;
    assert(sections_from(data, end, Seq::<SectionKind>::empty()) == (
        Seq::<Seq<u8>>::empty(),
        None::<ErrorView>,
    ));
    assert(sections_from(data, (first + second).len() as int, kinds.drop_first().drop_first()) == (
        seq![signature] + Seq::<Seq<u8>>::empty(),
        None::<ErrorView>,
    ));
    assert(seq![signature] + Seq::<Seq<u8>>::empty() =~= seq![signature]);
    assert(sections_from(data, first.len() as int, kinds.drop_first()) == (
        seq![metadata] + seq![signature],
        None::<ErrorView>,
    ));
    assert(seq![payload] + (seq![metadata] + seq![signature]) =~= seq![
        payload,
        metadata,
        signature,
    ]);
}

/// Data that can be parted into the three sections is made of them: each
/// behind its magic and its length, in this order and from the beginning.
/// Whatever is not so made is refused.
pub proof fn parted_manifest_was_made_of_its_sections(data: Seq<u8>)
    ensures
        match sections_from(data, 0, manifest_kinds()) {
            (bodies, None) => {
                &&& bodies.len() == 3
                &&& (seq![0xD0u8, 0x17, 0xF6, 0x71] + le_bytes(bodies[0].len(), 4) + bodies[0]
                    + seq![0xBEu8, 0x12, 0x48, 0x1F] + le_bytes(bodies[1].len(), 4) + bodies[1]
                    + seq![0x17u8, 0xB8, 0x81, 0x1B] + le_bytes(bodies[2].len(), 4)
                    + bodies[2]).is_prefix_of(data)
            },
            (bodies, Some(_)) => bodies.len() < 3,
        },
{
    let kinds = manifest_kinds();
    let none = Seq::<SectionKind>::empty();
    assert(kinds.drop_first() =~= seq![SectionKind::Metadata, SectionKind::Signature]);
    assert(kinds.drop_first().drop_first() =~= seq![SectionKind::Signature]);
    assert(kinds.drop_first().drop_first().drop_first() =~= none);
    lemma_magic_bytes();
    reveal_with_fuel(sections_from, 4);
    if let Ok((payload, first)) = kind_at(data, 0, SectionKind::Payload) {
        lemma_section_was_written(data, 0, SectionKind::Payload);
        if let Ok((metadata, second)) = kind_at(data, first, SectionKind::Metadata) {
            lemma_section_was_written(data, first, SectionKind::Metadata);
            if let Ok((signature, third)) = kind_at(data, second, SectionKind::Signature) {
                lemma_section_was_written(data, second, SectionKind::Signature);
                let one = section_bytes(SectionKind::Payload, payload);
                let two = section_bytes(SectionKind::Metadata, metadata);
                let three = section_bytes(SectionKind::Signature, signature);
                assert(data.take(third) =~= one + two + three);
                assert(sections_from(data, third, none) == (
                    Seq::<Seq<u8>>::empty(),
                    None::<ErrorView>,
                ));
                let tail = seq![signature] + Seq::<Seq<u8>>::empty();
                assert(sections_from(data, second, kinds.drop_first().drop_first()) == (
                    tail,
                    None::<ErrorView>,
                ));
                assert(sections_from(data, first, kinds.drop_first()) == (
                    seq![metadata] + tail,
                    None::<ErrorView>,
                ));
                let bodies = seq![payload] + (seq![metadata] + tail);
                assert(bodies[0] == payload && bodies[1] == metadata && bodies[2] == signature);
                let whole = seq![0xD0u8, 0x17, 0xF6, 0x71] + le_bytes(payload.len(), 4) + payload
                    + seq![0xBEu8, 0x12, 0x48, 0x1F] + le_bytes(metadata.len(), 4) + metadata
                    + seq![0x17u8, 0xB8, 0x81, 0x1B] + le_bytes(signature.len(), 4) + signature;
                assert(whole =~= one + two + three);
                assert(data.subrange(0, whole.len() as int) =~= whole);
                assert(sections_from(data, 0, kinds) == (bodies, None::<ErrorView>));
            }
        }
    }
}

/// The four bytes that each section of a manifest begins with.
pub proof fn lemma_magic_bytes()
    ensures
        le_bytes(section_magic(SectionKind::Payload) as nat, 4) == seq![0xD0u8, 0x17, 0xF6, 0x71],
        le_bytes(section_magic(SectionKind::Metadata) as nat, 4) == seq![0xBEu8, 0x12, 0x48, 0x1F],
        le_bytes(section_magic(SectionKind::Signature) as nat, 4) == seq![0x17u8, 0xB8, 0x81, 0x1B],
{
    reveal_with_fuel(le_bytes, 5);
    assert(le_bytes(section_magic(SectionKind::Payload) as nat, 4) =~= seq![
        0xD0u8,
        0x17,
        0xF6,
        0x71,
    ]);
    assert(le_bytes(section_magic(SectionKind::Metadata) as nat, 4) =~= seq![
        0xBEu8,
        0x12,
        0x48,
        0x1F,
    ]);
    assert(le_bytes(section_magic(SectionKind::Signature) as nat, 4) =~= seq![
        0x17u8,
        0xB8,
        0x81,
        0x1B,
    ]);
}

proof fn lemma_section_was_written(data: Seq<u8>, at: int, kind: SectionKind)
    requires
        0 <= at,
        kind_at(data, at, kind) is Ok,
    ensures
        ({
            let (body, end) = kind_at(data, at, kind)->Ok_0;
            at <= end <= data.len() && data.subrange(at, end) == section_bytes(kind, body)
        }),
{
    let (body, end) = kind_at(data, at, kind)->Ok_0;
    let magic = data.subrange(at, at + 4);
    let length = data.subrange(at + 4, at + 8);
    read_bytes_are_written_back(magic);
    read_bytes_are_written_back(length);
    assert(data.subrange(at, end) =~= magic + length + body);
}

/// The kinds of section, in the order in which a manifest has them.
pub open spec fn manifest_kinds() -> Seq<SectionKind> {
    seq![SectionKind::Payload, SectionKind::Metadata, SectionKind::Signature]
}

/// The sections of a manifest as bytes.
#[derive(Debug)]
pub struct ManifestSections<'a> {
    /// The bodies, in order, up to the first section that is not as it should
    /// be.
    pub bodies: Vec<&'a [u8]>,
    /// What is wrong with that section.
    pub failure: Option<Error>,
}

impl<'a> View for ManifestSections<'a> {
    type V = (Seq<Seq<u8>>, Option<ErrorView>);

    open spec fn view(&self) -> (Seq<Seq<u8>>, Option<ErrorView>) {
        (
            self.bodies@.map_values(|body: &'a [u8]| body@),
            match self.failure {
                Some(e) => Some(e@),
                None => None,
            },
        )
    }
}

/// Reads the section of this kind that begins at `offset` and moves `offset`
/// behind it.
fn read_kind<'a>(data: &'a [u8], offset: &mut usize, kind: SectionKind) -> (r: Result<
    &'a [u8],
    Error,
>)
    ensures
        match r {
            Ok(body) => kind_at(data@, *old(offset) as int, kind) == Ok::<
                (Seq<u8>, int),
                ErrorView,
            >((body@, *final(offset) as int)),
            Err(e) => kind_at(data@, *old(offset) as int, kind) == Err::<
                (Seq<u8>, int),
                ErrorView,
            >(e@),
        },
{
    let (magic, body): (u32, &'a [u8]) = match read_section(data, offset) {
        Ok(section) => section,
        Err(e) => return Err(e),
    };
    let (name, expected): (&str, u32) = match kind {
        SectionKind::Payload => ("payload", PAYLOAD_MAGIC),
        SectionKind::Metadata => ("metadata", METADATA_MAGIC),
        SectionKind::Signature => ("signature", SIGNATURE_MAGIC),
    };
    if magic != expected {
        let mut text: String = "bad ".to_string();
        text.append(name);
        text.append(" magic: expected ");
        push_hex(&mut text, expected as u64, 8);
        text.append(", got ");
        push_hex(&mut text, magic as u64, 8);
        return Err(Error::Other(text));
    }
    Ok(body)
}

/// Parts a manifest into its sections: payload, metadata and signature.
pub fn parse_manifest<'a>(data: &'a [u8]) -> (sections: ManifestSections<'a>)
    ensures
        sections@ == sections_from(data@, 0, manifest_kinds()),
{
    let mut offset: usize = 0;
    let mut bodies: Vec<&'a [u8]> = Vec::new();
    let mut failure: Option<Error> = None;
    let kinds: [SectionKind; 3] = [
        SectionKind::Payload,
        SectionKind::Metadata,
        SectionKind::Signature,
    ];
    let ghost view = |body: &'a [u8]| body@;
    let mut at: usize = 0;
    proof {
        assert(kinds@ =~= manifest_kinds());
        assert(kinds@.skip(0) =~= kinds@);
        assert(bodies@.map_values(view) =~= Seq::<Seq<u8>>::empty());
        let (rest, why) = sections_from(data@, 0, manifest_kinds());
        assert(Seq::<Seq<u8>>::empty() + rest =~= rest);
    }
    while at < 3
        invariant
            at <= 3,
            kinds@ == manifest_kinds(),
            view == (|body: &'a [u8]| body@),
            failure is Some ==> at == 3,
            failure is None ==> sections_from(data@, 0, manifest_kinds()) == (
                bodies@.map_values(view) + sections_from(data@, offset as int, kinds@.skip(at as int)).0,
                sections_from(data@, offset as int, kinds@.skip(at as int)).1,
            ),
            failure matches Some(e) ==> sections_from(data@, 0, manifest_kinds()) == (
                bodies@.map_values(view),
                Some(e@),
            ),
        decreases 3 - at,
    {
        let ghost start = offset as int;
        let ghost before = bodies@;
        let ghost rest = kinds@.skip(at as int);
        match read_kind(data, &mut offset, kinds[at]) {
            Ok(body) => {
                bodies.push(body);
                proof {
                    assert(rest.drop_first() =~= kinds@.skip(at + 1));
                    let tail = sections_from(data@, offset as int, kinds@.skip(at + 1)).0;
                    assert(bodies@.map_values(view) =~= before.map_values(view).push(body@));
                    assert(before.map_values(view) + (seq![body@] + tail) =~= bodies@.map_values(
                        view,
                    ) + tail);
                }
                at = at + 1;
            },
            Err(e) => {
                proof {
                    assert(before.map_values(view) + Seq::<Seq<u8>>::empty() =~= before.map_values(
                        view,
                    ));
                }
                failure = Some(e);
                at = 3;
            },
        }
    }
    proof {
        if failure is None {
            assert(kinds@.skip(3) =~= Seq::<SectionKind>::empty());
            assert(bodies@.map_values(view) + Seq::<Seq<u8>>::empty() =~= bodies@.map_values(view));
        }
    }
    ManifestSections { bodies, failure }
}

/// The manifest that the sections make once each body has been decoded: the
/// first failure wins, be it one of decoding or of the sections themselves.
pub fn assemble_manifest(
    payload: Option<Result<ContentManifestPayload, Error>>,
    metadata: Option<Result<ContentManifestMetadata, Error>>,
    signature: Option<Result<ContentManifestSignature, Error>>,
    failure: Option<Error>,
) -> (r: Result<DepotManifest, Error>)
    requires
        signature is Some ==> metadata is Some,
        metadata is Some ==> payload is Some,
        failure is None <==> signature is Some,
    ensures
        match (payload, metadata, signature) {
            (Some(Err(e)), _, _) => r == Err::<DepotManifest, Error>(e),
            (Some(Ok(_)), Some(Err(e)), _) => r == Err::<DepotManifest, Error>(e),
            (Some(Ok(_)), Some(Ok(_)), Some(Err(e))) => r == Err::<DepotManifest, Error>(e),
            (Some(Ok(payload)), Some(Ok(metadata)), Some(Ok(signature))) => r == Ok::<
                DepotManifest,
                Error,
            >(DepotManifest { payload, metadata, signature }),
            _ => r == Err::<DepotManifest, Error>(failure->0),
        },
{
    let payload: ContentManifestPayload = match payload {
        Some(Ok(decoded)) => decoded,
        Some(Err(e)) => return Err(e),
        None => return Err(failure.unwrap()),
    };
    let metadata: ContentManifestMetadata = match metadata {
        Some(Ok(decoded)) => decoded,
        Some(Err(e)) => return Err(e),
        None => return Err(failure.unwrap()),
    };
    let signature: ContentManifestSignature = match signature {
        Some(Ok(decoded)) => decoded,
        Some(Err(e)) => return Err(e),
        None => return Err(failure.unwrap()),
    };
    Ok(DepotManifest { payload, metadata, signature })
}

} // verus!
