use std::io::Write;

use aes::cipher::{BlockEncrypt, KeyInit};
use steamdepot::cdn::CdnServer;
use steamdepot::error::Error;
use steamdepot::manifest::{
    assemble_manifest, extract_zip, manifest_url, parse_manifest, read_section, unpack_manifest,
    zlib_decompress, METADATA_MAGIC, PAYLOAD_MAGIC, SIGNATURE_MAGIC,
};
use steamdepot::proto::{
    ContentManifestMetadata, ContentManifestPayload, ContentManifestSignature,
};

fn section(magic: u32, body: &[u8]) -> Vec<u8> {
    let mut data = magic.to_le_bytes().to_vec();
    data.extend_from_slice(&(body.len() as u32).to_le_bytes());
    data.extend_from_slice(body);
    data
}

fn sample() -> Vec<u8> {
    let mut data = section(PAYLOAD_MAGIC, b"files");
    data.extend_from_slice(&section(METADATA_MAGIC, b""));
    data.extend_from_slice(&section(SIGNATURE_MAGIC, b"signed"));
    data
}

fn zlib(data: &[u8]) -> Vec<u8> {
    let mut encoder = flate2::write::ZlibEncoder::new(Vec::new(), flate2::Compression::default());
    encoder.write_all(data).unwrap();
    encoder.finish().unwrap()
}

fn zipped(entries: &[(&str, &[u8])]) -> Vec<u8> {
    let mut writer = zip::ZipWriter::new(std::io::Cursor::new(Vec::new()));
    for (name, data) in entries {
        writer.start_file(*name, zip::write::SimpleFileOptions::default()).unwrap();
        writer.write_all(data).unwrap();
    }
    writer.finish().unwrap().into_inner()
}

#[test]
fn sections_come_back_in_order() {
    let data = sample();
    let sections = parse_manifest(&data);
    assert!(sections.failure.is_none());
    assert_eq!(sections.bodies, vec![&b"files"[..], &b""[..], &b"signed"[..]]);
}

#[test]
fn what_follows_the_signature_is_left_alone() {
    let mut data = sample();
    data.extend_from_slice(b"trailer");
    let sections = parse_manifest(&data);
    assert!(sections.failure.is_none());
    assert_eq!(sections.bodies.len(), 3);
}

#[test]
fn a_wrong_magic_is_named() {
    let data = section(0xDEADBEEF, b"");
    let sections = parse_manifest(&data);
    assert!(sections.bodies.is_empty());
    assert_eq!(
        sections.failure.unwrap().message(),
        "bad payload magic: expected 71f617d0, got deadbeef"
    );
    let mut data = section(PAYLOAD_MAGIC, b"p");
    data.extend_from_slice(&section(0x1, b""));
    let sections = parse_manifest(&data);
    assert_eq!(sections.bodies, vec![&b"p"[..]]);
    assert_eq!(
        sections.failure.unwrap().message(),
        "bad metadata magic: expected 1f4812be, got 00000001"
    );
    let mut data = section(PAYLOAD_MAGIC, b"p");
    data.extend_from_slice(&section(METADATA_MAGIC, b"m"));
    data.extend_from_slice(&section(PAYLOAD_MAGIC, b""));
    let sections = parse_manifest(&data);
    assert_eq!(
        sections.failure.unwrap().message(),
        "bad signature magic: expected 1b81b817, got 71f617d0"
    );
}

#[test]
fn a_cut_manifest_is_refused() {
    let data = sample();
    let sections = parse_manifest(&data[..7]);
    assert_eq!(sections.failure.unwrap().message(), "manifest section header truncated");
    let sections = parse_manifest(&data[..12]);
    assert_eq!(sections.failure.unwrap().message(), "manifest section body truncated");
    let sections = parse_manifest(&data[..data.len() - 1]);
    assert_eq!(sections.bodies.len(), 2);
    assert_eq!(sections.failure.unwrap().message(), "manifest section body truncated");
}

#[test]
fn a_section_moves_the_offset() {
    let data = section(5, b"abc");
    let mut offset = 0;
    let (magic, body) = read_section(&data, &mut offset).unwrap();
    assert_eq!((magic, body, offset), (5, &b"abc"[..], 11));
    assert!(read_section(&data, &mut offset).is_err());
    assert_eq!(offset, 11);
    let mut offset = usize::MAX;
    assert!(read_section(&data, &mut offset).is_err());
    let mut offset = 0;
    assert!(read_section(&data[..10], &mut offset).is_err());
    assert_eq!(offset, 8);
}

#[test]
fn the_first_failure_wins() {
    let decode = || Error::Decode("bad".to_string());
    let framing = || Error::Other("cut".to_string());
    let r = assemble_manifest(Some(Err(decode())), None, None, Some(framing()));
    assert!(matches!(r, Err(Error::Decode(_))));
    let r = assemble_manifest(None, None, None, Some(framing()));
    assert!(matches!(r, Err(Error::Other(_))));
    let r = assemble_manifest(
        Some(Ok(ContentManifestPayload::default())),
        Some(Err(decode())),
        Some(Ok(ContentManifestSignature::default())),
        None,
    );
    assert!(matches!(r, Err(Error::Decode(_))));
    let r = assemble_manifest(
        Some(Ok(ContentManifestPayload::default())),
        Some(Ok(ContentManifestMetadata { depot_id: Some(4), ..Default::default() })),
        Some(Ok(ContentManifestSignature::default())),
        None,
    );
    assert_eq!(r.unwrap().metadata.depot_id, Some(4));
}

#[test]
fn a_manifest_is_unpacked_from_zip() {
    let data = zipped(&[("z", b"manifest bytes"), ("other", b"no")]);
    assert_eq!(unpack_manifest(&[], &data).unwrap(), b"manifest bytes");
    assert_eq!(extract_zip(&data).unwrap(), b"manifest bytes");
}

#[test]
fn a_broken_or_empty_zip_is_refused() {
    let e = unpack_manifest(&[], b"PK\x03\x04 nothing else").unwrap_err();
    assert!(e.message().starts_with("zip open: "), "{}", e.message());
    let e = extract_zip(&zipped(&[])).unwrap_err();
    assert_eq!(e.message(), "zip archive is empty");
}

#[test]
fn a_manifest_is_unpacked_from_zlib() {
    let mut text = b"some manifest".to_vec();
    let mut data = zlib(&text);
    while data.len() % 16 == 0 {
        text.push(b'!');
        data = zlib(&text);
    }
    assert_eq!(unpack_manifest(&[], &data).unwrap(), text);
    assert_eq!(zlib_decompress(&data).unwrap(), text);
    assert!(matches!(zlib_decompress(b"not zlib"), Err(Error::Io(_))));
}

#[test]
fn a_manifest_is_decrypted_where_it_has_whole_blocks() {
    let key = [8u8; 32];
    let packed = zlib(b"an encrypted manifest");
    let count = 16 - packed.len() % 16;
    let mut data = packed.clone();
    data.resize(packed.len() + count, count as u8);
    let cipher = aes::Aes256::new_from_slice(&key).unwrap();
    for block in data.chunks_exact_mut(16) {
        cipher.encrypt_block(aes::Block::from_mut_slice(block));
    }
    assert_eq!(unpack_manifest(&key, &data).unwrap(), b"an encrypted manifest");
    let e = unpack_manifest(&[1u8; 4], &data).unwrap_err();
    assert_eq!(e.message(), "depot key must be 32 bytes, got 4");
}

#[test]
fn a_manifest_has_an_address() {
    let server = CdnServer {
        host: "h".to_string(),
        vhost: "cdn.example".to_string(),
        server_type: String::new(),
        load: 0,
        cell_id: 0,
    };
    assert_eq!(
        manifest_url(&server, 1, 22, 333, None),
        "https://cdn.example/depot/1/manifest/22/5/333"
    );
    assert_eq!(
        manifest_url(&server, 1, 22, 333, Some("?token=x")),
        "https://cdn.example/depot/1/manifest/22/5/333?token=x"
    );
}
