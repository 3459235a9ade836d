use std::path::Path;

use aes::cipher::{BlockEncrypt, BlockEncryptMut, KeyInit, KeyIvInit};
use base64::Engine;
use cbc::cipher::block_padding::Pkcs7;
use steamdepot::manifest::DepotManifest;
use steamdepot::paths::{
    check_for_collisions, decrypt_manifest_filenames, join_path, place_of, PathOptions,
};
use steamdepot::proto::{ContentManifestPayload, FileMapping};

fn mapping(filename: &str, flags: u32, size: u64) -> FileMapping {
    FileMapping {
        filename: Some(filename.to_string()),
        flags: Some(flags),
        size: Some(size),
        ..Default::default()
    }
}

fn manifest(mappings: Vec<FileMapping>) -> DepotManifest {
    DepotManifest {
        payload: ContentManifestPayload { mappings },
        metadata: Default::default(),
        signature: Default::default(),
    }
}

fn encrypted_name(key: &[u8], name: &str) -> String {
    let iv = [4u8; 16];
    let cipher = aes::Aes256::new_from_slice(key).unwrap();
    let mut block = aes::Block::clone_from_slice(&iv);
    cipher.encrypt_block(&mut block);
    let plain = name.as_bytes();
    let mut buf = vec![0u8; plain.len() + 16];
    buf[..plain.len()].copy_from_slice(plain);
    let length = cbc::Encryptor::<aes::Aes256>::new_from_slices(key, &iv)
        .unwrap()
        .encrypt_padded_mut::<Pkcs7>(&mut buf, plain.len())
        .unwrap()
        .len();
    let mut data = block.to_vec();
    data.extend_from_slice(&buf[..length]);
    base64::engine::general_purpose::STANDARD.encode(&data)
}

#[test]
fn separators_are_normalized_in_both_modes() {
    for options in [PathOptions::preserve_case(), PathOptions::lowercase()] {
        assert!(!options.relative("addons\\sub\\x.pbo").contains('\\'));
    }
}

#[test]
fn preserve_case_leaves_casing_alone() {
    assert_eq!(
        PathOptions::preserve_case().relative("Addons\\AIMEE_main.pbo"),
        "Addons/AIMEE_main.pbo"
    );
}

#[test]
fn lowercase_folds_the_whole_path() {
    assert_eq!(
        PathOptions::lowercase().relative("Addons\\AIMEE_main.pbo"),
        "addons/aimee_main.pbo"
    );
}

#[test]
fn casing_is_preserved_by_default() {
    assert_eq!(PathOptions::default(), PathOptions::preserve_case());
    assert_ne!(PathOptions::default(), PathOptions::lowercase());
}

#[test]
fn normal_paths_stay_as_they_are() {
    let kept = PathOptions::preserve_case();
    let folded = PathOptions::lowercase();
    let name = "Addons\\Sub/AIMEE_main[Z@`{].pbo";
    assert_eq!(kept.relative(name), "Addons/Sub/AIMEE_main[Z@`{].pbo");
    assert_eq!(folded.relative(name), "addons/sub/aimee_main[z@`{].pbo");
    assert_eq!(kept.relative(&kept.relative(name)), kept.relative(name));
    assert_eq!(folded.relative(&kept.relative(name)), folded.relative(name));
    assert_eq!(folded.relative(&folded.relative(name)), folded.relative(name));
}

#[test]
fn paths_to_the_same_place_share_a_text() {
    assert_eq!(place_of("a/b"), "_/a/b/");
    for path in ["a//b", "a/./b/.", "a/b//"] {
        assert_eq!(place_of(path), place_of("a/b"), "{path}");
    }
    assert_eq!(place_of("/a/b"), "/a/b/");
    assert_eq!(place_of("a/../b"), "_/a/../b/");
    assert_eq!(place_of("./a"), "./a/");
    assert_eq!(place_of("./././a"), place_of("./a"));
    assert_eq!(place_of(".a"), "_/.a/");
    assert_eq!(place_of("."), "./");
    assert_eq!(place_of(""), "_/");
    assert_eq!(place_of("//."), "/");
}

#[test]
fn paths_are_joined() {
    for (dir, path) in
        [("a", "b"), ("a/", "b"), ("", "b"), ("a", "/b"), ("a", ""), ("", ""), ("/", "./b"), (".", "b")]
    {
        let joined = Path::new(dir).join(path);
        assert_eq!(join_path(dir, path), joined.to_str().unwrap());
    }
    let paths = ["a/b", "a//b/", "./a/b", "/a/b", "//a/./b", "a/../b", ".", "", "./", "/", ".a", "a"];
    for a in paths {
        for b in paths {
            assert_eq!(place_of(a) == place_of(b), Path::new(a) == Path::new(b), "{a} {b}");
        }
    }
}

#[test]
fn folding_goes_beyond_ascii() {
    assert_eq!(PathOptions::lowercase().relative("\u{c4}\\\u{130}"), "\u{e4}/i\u{307}");
    assert_eq!(PathOptions::preserve_case().relative(""), "");
}

#[test]
fn collisions_are_only_possible_when_folding() {
    let m = manifest(vec![
        mapping("addons/Foo.pbo", 0, 1),
        mapping("addons/foo.pbo", 0, 1),
    ]);
    // Preserving case, the two are simply different files.
    assert!(check_for_collisions(&m, PathOptions::preserve_case()).is_ok());

    // Folding, one would silently overwrite the other -- refuse, and
    // name both paths so the depot can be identified.
    let err = check_for_collisions(&m, PathOptions::lowercase()).unwrap_err();
    let message = err.message();
    assert!(message.contains("Foo.pbo"), "{message}");
    assert!(message.contains("foo.pbo"), "{message}");
}

#[test]
fn a_collision_is_told_in_full() {
    let m = manifest(vec![
        mapping("x", 0, 1),
        mapping("a\\B\"", 0, 1),
        mapping("A/b\"", 0, 1),
        mapping("X", 0, 1),
    ]);
    let err = check_for_collisions(&m, PathOptions::lowercase()).unwrap_err();
    assert_eq!(
        err.message(),
        "cannot lowercase this depot: \"a\\\\B\\\"\" and \"A/b\\\"\" both become \"a/b\\\"\", \
         so one would overwrite the other"
    );
}

#[test]
fn an_ordinary_depot_has_no_collisions() {
    let m = manifest(vec![
        mapping("Addons/AIMEE_main.pbo", 0, 1),
        mapping("Addons/AIMEE_group.pbo", 0, 1),
    ]);
    assert!(check_for_collisions(&m, PathOptions::lowercase()).is_ok());
}

#[test]
fn a_repeated_identical_filename_is_not_a_collision() {
    // Same name twice is not two files fighting over one path.
    let m = manifest(vec![
        mapping("addons/x.pbo", 0, 1),
        mapping("addons/x.pbo", 0, 1),
    ]);
    assert!(check_for_collisions(&m, PathOptions::lowercase()).is_ok());
}

#[test]
fn nameless_mappings_collide_with_nothing() {
    let m = manifest(vec![FileMapping::default(), mapping("", 0, 1), FileMapping::default()]);
    assert!(check_for_collisions(&m, PathOptions::lowercase()).is_ok());
}

#[test]
fn names_are_decrypted_in_place_and_once() {
    let key = [0x55u8; 32];
    let mut m = manifest(vec![
        mapping(&encrypted_name(&key, "Data\\one.bin"), 0, 7),
        FileMapping::default(),
        mapping(&encrypted_name(&key, "two.bin"), 0x20, 8),
    ]);
    m.metadata.filenames_encrypted = Some(true);
    decrypt_manifest_filenames(&mut m, &key).unwrap();
    assert_eq!(m.metadata.filenames_encrypted, Some(false));
    assert_eq!(m.payload.mappings[0].filename.as_deref(), Some("Data\\one.bin"));
    assert_eq!(m.payload.mappings[0].size, Some(7));
    assert!(m.payload.mappings[1].filename.is_none());
    assert_eq!(m.payload.mappings[2].filename.as_deref(), Some("two.bin"));
    assert_eq!(m.payload.mappings[2].flags, Some(0x20));
    // A second pass, under any key, finds nothing to do.
    decrypt_manifest_filenames(&mut m, &[0u8; 3]).unwrap();
    assert_eq!(m.payload.mappings[0].filename.as_deref(), Some("Data\\one.bin"));
}

#[test]
fn plain_names_are_left_alone() {
    for flag in [None, Some(false)] {
        let mut m = manifest(vec![mapping("plain.txt", 0, 1)]);
        m.metadata.filenames_encrypted = flag;
        decrypt_manifest_filenames(&mut m, &[]).unwrap();
        assert_eq!(m.payload.mappings[0].filename.as_deref(), Some("plain.txt"));
        assert_eq!(m.metadata.filenames_encrypted, flag);
    }
}

#[test]
fn decryption_stops_at_the_first_bad_name() {
    let key = [0x55u8; 32];
    let good = encrypted_name(&key, "good");
    let mut m = manifest(vec![
        mapping(&good, 0, 1),
        mapping("AAAA", 0, 1),
        mapping(&good, 0, 1),
    ]);
    m.metadata.filenames_encrypted = Some(true);
    let e = decrypt_manifest_filenames(&mut m, &key).unwrap_err();
    assert_eq!(e.message(), "encrypted filename too short (3 bytes, need at least 32)");
    assert_eq!(m.metadata.filenames_encrypted, Some(true));
    assert_eq!(m.payload.mappings[0].filename.as_deref(), Some("good"));
    assert_eq!(m.payload.mappings[1].filename.as_deref(), Some("AAAA"));
    assert_eq!(m.payload.mappings[2].filename.as_deref(), Some(good.as_str()));
}
