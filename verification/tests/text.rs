use steamdepot::error::{Error, HttpFailure};
use steamdepot::text::{
    hex_encode, push_aligned, push_decimal, push_hex, push_joined, push_prefixed_hex,
    push_signed, same_ignoring_case, same_text,
};
use steamdepot::wire::{begins_with, copy_range, i32_at, push_le, signed, u32_at, u64_at};

fn written(write: impl Fn(&mut String)) -> String {
    let mut text = String::from(">");
    write(&mut text);
    text
}

#[test]
fn numerals_are_written_as_usual() {
    for n in [0u64, 9, 10, 1234567890, u64::MAX] {
        assert_eq!(written(|s| push_decimal(s, n)), format!(">{n}"));
    }
    for n in [0i64, -1, 77, i64::MIN, i64::MAX] {
        assert_eq!(written(|s| push_signed(s, n)), format!(">{n}"));
    }
    assert_eq!(written(|s| push_hex(s, 0xBEEF, 8)), ">0000beef");
    for n in [0u32, 0x40, 0xFFFF, 0x12345, u32::MAX] {
        assert_eq!(written(|s| push_prefixed_hex(s, n)), format!(">{n:#06x}"));
    }
    for n in [5u64, 1234567, 12345678] {
        assert_eq!(written(|s| push_aligned(s, n, 7)), format!(">{n:>7}"));
    }
    assert_eq!(written(|s| push_joined(s, &[1, 22, 3], ", ")), ">1, 22, 3");
    assert_eq!(written(|s| push_joined(s, &[], ", ")), ">");
    assert_eq!(hex_encode(&[0, 0xAB, 0x7F]), "00ab7f");
}

#[test]
fn texts_are_held_against_each_other() {
    assert!(same_text("\u{e4}b", "\u{e4}b"));
    assert!(!same_text("ab", "aB"));
    assert!(!same_text("ab", "abc"));
    assert!(same_ignoring_case("aBz", "AbZ"));
    assert!(!same_ignoring_case("\u{e4}", "\u{c4}"));
}

#[test]
fn numbers_are_read_back_from_bytes() {
    let mut data = vec![7u8];
    push_le(&mut data, 0x0123_4567_89AB_CDEF, 8);
    push_le(&mut data, u32::MAX as u64, 4);
    push_le(&mut data, 0x1_0000_0002, 4);
    assert_eq!(data.len(), 17);
    assert_eq!(u64_at(&data, 1), 0x0123_4567_89AB_CDEF);
    assert_eq!(u32_at(&data, 1), 0x89AB_CDEF);
    assert_eq!(i32_at(&data, 9), -1);
    assert_eq!(u32_at(&data, 13), 2);
    assert_eq!(signed(0x8000_0000), i32::MIN);
    assert_eq!(signed(0x7FFF_FFFF), i32::MAX);
    assert_eq!(copy_range(&data, 0, 1), vec![7]);
    assert!(begins_with(b"VZa...", b"VZa") && !begins_with(b"VZ", b"VZa"));
}

#[test]
fn errors_are_put_in_words() {
    let http = |status: Option<u16>, connect: bool, timeout: bool| {
        Error::Http(HttpFailure { status, connect, timeout }).message()
    };
    assert_eq!(http(Some(404), false, false), "HTTP status 404");
    assert_eq!(http(None, false, true), "HTTP request timed out");
    assert_eq!(http(None, true, false), "HTTP connection failed");
    assert_eq!(http(None, false, false), "HTTP request failed");
    assert_eq!(Error::WebSocket("w".to_string()).message(), "WebSocket: w");
    assert_eq!(Error::Decode("d".to_string()).message(), "protobuf: d");
    assert_eq!(Error::ConnectionClosed.message(), "connection closed");
    assert_eq!(
        Error::ServiceMethodTimeout("A.B#1".to_string()).message(),
        "service method timed out: A.B#1"
    );
    assert_eq!(Error::MessageTooShort(3).message(), "message too short: 3 bytes");
    assert_eq!(Error::MessageTruncated.message(), "message truncated");
    assert_eq!(Error::NoSession.message(), "no session");
    assert_eq!(Error::described("write task panicked", "x").message(), "write task panicked: x");
    assert_eq!(Error::status("chunk download ff", 503, "busy").message(), "chunk download ff: busy");
}
