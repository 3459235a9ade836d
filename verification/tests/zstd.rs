use steamdepot::chunk::{decompress_chunk, decompress_vzstd};
use steamdepot::zstd::check_frame;

const RAW: u32 = 0;
const REPEATED: u32 = 1;
const COMPRESSED: u32 = 2;
const RESERVED: u32 = 3;

/// One code each for the lengths of literals, the offsets and the lengths of
/// matches.
const ONE_CODE_EACH: u8 = 0x54;
/// The tables of the block before.
const TABLES_STAY: u8 = 0xFC;
/// The code of the longest matches: 16 more bits say how long.
const LONG: u8 = 52;
/// A distribution that has one code only, which is zero: of size 32, so that
/// its first state takes five bits and all others none.
const ONLY_ZERO: [u8; 2] = [0xF0, 0x03];

/// A block with its header.
fn block(last: bool, kind: u32, size: usize, body: &[u8]) -> Vec<u8> {
    let header = last as u32 | kind << 1 | (size as u32) << 3;
    let mut data = header.to_le_bytes()[..3].to_vec();
    data.extend_from_slice(body);
    data
}

/// A frame with a window of 2 MiB.
fn frame(blocks: &[Vec<u8>]) -> Vec<u8> {
    let mut data = vec![0x28, 0xB5, 0x2F, 0xFD, 0x00, 0x58];
    for block in blocks {
        data.extend_from_slice(block);
    }
    data
}

/// A compressed block: its literals with their header, so many sequences, the
/// modes of its tables, the tables and the bits.
fn compressed(last: bool, literals: &[u8], count: u32, modes: u8, rest: &[&[u8]]) -> Vec<u8> {
    let mut body = literals.to_vec();
    match count {
        0..=127 => body.push(count as u8),
        128..=0x7EFF => body.extend_from_slice(&[(count >> 8) as u8 + 128, count as u8]),
        _ => {
            let more = (count - 0x7F00).to_le_bytes();
            body.extend_from_slice(&[255, more[0], more[1]]);
        }
    }
    body.push(modes);
    for part in rest {
        body.extend_from_slice(part);
    }
    block(last, COMPRESSED, body.len(), &body)
}

/// A last block of so many matches of 131,074 bytes each.
fn long_matches(literals: &[u8], count: u32) -> Vec<u8> {
    let bits = vec![0xFF; 2 * count as usize];
    compressed(true, literals, count, ONE_CODE_EACH, &[&[0, 0, LONG], &bits, &[1]])
}

/// So many times the same literal, with a header of three bytes.
fn repeated_literal(count: u32) -> Vec<u8> {
    let header = (count << 4 | 0b1101).to_le_bytes();
    vec![header[0], header[1], header[2], 0]
}

fn envelope(frame: &[u8]) -> Vec<u8> {
    let mut data = b"VSZa\0\0\0\0".to_vec();
    data.extend_from_slice(frame);
    data.extend_from_slice(&[0u8; 12]);
    data.extend_from_slice(b"zsv");
    data
}

#[test]
fn a_compressed_block_is_unpacked() {
    // Three literals, and one match of six bytes from three bytes back.
    let literals = [0x18, b'a', b'b', b'c'];
    let data = frame(&[compressed(true, &literals, 1, ONE_CODE_EACH, &[&[3, 2, 3, 0b110]])]);
    assert!(check_frame(&data));
    assert_eq!(decompress_chunk(&envelope(&data)).unwrap(), b"abcabcabc");
}

#[test]
fn tables_may_stay() {
    // Matches of six bytes from three bytes back.
    let data = frame(&[
        block(false, RAW, 3, b"abc"),
        compressed(false, &[0x00], 1, 0x94, &[&ONLY_ZERO, &[2, 3], &[0b1000_0010]]),
        compressed(true, &[0x00], 2, TABLES_STAY, &[&[0b0000_1010, 0b10]]),
    ]);
    assert_eq!(decompress_chunk(&envelope(&data)).unwrap(), b"abc".repeat(7));
}

#[test]
fn a_block_of_many_short_matches_is_unpacked() {
    // Forty thousand matches of three bytes, from 32,765 bytes back.
    let front: Vec<u8> = (0..65_536u32).map(|i| (i % 251) as u8).collect();
    let bits = vec![0u8; 75_000];
    let data = frame(&[
        block(false, RAW, front.len(), &front),
        compressed(true, &[0], 40_000, ONE_CODE_EACH, &[&[0, 15, 0], &bits, &[1]]),
    ]);
    let mut expected = front;
    for _ in 0..120_000 {
        expected.push(expected[expected.len() - 32_765]);
    }
    assert!(check_frame(&data));
    assert_eq!(decompress_vzstd(&envelope(&data)).unwrap(), expected);
}

#[test]
fn matches_are_counted_in_32_bits() {
    let check = |block: Vec<u8>| check_frame(&frame(&[block]));
    assert!(check(long_matches(&[0], 32_767)));
    assert!(!check(long_matches(&[0], 32_768)));
    assert!(!check(long_matches(&[0], 65_000)));
    // As many matches, of 65,539 bytes each.
    let bits = vec![0u8; 2 * 32_768];
    let shorter = [&[0, 0, LONG][..], &bits, &[1]];
    assert!(check(compressed(true, &[0], 32_768, ONE_CODE_EACH, &shorter)));
    // A bit too few, or a byte too many.
    let bits = vec![0xFF; 2 * 32_768];
    let cut = [&[0, 0, LONG][..], &bits[1..], &[1]];
    assert!(check(compressed(true, &[0], 32_768, ONE_CODE_EACH, &cut)));
    let more = [&[0, 0, LONG][..], &[0], &bits, &[1]];
    assert!(check(compressed(true, &[0], 32_768, ONE_CODE_EACH, &more)));
    // No such code.
    let wrong = [&[0, 0, LONG + 1][..], &bits, &[1]];
    assert!(check(compressed(true, &[0], 32_768, ONE_CODE_EACH, &wrong)));
}

#[test]
fn literals_count_too() {
    let check = |literals: &[u8], count| check_frame(&frame(&[long_matches(literals, count)]));
    // A literal that is repeated: a header of one, two or three bytes.
    assert!(check(&[10 << 3 | 1, 0], 32_767));
    assert!(check(&[0xF5, 0xFF, 0], 32_767));
    assert!(check(&repeated_literal(65_537), 32_767));
    assert!(!check(&repeated_literal(65_538), 32_767));
    // Plain literals stand in the block.
    let mut plain = vec![0x54, 0x01];
    plain.extend_from_slice(&[7; 21]);
    assert!(check(&plain, 32_767));
    assert!(!check(&plain, 32_768));
    // Coded literals name two sizes, in three, four or five bytes.
    for (format, bits) in [(0u64, 10), (1, 10), (2, 14), (3, 18)] {
        let header: u64 = 2 | format << 2 | 9 << 4 | 5 << (4 + bits);
        let width = (4 + 2 * bits + 7) / 8;
        let mut coded = header.to_le_bytes()[..width].to_vec();
        coded.extend_from_slice(&[7; 5]);
        assert!(check(&coded, 32_767), "{format}");
        assert!(!check(&coded, 32_768), "{format}");
        coded[0] |= 1;
        assert!(!check(&coded, 32_768), "{format}");
    }
}

#[test]
fn tables_that_stay_are_read_again() {
    let bits = vec![0xFF; 2 * 32_768];
    let first = |modes: u8, tables: &[u8], end: u8| {
        compressed(false, &[0], 1, modes, &[tables, &[0xFF, 0xFF, end]])
    };
    let second = |end: u8| compressed(true, &[0], 32_768, TABLES_STAY, &[&bits, &[end]]);
    // One code each; a distribution for the literals, or for the offsets; the
    // predefined table of literals, by which both blocks end too early or late.
    let one_each = first(ONE_CODE_EACH, &[0, 0, LONG], 1);
    assert!(!check_frame(&frame(&[one_each.clone(), second(1)])));
    let literals = first(0x94, &[0xF0, 0x03, 0, LONG], 0x20);
    assert!(!check_frame(&frame(&[literals.clone(), second(0x20)])));
    let offsets = first(0x64, &[0, 0xF0, 0x03, LONG], 0x20);
    assert!(!check_frame(&frame(&[offsets, second(0x20)])));
    let both = first(0xA4, &[0xF0, 0x03, 0xF0, 0x03, LONG], 0b100);
    assert!(check_frame(&frame(&[both, second(0b100)])));
    let predefined = first(0x14, &[0, LONG], 0x40);
    assert!(check_frame(&frame(&[predefined, second(0x40)])));
    // A block without sequences changes no table; one with its own does.
    let none = block(false, COMPRESSED, 2, &[0, 0]);
    assert!(!check_frame(&frame(&[one_each.clone(), none, second(1)])));
    let none = block(false, COMPRESSED, 4, &[0, 128, 0, ONE_CODE_EACH]);
    assert!(!check_frame(&frame(&[one_each.clone(), none, second(1)])));
    let short = compressed(false, &[0], 1, ONE_CODE_EACH, &[&[0, 0, 0, 1]]);
    assert!(check_frame(&frame(&[one_each, short, second(1)])));
    // There is no table to stay.
    assert!(check_frame(&frame(&[second(1)])));
    assert!(check_frame(&frame(&[literals, second(1)])));
}

#[test]
fn every_block_is_looked_at() {
    let large = || long_matches(&[0], 40_000);
    let raw = || block(false, RAW, 5, b"plain");
    let repeated = || block(false, REPEATED, 100_000, b"x");
    assert!(!check_frame(&frame(&[raw(), repeated(), large()])));
    assert!(check_frame(&frame(&[raw(), repeated(), block(true, RAW, 0, b""), large()])));
    assert!(check_frame(&frame(&[raw(), block(false, RESERVED, 0, b""), large()])));
    assert!(check_frame(&frame(&[block(false, REPEATED, 131_073, b"x"), large()])));
    for broken in [&[][..], &[0], &[0, 1], &[0, 128, 0], &[0, 255, 0, 0], &[0x0C]] {
        let broken = block(false, COMPRESSED, broken.len(), broken);
        assert!(check_frame(&frame(&[broken, large()])));
    }
    let mut cut = frame(&[raw(), large()]);
    assert!(!check_frame(&cut));
    cut.pop();
    assert!(check_frame(&cut));
    assert!(check_frame(&[]));
    assert!(check_frame(&frame(&[])));
}

#[test]
fn the_frame_header_is_read() {
    for (descriptor, length, dictionary) in [
        (0x00, 1, None),
        (0x20, 1, None),
        (0x01, 2, Some(1)),
        (0x02, 3, Some(2)),
        (0x03, 5, Some(4)),
        (0x40, 3, None),
        (0x80, 5, None),
        (0xE3, 12, Some(3)),
    ] {
        let mut data = vec![0x28, 0xB5, 0x2F, 0xFD, descriptor];
        data.resize(data.len() + length, 0);
        data.extend_from_slice(&long_matches(&[0], 40_000));
        assert!(!check_frame(&data), "{descriptor}");
        if let Some(place) = dictionary {
            let mut named = data.clone();
            named[5 + place] = 1;
            assert!(check_frame(&named), "{descriptor}");
        }
        data[0] = 0;
        assert!(check_frame(&data), "{descriptor}");
    }
    let mut window = frame(&[long_matches(&[0], 40_000)]);
    window[5] = 0xFE;
    assert!(!check_frame(&window));
    window[5] = 0xFF;
    assert!(check_frame(&window));
}

#[test]
fn a_frame_that_outgrows_the_count_is_refused() {
    let data = envelope(&frame(&[long_matches(&[0], 32_768)]));
    let e = decompress_vzstd(&data).unwrap_err();
    assert_eq!(e.message(), "VZstd block too large");
}
