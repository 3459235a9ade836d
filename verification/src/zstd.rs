//! Zstandard frames: how far their blocks expand.
//!
//! The decoder counts what a block expands to in 32 bits, and a broken block
//! may hold matches that add up to more. So the sequences of a frame are read
//! before it is expanded, and a frame is left alone if one of its blocks would
//! outgrow that count.

use vstd::arithmetic::div_mod::lemma_fundamental_div_mod_converse;
use vstd::prelude::*;

use crate::outside::{fse_table_length, match_lengths, match_lengths_of, read_fse_table};
use crate::wire::{
    byte_power, copy_range, le_bytes, le_value, lemma_le_round_trip, push_bytes,
};

verus! {

/// The most bytes that a block takes in a frame.
pub const MAX_BLOCK_SIZE: u64 = 131072;

/// What a Zstandard frame begins with.
pub const FRAME_MAGIC: u64 = 0xFD2F_B528;

/// A table by which codes are read: how it is described, and its description.
/// It is predefined (0), one code that is repeated (1), or a distribution of
/// codes (2); there is none yet where the mode is 3.
pub struct Table {
    pub mode: u8,
    pub description: Vec<u8>,
}

/// A [`Table`], over mathematical values.
pub struct TableView {
    pub mode: u8,
    pub description: Seq<u8>,
}

impl View for Table {
    type V = TableView;

    open spec fn view(&self) -> TableView {
        TableView { mode: self.mode, description: self.description@ }
    }
}

/// The tables by which the sequences of a block are read.
pub struct Tables {
    pub literal_lengths: Table,
    pub offsets: Table,
    pub match_lengths: Table,
}

/// [`Tables`], over mathematical values.
pub struct TablesView {
    pub literal_lengths: TableView,
    pub offsets: TableView,
    pub match_lengths: TableView,
}

impl View for Tables {
    type V = TablesView;

    open spec fn view(&self) -> TablesView {
        TablesView {
            literal_lengths: self.literal_lengths@,
            offsets: self.offsets@,
            match_lengths: self.match_lengths@,
        }
    }
}

/// No table is there yet.
pub open spec fn no_tables() -> TablesView {
    let none = TableView { mode: 3, description: Seq::empty() };
    TablesView { literal_lengths: none, offsets: none, match_lengths: none }
}

/// The sum of the lengths.
pub open spec fn total(lengths: Seq<u32>) -> nat
    decreases lengths.len(),
{
    if lengths.len() == 0 {
        0
    } else {
        total(lengths.drop_last()) + lengths.last() as nat
    }
}

/// How many bytes the header of a block's literals takes, by its first byte.
pub open spec fn literals_header_length(first: u8) -> int {
    let format = (first / 4) % 4;
    if first % 4 < 2 {
        if format % 2 == 0 {
            1
        } else if format == 1 {
            2
        } else {
            3
        }
    } else if format < 2 {
        3
    } else if format == 2 {
        4
    } else {
        5
    }
}

/// How many literals there are, and how many bytes they take in the block, by
/// the first byte of their header and the number in it.
pub open spec fn literals_sizes(first: u8, header: nat) -> (nat, nat) {
    let format = (first / 4) % 4;
    let plain = if format % 2 == 0 {
        header / 8
    } else {
        header / 16
    };
    if first % 4 == 0 {
        (plain, plain)
    } else if first % 4 == 1 {
        (plain, 1)
    } else if format < 2 {
        ((header / 16) % 1024, header / 16384)
    } else if format == 2 {
        ((header / 16) % 16384, header / 262144)
    } else {
        ((header / 16) % 262144, header / 4194304)
    }
}

/// How many literals a block has, and where they end, where its header and the
/// literals are there in full.
pub open spec fn literals_of(block: Seq<u8>) -> Option<(nat, int)> {
    if block.len() == 0 || block.len() < literals_header_length(block[0]) {
        None
    } else {
        let width = literals_header_length(block[0]);
        let (count, stored) = literals_sizes(block[0], le_value(block.subrange(0, width)));
        if width + stored > block.len() {
            None
        } else {
            Some((count, width + stored))
        }
    }
}

/// How many sequences a section announces, and in how many bytes, where the
/// byte behind those is there too; none are announced in one byte of zero.
pub open spec fn sequence_count(section: Seq<u8>) -> Option<(nat, int)> {
    if section.len() == 0 {
        None
    } else if section[0] == 0 {
        Some((0, 1))
    } else if section[0] < 128 {
        if section.len() < 2 {
            None
        } else {
            Some((section[0] as nat, 1))
        }
    } else if section[0] < 255 {
        if section.len() < 3 {
            None
        } else {
            Some(((256 * (section[0] - 128) + section[1]) as nat, 2))
        }
    } else if section.len() < 4 {
        None
    } else {
        Some(((0x7F00 + section[1] + 256 * section[2]) as nat, 3))
    }
}

/// The table that `rest` begins with, or the one that there was, where the
/// mode says that it stays. The codes are `max_symbol` at most, and two to the
/// power `max_log` is the largest size.
pub open spec fn table_from(
    mode: u8,
    rest: Seq<u8>,
    kept: TableView,
    max_symbol: u8,
    max_log: u8,
) -> Option<TableView> {
    if mode == 0 {
        Some(TableView { mode, description: Seq::empty() })
    } else if mode == 1 {
        if rest.len() == 0 {
            None
        } else {
            Some(TableView { mode, description: rest.take(1) })
        }
    } else if mode == 2 {
        match fse_table_length(rest, max_symbol, max_log) {
            Some(length) => Some(TableView { mode, description: rest.take(length as int) }),
            None => None,
        }
    } else {
        Some(kept)
    }
}

/// What stands behind the table that `rest` begins with.
pub open spec fn behind_table(mode: u8, rest: Seq<u8>, table: TableView) -> Seq<u8> {
    if mode == 3 {
        rest
    } else {
        rest.skip(table.description.len() as int)
    }
}

/// The tables that `rest` begins with, by their modes, and what stands behind
/// them.
pub open spec fn tables_from(modes: u8, rest: Seq<u8>, kept: TablesView) -> Option<
    (TablesView, Seq<u8>),
> {
    let first = modes / 64;
    let second = (modes / 16) % 4;
    let third = (modes / 4) % 4;
    match table_from(first, rest, kept.literal_lengths, 35, 9) {
        None => None,
        Some(literal_lengths) => {
            let rest = behind_table(first, rest, literal_lengths);
            match table_from(second, rest, kept.offsets, 31, 8) {
                None => None,
                Some(offsets) => {
                    let rest = behind_table(second, rest, offsets);
                    match table_from(third, rest, kept.match_lengths, 52, 9) {
                        None => None,
                        Some(match_lengths) => Some(
                            (
                                TablesView { literal_lengths, offsets, match_lengths },
                                behind_table(third, rest, match_lengths),
                            ),
                        ),
                    }
                },
            }
        },
    }
}

/// A section of sequences that holds its tables itself: how many there are,
/// the tables, and the bits.
pub open spec fn standalone(count: Seq<u8>, tables: TablesView, bits: Seq<u8>) -> Seq<u8> {
    count + seq![
        (64 * (tables.literal_lengths.mode % 4) + 16 * (tables.offsets.mode % 4) + 4 * (
        tables.match_lengths.mode % 4)) as u8,
    ] + tables.literal_lengths.description + tables.offsets.description
        + tables.match_lengths.description + bits
}

/// What became of the sequences of a block: the tables that it leaves behind,
/// and how many bytes its matches copy. None where they cannot be read.
pub open spec fn sequences_read(section: Seq<u8>, kept: TablesView) -> Option<(TablesView, nat)> {
    match sequence_count(section) {
        None => None,
        Some((count, width)) => if count == 0 {
            Some((kept, 0))
        } else {
            match tables_from(section[width], section.skip(width + 1), kept) {
                None => None,
                Some((tables, bits)) => match match_lengths_of(
                    standalone(section.take(width), tables, bits),
                ) {
                    None => None,
                    Some(lengths) => Some((tables, total(lengths))),
                },
            }
        },
    }
}

/// What a compressed block leaves behind and expands to, given the tables that
/// are there before it. None where its parts cannot be read.
pub open spec fn block_read(block: Seq<u8>, kept: TablesView) -> Option<(TablesView, nat)> {
    match literals_of(block) {
        None => None,
        Some((literals, end)) => match sequences_read(block.skip(end), kept) {
            None => None,
            Some((tables, copied)) => Some((tables, literals + copied)),
        },
    }
}

/// No compressed block from `at` on outgrows a count of 32 bits. The blocks
/// end behind the last one, or with one that is not there in full or cannot be
/// read.
pub open spec fn blocks_are_countable(frame: Seq<u8>, at: int, kept: TablesView) -> bool
    decreases frame.len() - at,
{
    if at < 0 || at + 3 > frame.len() {
        true
    } else {
        let header = le_value(frame.subrange(at, at + 3));
        let kind = (header / 2) % 4;
        let size = header / 8;
        let end = at + 3 + if kind == 1 {
            1
        } else {
            size
        };
        let last = header % 2 == 1;
        if kind == 3 || size > MAX_BLOCK_SIZE || end > frame.len() {
            true
        } else if kind == 2 {
            match block_read(frame.subrange(at + 3, end), kept) {
                None => true,
                Some((tables, expanded)) => expanded <= u32::MAX && (last || blocks_are_countable(
                    frame,
                    end,
                    tables,
                )),
            }
        } else {
            last || blocks_are_countable(frame, end, kept)
        }
    }
}

/// How many bytes of a frame tell of its window, by the byte behind the magic.
pub open spec fn window_width(descriptor: u8) -> int {
    if (descriptor / 32) % 2 == 1 {
        0
    } else {
        1
    }
}

/// How many bytes of a frame name its dictionary.
pub open spec fn dictionary_width(descriptor: u8) -> int {
    if descriptor % 4 == 3 {
        4
    } else {
        (descriptor % 4) as int
    }
}

/// How many bytes of a frame tell of its unpacked size.
pub open spec fn size_width(descriptor: u8) -> int {
    if descriptor / 64 == 3 {
        8
    } else if descriptor / 64 == 2 {
        4
    } else if descriptor / 64 == 1 {
        2
    } else {
        1 - window_width(descriptor)
    }
}

/// Where the blocks of a frame begin. None where it does not open: it has no
/// header in full, names a dictionary, or wants a window that is too large.
pub open spec fn first_block(frame: Seq<u8>) -> Option<int> {
    if frame.len() < 5 || le_value(frame.subrange(0, 4)) != FRAME_MAGIC {
        None
    } else {
        let dictionary = 5 + window_width(frame[4]);
        let size = dictionary + dictionary_width(frame[4]);
        let start = size + size_width(frame[4]);
        if start > frame.len() || (dictionary == 6 && frame[5] == 255) || le_value(
            frame.subrange(dictionary, size),
        ) != 0 {
            None
        } else {
            Some(start)
        }
    }
}

/// No compressed block of the frame outgrows a count of 32 bits.
pub open spec fn frame_is_countable(frame: Seq<u8>) -> bool {
    match first_block(frame) {
        None => true,
        Some(start) => blocks_are_countable(frame, start, no_tables()),
    }
}

/// Blocks that are taken over as they are, one behind the other, the last of
/// them marked as such.
pub open spec fn stored_blocks(contents: Seq<Seq<u8>>) -> Seq<u8>
    decreases contents.len(),
{
    if contents.len() == 0 {
        Seq::empty()
    } else {
        le_bytes(
            8 * contents[0].len() + if contents.len() == 1 {
                1nat
            } else {
                0
            },
            3,
        ) + contents[0] + stored_blocks(contents.drop_first())
    }
}

proof fn lemma_block_header(size: nat, kind: nat, last: nat)
    requires
        kind < 4,
        last < 2,
    ensures
        ({
            let header = 8 * size + 2 * kind + last;
            &&& (header / 2) % 4 == kind
            &&& header / 8 == size
            &&& header % 2 == last
        }),
{
}

#[verifier::rlimit(60)]
#[verifier::spinoff_prover]
proof fn lemma_stored_blocks_are_countable(
    before: Seq<u8>,
    contents: Seq<Seq<u8>>,
    behind: Seq<u8>,
    kept: TablesView,
)
    requires
        contents.len() > 0,
        forall|i: int| 0 <= i < contents.len() ==> (#[trigger] contents[i]).len() <= 131072,
    ensures
        blocks_are_countable(
            before + stored_blocks(contents) + behind,
            before.len() as int,
            kept,
        ),
    decreases contents.len(),
{
    let data = before + stored_blocks(contents) + behind;
    let at = before.len() as int;
    let first = contents[0];
    let rest = contents.drop_first();
    let last: nat = if contents.len() == 1 {
        1
    } else {
        0
    };
    let header = (8 * first.len() + last) as nat;
    reveal_with_fuel(byte_power, 4);
    lemma_le_round_trip(header, 3);
    assert(data.subrange(at, at + 3) =~= le_bytes(header, 3));
    lemma_block_header(first.len(), 0, last);
    if contents.len() > 1 {
        let longer = before + (le_bytes(header, 3) + first);
        assert(longer + stored_blocks(rest) + behind =~= data);
        assert forall|i: int| 0 <= i < rest.len() implies (#[trigger] rest[i]).len() <= 131072 by {
            assert(rest[i] == contents[i + 1]);
        }
        lemma_stored_blocks_are_countable(longer, rest, behind, kept);
        assert(longer.len() == at + 3 + first.len());
    }
}

/// A frame of blocks that are taken over as they are is never refused, however
/// many there are and whatever they hold.
pub proof fn stored_frames_are_countable(
    descriptor: u8,
    header: Seq<u8>,
    contents: Seq<Seq<u8>>,
    behind: Seq<u8>,
)
    requires
        contents.len() > 0,
        forall|i: int| 0 <= i < contents.len() ==> (#[trigger] contents[i]).len() <= 131072,
        header.len() == window_width(descriptor) + dictionary_width(descriptor) + size_width(
            descriptor,
        ),
    ensures
        frame_is_countable(
            seq![0x28u8, 0xB5, 0x2F, 0xFD, descriptor] + header + stored_blocks(contents) + behind,
        ),
{
    let before = seq![0x28u8, 0xB5, 0x2F, 0xFD, descriptor] + header;
    lemma_stored_blocks_are_countable(before, contents, behind, no_tables());
}

proof fn lemma_table_comes_first(
    mode: u8,
    rest: Seq<u8>,
    kept: TableView,
    max_symbol: u8,
    max_log: u8,
)
    requires
        mode < 2,
        table_from(mode, rest, kept, max_symbol, max_log) is Some,
    ensures
        ({
            let table = table_from(mode, rest, kept, max_symbol, max_log)->0;
            table.mode == mode && rest == table.description + behind_table(mode, rest, table)
        }),
{
    let table = table_from(mode, rest, kept, max_symbol, max_log)->0;
    assert(rest =~= table.description + behind_table(mode, rest, table));
}

/// A section of sequences whose tables are predefined, or of one code each,
/// stands alone as it is: it needs no table from before, and what its matches copy is what its
/// own bytes say.
#[verifier::rlimit(60)]
#[verifier::spinoff_prover]
pub proof fn own_tables_stand_alone(
    section: Seq<u8>,
    count: nat,
    width: int,
    kept: TablesView,
    other: TablesView,
)
    requires
        sequence_count(section) == Some((count, width)),
        count > 0,
        section[width] % 4 == 0,
        section[width] / 64 < 2,
        (section[width] / 16) % 4 < 2,
        (section[width] / 4) % 4 < 2,
        tables_from(section[width], section.skip(width + 1), kept) is Some,
    ensures
        match match_lengths_of(section) {
            Some(lengths) => sequences_read(section, kept) matches Some((_, copied)) && copied
                == total(lengths),
            None => sequences_read(section, kept) is None,
        },
        sequences_read(section, kept) == sequences_read(section, other),
{
    let modes = section[width];
    let rest = section.skip(width + 1);
    lemma_table_comes_first(modes / 64, rest, kept.literal_lengths, 35, 9);
    let first = table_from(modes / 64, rest, kept.literal_lengths, 35, 9)->0;
    let second_rest = behind_table(modes / 64, rest, first);
    lemma_table_comes_first((modes / 16) % 4, second_rest, kept.offsets, 31, 8);
    let second = table_from((modes / 16) % 4, second_rest, kept.offsets, 31, 8)->0;
    let third_rest = behind_table((modes / 16) % 4, second_rest, second);
    lemma_table_comes_first((modes / 4) % 4, third_rest, kept.match_lengths, 52, 9);
    let (tables, bits) = tables_from(modes, rest, kept)->0;
    assert(64 * (modes / 64) + 16 * ((modes / 16) % 4) + 4 * ((modes / 4) % 4) == modes);
    let whole = standalone(section.take(width), tables, bits);
    assert(rest =~= tables.literal_lengths.description + (tables.offsets.description + (
    tables.match_lengths.description + bits)));
    assert(section =~= section.take(width) + seq![modes] + rest);
    assert(whole =~= section);
}

/// A section of sequences that holds three distributions reads by them: that of
/// the literal lengths, of codes up to 35 and a size up to two to the power 9;
/// that of the offsets, up to 31 and 8; that of the match lengths, up to 52 and
/// 9. It leaves them behind.
#[verifier::rlimit(60)]
#[verifier::spinoff_prover]
pub proof fn distributions_are_read_in_order(
    section: Seq<u8>,
    count: nat,
    width: int,
    literal_lengths: Seq<u8>,
    offsets: Seq<u8>,
    match_lengths: Seq<u8>,
    bits: Seq<u8>,
    kept: TablesView,
)
    requires
        sequence_count(section) == Some((count, width)),
        count > 0,
        section[width] == 168,
        section.skip(width + 1) == literal_lengths + (offsets + (match_lengths + bits)),
        fse_table_length(literal_lengths + (offsets + (match_lengths + bits)), 35, 9) == Some(
            literal_lengths.len(),
        ),
        fse_table_length(offsets + (match_lengths + bits), 31, 8) == Some(offsets.len()),
        fse_table_length(match_lengths + bits, 52, 9) == Some(match_lengths.len()),
    ensures
        match match_lengths_of(section) {
            Some(lengths) => sequences_read(section, kept) == Some(
                (distributions(literal_lengths, offsets, match_lengths), total(lengths)),
            ),
            None => sequences_read(section, kept) is None,
        },
{
    let third = match_lengths + bits;
    let second = offsets + third;
    let rest = literal_lengths + second;
    assert(rest.take(literal_lengths.len() as int) =~= literal_lengths);
    assert(rest.skip(literal_lengths.len() as int) =~= second);
    assert(second.take(offsets.len() as int) =~= offsets);
    assert(second.skip(offsets.len() as int) =~= third);
    assert(third.take(match_lengths.len() as int) =~= match_lengths);
    assert(third.skip(match_lengths.len() as int) =~= bits);
    let tables = distributions(literal_lengths, offsets, match_lengths);
    assert(tables_from(168, rest, kept) == Some((tables, bits)));
    let whole = standalone(section.take(width), tables, bits);
    assert(section =~= section.take(width) + seq![168u8] + rest);
    assert(whole =~= section);
}

/// Three tables that are distributions.
pub open spec fn distributions(
    literal_lengths: Seq<u8>,
    offsets: Seq<u8>,
    match_lengths: Seq<u8>,
) -> TablesView {
    TablesView {
        literal_lengths: TableView { mode: 2, description: literal_lengths },
        offsets: TableView { mode: 2, description: offsets },
        match_lengths: TableView { mode: 2, description: match_lengths },
    }
}

/// A section that repeats the tables from before reads as if it held them.
#[verifier::rlimit(60)]
#[verifier::spinoff_prover]
pub proof fn repeated_tables_are_those_from_before(
    section: Seq<u8>,
    count: nat,
    width: int,
    literal_lengths: Seq<u8>,
    offsets: Seq<u8>,
    match_lengths: Seq<u8>,
)
    requires
        sequence_count(section) == Some((count, width)),
        count > 0,
        section[width] == 252,
    ensures
        ({
            let kept = distributions(literal_lengths, offsets, match_lengths);
            let whole = section.take(width) + seq![168u8] + literal_lengths + offsets
                + match_lengths + section.skip(width + 1);
            match match_lengths_of(whole) {
                Some(lengths) => sequences_read(section, kept) == Some((kept, total(lengths))),
                None => sequences_read(section, kept) is None,
            }
        }),
{
    let kept = distributions(literal_lengths, offsets, match_lengths);
    let bits = section.skip(width + 1);
    assert(tables_from(252, bits, kept) == Some((kept, bits)));
    assert(standalone(section.take(width), kept, bits) =~= section.take(width) + seq![168u8]
        + literal_lengths + offsets + match_lengths + bits);
}

proof fn lemma_number_bound(s: Seq<u8>)
    requires
        s.len() <= 5,
    ensures
        s.len() <= 1 ==> le_value(s) < 0x100,
        s.len() <= 2 ==> le_value(s) < 0x1_0000,
        s.len() <= 3 ==> le_value(s) < 0x100_0000,
        le_value(s) < 0x100_0000_0000,
{
    reveal_with_fuel(byte_power, 6);
    crate::wire::read_bytes_are_written_back(s);
}

proof fn lemma_few_literals(block: Seq<u8>)
    requires
        literals_of(block) is Some,
    ensures
        ({
            let (count, _) = literals_of(block)->0;
            count < 0x10_0000
        }),
{
    let width = literals_header_length(block[0]);
    lemma_number_bound(block.subrange(0, width));
}

proof fn lemma_overgrown(frame: Seq<u8>, at: int, kept: TablesView) -> (section: Seq<u8>)
    requires
        !blocks_are_countable(frame, at, kept),
    ensures
        match_lengths_of(section) is Some,
        total(match_lengths_of(section)->0) > 0xFFEF_FFFF,
    decreases frame.len() - at,
{
    let header = le_value(frame.subrange(at, at + 3));
    let kind = (header / 2) % 4;
    let size = header / 8;
    let end = at + 3 + if kind == 1 {
        1
    } else {
        size
    };
    if kind == 2 {
        let block = frame.subrange(at + 3, end);
        let (tables, expanded) = block_read(block, kept)->0;
        if expanded <= u32::MAX {
            lemma_overgrown(frame, end, tables)
        } else {
            lemma_few_literals(block);
            let (_, from) = literals_of(block)->0;
            let rest = block.skip(from);
            let (count, width) = sequence_count(rest)->0;
            let (own, bits) = tables_from(rest[width], rest.skip(width + 1), kept)->0;
            standalone(rest.take(width), own, bits)
        }
    } else {
        lemma_overgrown(frame, end, kept)
    }
}

/// A frame is refused only over matches that copy, in some section of
/// sequences, as much as a count of 32 bits holds, but for the literals that a
/// block may have: no more than a million.
pub proof fn only_overgrown_frames_are_refused(frame: Seq<u8>) -> (section: Seq<u8>)
    requires
        !frame_is_countable(frame),
    ensures
        match_lengths_of(section) is Some,
        total(match_lengths_of(section)->0) > 0xFFEF_FFFF,
{
    lemma_overgrown(frame, first_block(frame)->0, no_tables())
}

/// Lengths add up one by one.
pub proof fn lengths_add_up(lengths: Seq<u32>, length: u32)
    ensures
        total(Seq::empty()) == 0,
        total(lengths.push(length)) == total(lengths) + length,
{
    assert(lengths.push(length).drop_last() =~= lengths);
}

/// Literals that are stored, or that are one byte repeated, are announced in
/// one byte, in two or in three, by how many there are.
pub proof fn plain_literals_are_announced(
    repeated: bool,
    count: nat,
    width: nat,
    stored: Seq<u8>,
    rest: Seq<u8>,
)
    requires
        width == 1 && count < 0x20 || width == 2 && count < 0x1000 || width == 3 && count
            < 0x10_0000,
        stored.len() == if repeated {
            1
        } else {
            count
        },
    ensures
        ({
            let kind: nat = if repeated {
                1
            } else {
                0
            };
            let header = le_bytes(
                if width == 1 {
                    kind + 8 * count
                } else if width == 2 {
                    kind + 4 + 16 * count
                } else {
                    kind + 12 + 16 * count
                },
                width,
            );
            literals_of(header + stored + rest) == Some((count, (width + stored.len()) as int))
        }),
{
    let kind: nat = if repeated {
        1
    } else {
        0
    };
    reveal_with_fuel(byte_power, 4);
    if width == 1 {
        let number: nat = kind + 8 * count;
        lemma_announced(number, 1, stored, rest);
        lemma_first_bits(number);
        lemma_short_parts(kind, count);
    } else if width == 2 {
        let number: nat = kind + 4 + 16 * count;
        lemma_announced(number, 2, stored, rest);
        lemma_first_bits(number);
        lemma_header_numbers(kind, 1, count, 0x10_0000, 0);
    } else {
        let number: nat = kind + 12 + 16 * count;
        lemma_announced(number, 3, stored, rest);
        lemma_first_bits(number);
        lemma_header_numbers(kind, 3, count, 0x10_0000, 0);
    }
}

proof fn lemma_first_bits(number: nat)
    ensures
        (number % 256) % 4 == number % 4,
        ((number % 256) / 4) % 4 == (number / 4) % 4,
{
}

proof fn lemma_short_parts(kind: nat, count: nat)
    requires
        kind < 4,
    ensures
        (kind + 8 * count) % 4 == kind,
        (((kind + 8 * count) / 4) % 4) % 2 == 0,
        (kind + 8 * count) / 8 == count,
{
}

proof fn lemma_header_numbers(kind: nat, format: nat, count: nat, limit: nat, size: nat)
    requires
        kind < 4,
        format < 4,
        count < limit,
    ensures
        ({
            let number = kind + 4 * format + 16 * count + 16 * (limit * size);
            &&& number % 4 == kind
            &&& (number / 4) % 4 == format
            &&& (number / 16) % limit == count
            &&& number / (16 * limit) == size
            &&& size == 0 ==> number / 16 == count
        }),
{
    let above = limit * size;
    let number = kind + 4 * format + 16 * count + 16 * above;
    let fours = (format + 4 * count + 4 * above) as int;
    let sixteens = (count + above) as int;
    let low = (kind + 4 * format) as int;
    lemma_fundamental_div_mod_converse(number as int, 4, fours, kind as int);
    lemma_fundamental_div_mod_converse(fours, 4, sixteens, format as int);
    lemma_fundamental_div_mod_converse(number as int, 16, sixteens, low);
    assert(above == size * limit) by (nonlinear_arith)
        requires
            above == limit * size,
    ;
    lemma_fundamental_div_mod_converse(sixteens, limit as int, size as int, count as int);
    assert(16 * above == size * (16 * limit)) by (nonlinear_arith)
        requires
            above == size * limit,
    ;
    let rest = low + 16 * count;
    lemma_fundamental_div_mod_converse(number as int, (16 * limit) as int, size as int, rest);
    if size == 0 {
        assert(above == 0) by (nonlinear_arith)
            requires
                above == size * limit,
                size == 0,
        ;
    }
}

/// Literals that are compressed are announced in three bytes, in four or in
/// five: how many there are, and how many bytes they take.
pub proof fn compressed_literals_are_announced(
    kept_tree: bool,
    format: nat,
    count: nat,
    stored: Seq<u8>,
    rest: Seq<u8>,
)
    requires
        format < 2 && count < 0x400 && stored.len() < 0x400 || format == 2 && count < 0x4000
            && stored.len() < 0x4000 || format == 3 && count < 0x4_0000 && stored.len() < 0x4_0000,
    ensures
        ({
            let kind: nat = if kept_tree {
                3
            } else {
                2
            };
            let header = if format < 2 {
                le_bytes(kind + 4 * format + 16 * count + 0x4000 * stored.len(), 3)
            } else if format == 2 {
                le_bytes(kind + 4 * format + 16 * count + 0x4_0000 * stored.len(), 4)
            } else {
                le_bytes(kind + 4 * format + 16 * count + 0x40_0000 * stored.len(), 5)
            };
            literals_of(header + stored + rest) == Some(
                (count, (header.len() + stored.len()) as int),
            )
        }),
{
    reveal_with_fuel(byte_power, 6);
    let kind: nat = if kept_tree {
        3
    } else {
        2
    };
    let size = stored.len();
    if format < 2 {
        let number: nat = kind + 4 * format + 16 * count + 0x4000 * size;
        lemma_header_numbers(kind, format, count, 0x400, size);
        lemma_announced(number, 3, stored, rest);
        lemma_first_bits(number);
    } else if format == 2 {
        let number: nat = kind + 4 * format + 16 * count + 0x4_0000 * size;
        lemma_header_numbers(kind, format, count, 0x4000, size);
        lemma_announced(number, 4, stored, rest);
        lemma_first_bits(number);
    } else {
        let number: nat = kind + 4 * format + 16 * count + 0x40_0000 * size;
        lemma_header_numbers(kind, format, count, 0x4_0000, size);
        lemma_announced(number, 5, stored, rest);
        lemma_first_bits(number);
    }
}

/// Sequences are counted in one byte, in two or in three.
pub proof fn sequences_are_announced(count: nat, modes: u8, rest: Seq<u8>)
    ensures
        1 <= count < 0x80 ==> sequence_count(seq![count as u8, modes] + rest) == Some((count, 1int)),
        count < 0x7F00 ==> sequence_count(
            seq![(128 + count / 256) as u8, (count % 256) as u8, modes] + rest,
        ) == Some((count, 2int)),
        0x7F00 <= count < 0x17F00 ==> sequence_count(
            seq![255u8, ((count - 0x7F00) % 256) as u8, ((count - 0x7F00) / 256) as u8, modes] + rest,
        ) == Some((count, 3int)),
        sequence_count(seq![0u8] + rest) == Some((0nat, 1int)),
{
}

proof fn lemma_announced(number: nat, width: nat, stored: Seq<u8>, rest: Seq<u8>)
    requires
        1 <= width <= 5,
        number < byte_power(width),
    ensures
        ({
            let block = le_bytes(number, width) + stored + rest;
            &&& le_bytes(number, width).len() == width
            &&& block[0] == number % 256
            &&& le_bytes(number, width)[0] == number % 256
            &&& block.subrange(0, width as int) == le_bytes(number, width)
            &&& le_value(block.subrange(0, width as int)) == number
            &&& block.len() == width + stored.len() + rest.len()
        }),
{
    let block = le_bytes(number, width) + stored + rest;
    lemma_le_round_trip(number, width);
    assert(block.subrange(0, width as int) =~= le_bytes(number, width));
    crate::wire::least_significant_byte_is_first(number, width, seq![0u8]);
}

#[verifier::rlimit(60)]
#[verifier::spinoff_prover]
proof fn lemma_blocks_can_move(a: Seq<u8>, b: Seq<u8>, rest: Seq<u8>, at: int, kept: TablesView)
    requires
        0 <= at,
    ensures
        blocks_are_countable(a + rest, a.len() + at, kept) == blocks_are_countable(
            b + rest,
            b.len() + at,
            kept,
        ),
    decreases rest.len() - at,
{
    if at + 3 <= rest.len() {
        let header = le_value(rest.subrange(at, at + 3));
        assert((a + rest).subrange(a.len() + at, a.len() + at + 3) =~= rest.subrange(at, at + 3));
        assert((b + rest).subrange(b.len() + at, b.len() + at + 3) =~= rest.subrange(at, at + 3));
        let kind = (header / 2) % 4;
        let size = header / 8;
        let end = at + 3 + if kind == 1 {
            1
        } else {
            size
        };
        if end <= rest.len() {
            let block = rest.subrange(at + 3, end);
            assert((a + rest).subrange(a.len() + at + 3, a.len() + end) =~= block);
            assert((b + rest).subrange(b.len() + at + 3, b.len() + end) =~= block);
            if kind == 2 {
                if let Some((tables, _)) = block_read(block, kept) {
                    lemma_blocks_can_move(a, b, rest, end, tables);
                }
            } else {
                lemma_blocks_can_move(a, b, rest, end, kept);
            }
        }
    }
}

/// The beginning of a frame up to its blocks: it names no dictionary, and its
/// window is not too large.
pub open spec fn opens(start: Seq<u8>) -> bool {
    &&& start.len() >= 5
    &&& start[0] == 0x28 && start[1] == 0xB5 && start[2] == 0x2F && start[3] == 0xFD
    &&& start[4] % 4 == 0
    &&& start.len() == 5 + (if (start[4] / 32) % 2 == 1 {
        0int
    } else {
        1
    }) + if start[4] / 64 == 3 {
        8int
    } else if start[4] / 64 == 2 {
        4
    } else if start[4] / 64 == 1 {
        2
    } else if (start[4] / 32) % 2 == 1 {
        1
    } else {
        0
    }
    &&& (start[4] / 32) % 2 == 0 ==> start[5] != 255
}

proof fn lemma_opens(start: Seq<u8>, rest: Seq<u8>)
    requires
        opens(start),
    ensures
        first_block(start + rest) == Some(start.len() as int),
{
    let frame = start + rest;
    let first = frame.subrange(0, 4);
    crate::wire::lemma_le_value_4(first);
    assert(first[0] == 0x28 && first[1] == 0xB5 && first[2] == 0x2F && first[3] == 0xFD);
    let dictionary = 5 + window_width(frame[4]);
    assert(frame.subrange(dictionary, dictionary).len() == 0);
    assert(frame[4] == start[4]);
}

#[verifier::rlimit(60)]
#[verifier::spinoff_prover]
proof fn lemma_plain_block(start: Seq<u8>, number: nat, body: Seq<u8>, rest: Seq<u8>)
    requires
        opens(start),
        number % 2 == 0,
        (number / 2) % 4 == 0 && body.len() == number / 8 || (number / 2) % 4 == 1 && body.len()
            == 1,
        number / 8 <= 131072,
    ensures
        frame_is_countable(start + (le_bytes(number, 3) + body + rest)) == frame_is_countable(
            start + rest,
        ),
{
    reveal_with_fuel(byte_power, 4);
    lemma_le_round_trip(number, 3);
    let at = start.len() as int;
    let front = le_bytes(number, 3) + body;
    let frame = start + (front + rest);
    lemma_opens(start, rest);
    lemma_opens(start, front + rest);
    assert(frame.subrange(at, at + 3) =~= le_bytes(number, 3));
    assert((start + front) + rest =~= frame);
    lemma_blocks_can_move(start + front, start, rest, 0, no_tables());
    assert(at + 3 + body.len() == (start + front).len());
    assert(blocks_are_countable(frame, at, no_tables()) == blocks_are_countable(
        frame,
        at + 3 + body.len(),
        no_tables(),
    ));
}

/// A block in front of the others that is taken over as it is, or that repeats
/// one byte, makes no difference to whether a frame is refused.
#[verifier::rlimit(60)]
#[verifier::spinoff_prover]
pub proof fn stored_block_makes_no_difference(
    start: Seq<u8>,
    content: Seq<u8>,
    byte: u8,
    size: nat,
    rest: Seq<u8>,
)
    requires
        opens(start),
        content.len() <= 131072,
        size <= 131072,
    ensures
        frame_is_countable(start + (le_bytes(8 * content.len(), 3) + content + rest))
            == frame_is_countable(start + rest),
        frame_is_countable(start + (le_bytes(8 * size + 2, 3) + seq![byte] + rest))
            == frame_is_countable(start + rest),
{
    let number: nat = 8 * content.len();
    lemma_block_header(content.len(), 0, 0);
    lemma_plain_block(start, number, content, rest);
    let number: nat = 8 * size + 2;
    lemma_block_header(size, 1, 0);
    lemma_plain_block(start, number, seq![byte], rest);
}

/// A frame whose first block is compressed, holds up to 31 literals as they
/// are, and reads its sequences by the predefined tables, is refused where the
/// literals and what the matches copy outgrow a count of 32 bits; where they
/// do not and the block is the last, it is not.
#[verifier::rlimit(60)]
#[verifier::spinoff_prover]
pub proof fn overgrown_block_is_refused(
    start: Seq<u8>,
    literals: Seq<u8>,
    count: u8,
    bits: Seq<u8>,
    last: bool,
    behind: Seq<u8>,
    lengths: Seq<u32>,
)
    requires
        opens(start),
        literals.len() < 32,
        1 <= count < 128,
        bits.len() <= 131000,
        match_lengths_of(seq![count, 0u8] + bits) == Some(lengths),
    ensures
        ({
            let block = seq![(8 * literals.len()) as u8] + literals + (seq![count, 0u8] + bits);
            let header = le_bytes(
                8 * block.len() + 4 + if last {
                    1nat
                } else {
                    0
                },
                3,
            );
            let frame = start + (header + block + behind);
            &&& literals.len() + total(lengths) > u32::MAX ==> !frame_is_countable(frame)
            &&& literals.len() + total(lengths) <= u32::MAX && last ==> frame_is_countable(frame)
        }),
{
    reveal_with_fuel(byte_power, 4);
    reveal_with_fuel(le_value, 2);
    let section = seq![count, 0u8] + bits;
    let first = (8 * literals.len()) as u8;
    let block = seq![first] + literals + section;
    let number: nat = 8 * block.len() + 4 + if last {
        1nat
    } else {
        0
    };
    lemma_le_round_trip(number, 3);
    let header = le_bytes(number, 3);
    let frame = start + (header + block + behind);
    let at = start.len() as int;
    lemma_opens(start, header + block + behind);
    assert(frame.subrange(at, at + 3) =~= header);
    lemma_block_header(
        block.len(),
        2,
        if last {
            1
        } else {
            0
        },
    );
    assert(frame.subrange(at + 3, at + 3 + block.len()) =~= block);
    assert(first % 4 == 0 && (first / 4) % 2 == 0 && first / 8 == literals.len());
    assert(((first / 4) % 4) % 2 == 0);
    assert(block.subrange(0, 1) =~= seq![first]);
    assert(seq![first].drop_first() =~= Seq::<u8>::empty());
    assert(le_value(seq![first]) == first);
    assert(literals_of(block) == Some((literals.len(), (1 + literals.len()) as int)));
    assert(block.skip((1 + literals.len()) as int) =~= section);
    assert(sequence_count(section) == Some((count as nat, 1int)));
    own_tables_stand_alone(section, count as nat, 1, no_tables(), no_tables());
}

/// A compressed block that holds its literals, up to 31, as they are.
pub open spec fn small_block(literals: Seq<u8>, section: Seq<u8>) -> Seq<u8> {
    seq![(8 * literals.len()) as u8] + literals + section
}

#[verifier::rlimit(60)]
#[verifier::spinoff_prover]
proof fn lemma_small_block(
    literals: Seq<u8>,
    section: Seq<u8>,
    kept: TablesView,
    tables: TablesView,
    copied: nat,
)
    requires
        literals.len() < 32,
        sequences_read(section, kept) == Some((tables, copied)),
    ensures
        block_read(small_block(literals, section), kept) == Some((tables, literals.len() + copied)),
{
    reveal_with_fuel(le_value, 2);
    let first = (8 * literals.len()) as u8;
    let block = small_block(literals, section);
    lemma_short_parts(0, literals.len());
    assert(first == 8 * literals.len());
    assert(first % 4 == 0 && ((first / 4) % 4) % 2 == 0 && first / 8 == literals.len());
    assert(block.subrange(0, 1) =~= seq![first]);
    assert(seq![first].drop_first() =~= Seq::<u8>::empty());
    assert(le_value(seq![first]) == first);
    assert(literals_of(block) == Some((literals.len(), (1 + literals.len()) as int)));
    assert(block.skip((1 + literals.len()) as int) =~= section);
}

#[verifier::rlimit(60)]
#[verifier::spinoff_prover]
proof fn lemma_compressed_block(
    before: Seq<u8>,
    block: Seq<u8>,
    last: nat,
    rest: Seq<u8>,
    kept: TablesView,
    tables: TablesView,
    expanded: nat,
)
    requires
        last < 2,
        block.len() <= 131072,
        block_read(block, kept) == Some((tables, expanded)),
    ensures
        ({
            let front = le_bytes(8 * block.len() + 4 + last, 3) + block;
            blocks_are_countable(before + (front + rest), before.len() as int, kept) == (expanded
                <= u32::MAX && (last == 1 || blocks_are_countable(
                (before + front) + rest,
                (before + front).len() as int,
                tables,
            )))
        }),
{
    reveal_with_fuel(byte_power, 4);
    let number: nat = 8 * block.len() + 4 + last;
    lemma_le_round_trip(number, 3);
    lemma_block_header(block.len(), 2, last);
    let front = le_bytes(number, 3) + block;
    let frame = before + (front + rest);
    let at = before.len() as int;
    assert(frame.subrange(at, at + 3) =~= le_bytes(number, 3));
    assert(frame.subrange(at + 3, at + 3 + block.len()) =~= block);
    assert((before + front) + rest =~= frame);
    assert((before + front).len() == at + 3 + block.len());
}

/// Tables last until the next block: a frame of two compressed blocks, of which
/// the first holds three distributions and the second repeats them, is refused
/// exactly where one of the two outgrows a count of 32 bits, the second read
/// as if it held the distributions itself.
pub proof fn tables_last_until_the_next_block(
    start: Seq<u8>,
    literals: Seq<u8>,
    section: Seq<u8>,
    count: nat,
    width: int,
    literal_lengths: Seq<u8>,
    offsets: Seq<u8>,
    match_lengths: Seq<u8>,
    bits: Seq<u8>,
    lengths: Seq<u32>,
    next_literals: Seq<u8>,
    next_section: Seq<u8>,
    next_count: nat,
    next_width: int,
    next_lengths: Seq<u32>,
    behind: Seq<u8>,
)
    requires
        opens(start),
        literals.len() < 32,
        section.len() <= 131000,
        sequence_count(section) == Some((count, width)),
        count > 0,
        section[width] == 168,
        section.skip(width + 1) == literal_lengths + (offsets + (match_lengths + bits)),
        fse_table_length(literal_lengths + (offsets + (match_lengths + bits)), 35, 9) == Some(
            literal_lengths.len(),
        ),
        fse_table_length(offsets + (match_lengths + bits), 31, 8) == Some(offsets.len()),
        fse_table_length(match_lengths + bits, 52, 9) == Some(match_lengths.len()),
        match_lengths_of(section) == Some(lengths),
        next_literals.len() < 32,
        next_section.len() <= 131000,
        sequence_count(next_section) == Some((next_count, next_width)),
        next_count > 0,
        next_section[next_width] == 252,
        match_lengths_of(
            next_section.take(next_width) + seq![168u8] + literal_lengths + offsets + match_lengths
                + next_section.skip(next_width + 1),
        ) == Some(next_lengths),
    ensures
        ({
            let first = small_block(literals, section);
            let second = small_block(next_literals, next_section);
            let frame = start + (le_bytes(8 * first.len() + 4, 3) + first + (le_bytes(
                8 * second.len() + 5,
                3,
            ) + second + behind));
            frame_is_countable(frame) <==> literals.len() + total(lengths) <= u32::MAX
                && next_literals.len() + total(next_lengths) <= u32::MAX
        }),
{
    let tables = distributions(literal_lengths, offsets, match_lengths);
    let first = small_block(literals, section);
    let second = small_block(next_literals, next_section);
    distributions_are_read_in_order(
        section,
        count,
        width,
        literal_lengths,
        offsets,
        match_lengths,
        bits,
        no_tables(),
    );
    lemma_small_block(literals, section, no_tables(), tables, total(lengths));
    repeated_tables_are_those_from_before(
        next_section,
        next_count,
        next_width,
        literal_lengths,
        offsets,
        match_lengths,
    );
    lemma_small_block(next_literals, next_section, tables, tables, total(next_lengths));
    let front = le_bytes(8 * first.len() + 4, 3) + first;
    let back = le_bytes(8 * second.len() + 5, 3) + second;
    lemma_opens(start, front + (back + behind));
    lemma_compressed_block(
        start,
        first,
        0,
        back + behind,
        no_tables(),
        tables,
        literals.len() + total(lengths),
    );
    lemma_compressed_block(
        start + front,
        second,
        1,
        behind,
        tables,
        tables,
        next_literals.len() + total(next_lengths),
    );
    assert(8 * first.len() + 4 + 0 == 8 * first.len() + 4);
    assert(8 * second.len() + 4 + 1 == 8 * second.len() + 5);
}

/// Reads the `width` bytes of `data` from `at` on.
fn number_at(data: &[u8], at: usize, width: usize) -> (n: u64)
    requires
        width <= 5,
        at + width <= data@.len(),
    ensures
        n == le_value(data@.subrange(at as int, at + width)),
        n < byte_power(width as nat),
    decreases width,
{
    if width == 0 {
        return 0;
    }
    let end: usize = data.len();
    assert(at + width <= end);
    let rest: u64 = number_at(data, at + 1, width - 1);
    proof {
        reveal_with_fuel(byte_power, 6);
        let all = data@.subrange(at as int, at + width);
        assert(all.drop_first() =~= data@.subrange(at + 1, at + width));
    }
    data[at] as u64 + 256 * rest
}

/// How many literals a block has, and where they end.
fn read_literals(block: &[u8]) -> (r: Option<(u64, usize)>)
    ensures
        match r {
            Some((count, end)) => literals_of(block@) == Some((count as nat, end as int)),
            None => literals_of(block@) is None,
        },
        r matches Some((count, end)) ==> count < 0x100_0000_0000 && end <= block@.len(),
{
    if block.len() == 0 {
        return None;
    }
    let first: u8 = block[0];
    let format: u8 = (first / 4) % 4;
    let width: usize = if first % 4 < 2 {
        if format % 2 == 0 {
            1
        } else if format == 1 {
            2
        } else {
            3
        }
    } else if format < 2 {
        3
    } else if format == 2 {
        4
    } else {
        5
    };
    if block.len() < width {
        return None;
    }
    let header: u64 = number_at(block, 0, width);
    proof {
        reveal_with_fuel(byte_power, 6);
    }
    let plain: u64 = if format % 2 == 0 {
        header / 8
    } else {
        header / 16
    };
    let (count, stored): (u64, u64) = if first % 4 == 0 {
        (plain, plain)
    } else if first % 4 == 1 {
        (plain, 1)
    } else if format < 2 {
        ((header / 16) % 1024, header / 16384)
    } else if format == 2 {
        ((header / 16) % 16384, header / 262144)
    } else {
        ((header / 16) % 262144, header / 4194304)
    };
    assert((count as nat, stored as nat) == literals_sizes(first, header as nat));
    if width as u64 + stored > block.len() as u64 {
        None
    } else {
        Some((count, width + stored as usize))
    }
}

/// Reads the table that `rest` begins with.
fn read_table(mode: u8, rest: &[u8], kept: Table, max_symbol: u8, max_log: u8) -> (r: Option<Table>)
    ensures
        match r {
            Some(table) => table_from(mode, rest@, kept@, max_symbol, max_log) == Some(table@),
            None => table_from(mode, rest@, kept@, max_symbol, max_log) is None,
        },
        r matches Some(table) ==> mode < 3 ==> table.description@.len() <= rest@.len(),
{
    if mode == 0 {
        let description: Vec<u8> = Vec::new();
        assert(description@ =~= Seq::<u8>::empty());
        Some(Table { mode, description })
    } else if mode == 1 {
        if rest.len() == 0 {
            None
        } else {
            Some(Table { mode, description: copy_range(rest, 0, 1) })
        }
    } else if mode == 2 {
        match read_fse_table(rest, max_symbol, max_log) {
            Some(length) => Some(Table { mode, description: copy_range(rest, 0, length) }),
            None => None,
        }
    } else {
        Some(kept)
    }
}

/// What stands behind the table that `rest` begins with.
fn skip_table<'a>(mode: u8, rest: &'a [u8], table: &Table) -> (r: &'a [u8])
    requires
        mode < 4,
        mode < 3 ==> table.description@.len() <= rest@.len(),
    ensures
        r@ == behind_table(mode, rest@, table@),
{
    if mode == 3 {
        rest
    } else {
        vstd::slice::slice_subrange(rest, table.description.len(), rest.len())
    }
}

/// Reads the tables that `rest` begins with.
fn read_tables(modes: u8, rest: &[u8], kept: Tables) -> (r: Option<(Tables, &[u8])>)
    ensures
        match r {
            Some((tables, bits)) => tables_from(modes, rest@, kept@) == Some((tables@, bits@)),
            None => tables_from(modes, rest@, kept@) is None,
        },
{
    let first: u8 = modes / 64;
    let second: u8 = (modes / 16) % 4;
    let third: u8 = (modes / 4) % 4;
    let literal_lengths: Table = match read_table(first, rest, kept.literal_lengths, 35, 9) {
        Some(table) => table,
        None => return None,
    };
    let rest: &[u8] = skip_table(first, rest, &literal_lengths);
    let offsets: Table = match read_table(second, rest, kept.offsets, 31, 8) {
        Some(table) => table,
        None => return None,
    };
    let rest: &[u8] = skip_table(second, rest, &offsets);
    let match_lengths: Table = match read_table(third, rest, kept.match_lengths, 52, 9) {
        Some(table) => table,
        None => return None,
    };
    let rest: &[u8] = skip_table(third, rest, &match_lengths);
    Some((Tables { literal_lengths, offsets, match_lengths }, rest))
}

/// Writes a section of sequences that holds its tables itself.
fn standalone_section(count: &[u8], tables: &Tables, bits: &[u8]) -> (section: Vec<u8>)
    ensures
        section@ == standalone(count@, tables@, bits@),
{
    let mut section: Vec<u8> = Vec::new();
    push_bytes(&mut section, count);
    section.push(
        64 * (tables.literal_lengths.mode % 4) + 16 * (tables.offsets.mode % 4) + 4 * (
        tables.match_lengths.mode % 4),
    );
    push_bytes(&mut section, tables.literal_lengths.description.as_slice());
    push_bytes(&mut section, tables.offsets.description.as_slice());
    push_bytes(&mut section, tables.match_lengths.description.as_slice());
    push_bytes(&mut section, bits);
    assert(section@ =~= standalone(count@, tables@, bits@));
    section
}

proof fn lemma_total_grows(lengths: Seq<u32>, n: int)
    requires
        0 <= n <= lengths.len(),
    ensures
        total(lengths.take(n)) <= total(lengths),
    decreases lengths.len(),
{
    if n < lengths.len() {
        lemma_total_grows(lengths.drop_last(), n);
        assert(lengths.drop_last().take(n) =~= lengths.take(n));
    } else {
        assert(lengths.take(n) =~= lengths);
    }
}

/// The sum of the lengths, where 32 bits hold it.
fn sum_of(lengths: &Vec<u32>) -> (r: Option<u64>)
    ensures
        match r {
            Some(sum) => sum == total(lengths@) && sum <= u32::MAX,
            None => total(lengths@) > u32::MAX,
        },
{
    let mut sum: u64 = 0;
    for i in 0..lengths.len()
        invariant
            sum == total(lengths@.take(i as int)),
            sum <= u32::MAX,
    {
        assert(lengths@.take(i + 1).drop_last() =~= lengths@.take(i as int));
        sum = sum + lengths[i] as u64;
        if sum > 0xFFFF_FFFF {
            proof {
                lemma_total_grows(lengths@, i + 1);
            }
            return None;
        }
    }
    assert(lengths@.take(lengths@.len() as int) =~= lengths@);
    Some(sum)
}

/// What came of reading a block.
enum BlockStep {
    /// It cannot be read.
    Broken,
    /// It outgrows a count of 32 bits.
    TooLarge,
    /// It is read, and leaves these tables behind.
    Read(Tables),
}

/// Reads the sequences of a block that has so many literals.
fn read_sequences(section: &[u8], kept: Tables, literals: u64) -> (step: BlockStep)
    requires
        literals < 0x100_0000_0000,
    ensures
        match step {
            BlockStep::Broken => sequences_read(section@, kept@) is None,
            BlockStep::TooLarge => sequences_read(section@, kept@) matches Some((_, copied))
                && literals + copied > u32::MAX,
            BlockStep::Read(tables) => sequences_read(section@, kept@) matches Some((left, copied))
                && tables@ == left && literals + copied <= u32::MAX,
        },
{
    let length: usize = section.len();
    if length == 0 {
        return BlockStep::Broken;
    }
    let first: u8 = section[0];
    let (count, width): (u64, usize) = if first == 0 {
        (0, 1)
    } else if first < 128 {
        if length < 2 {
            return BlockStep::Broken;
        }
        (first as u64, 1)
    } else if first < 255 {
        if length < 3 {
            return BlockStep::Broken;
        }
        (256 * (first as u64 - 128) + section[1] as u64, 2)
    } else {
        if length < 4 {
            return BlockStep::Broken;
        }
        (0x7F00 + section[1] as u64 + 256 * section[2] as u64, 3)
    };
    assert(sequence_count(section@) == Some((count as nat, width as int)));
    if count == 0 {
        return if literals > 0xFFFF_FFFF {
            BlockStep::TooLarge
        } else {
            BlockStep::Read(kept)
        };
    }
    let rest: &[u8] = vstd::slice::slice_subrange(section, width + 1, length);
    assert(rest@ =~= section@.skip(width + 1));
    let (tables, bits): (Tables, &[u8]) = match read_tables(section[width], rest, kept) {
        Some(found) => found,
        None => return BlockStep::Broken,
    };
    let announced: &[u8] = vstd::slice::slice_subrange(section, 0, width);
    assert(announced@ =~= section@.take(width as int));
    match match_lengths(standalone_section(announced, &tables, bits).as_slice()) {
        None => BlockStep::Broken,
        Some(lengths) => match sum_of(&lengths) {
            Some(copied) => if literals + copied > 0xFFFF_FFFF {
                BlockStep::TooLarge
            } else {
                BlockStep::Read(tables)
            },
            None => BlockStep::TooLarge,
        },
    }
}

/// Reads a compressed block.
fn read_block(block: &[u8], kept: Tables) -> (step: BlockStep)
    ensures
        match step {
            BlockStep::Broken => block_read(block@, kept@) is None,
            BlockStep::TooLarge => block_read(block@, kept@) matches Some((_, expanded)) && expanded
                > u32::MAX,
            BlockStep::Read(tables) => block_read(block@, kept@) matches Some((left, expanded))
                && tables@ == left && expanded <= u32::MAX,
        },
{
    match read_literals(block) {
        None => BlockStep::Broken,
        Some((literals, end)) => {
            let section: &[u8] = vstd::slice::slice_subrange(block, end, block.len());
            assert(section@ =~= block@.skip(end as int));
            read_sequences(section, kept, literals)
        },
    }
}

/// A table that is not there yet.
fn no_table() -> (table: Table)
    ensures
        table@ == (TableView { mode: 3, description: Seq::empty() }),
{
    let description: Vec<u8> = Vec::new();
    assert(description@ =~= Seq::<u8>::empty());
    Table { mode: 3, description }
}

/// Whether no compressed block from `start` on outgrows a count of 32 bits.
fn check_blocks(frame: &[u8], start: usize) -> (r: bool)
    ensures
        r == blocks_are_countable(frame@, start as int, no_tables()),
{
    let mut tables: Tables = Tables {
        literal_lengths: no_table(),
        offsets: no_table(),
        match_lengths: no_table(),
    };
    let mut at: usize = start;
    while at <= frame.len() && frame.len() - at >= 3
        invariant
            blocks_are_countable(frame@, start as int, no_tables()) == blocks_are_countable(
                frame@,
                at as int,
                tables@,
            ),
        decreases frame@.len() - at,
    {
        let header: u64 = number_at(frame, at, 3);
        proof {
            reveal_with_fuel(byte_power, 4);
        }
        let kind: u64 = (header / 2) % 4;
        let size: u64 = header / 8;
        let body: u64 = if kind == 1 {
            1
        } else {
            size
        };
        if kind == 3 || size > MAX_BLOCK_SIZE || body > (frame.len() - at - 3) as u64 {
            return true;
        }
        let end: usize = at + 3 + body as usize;
        if kind == 2 {
            match read_block(vstd::slice::slice_subrange(frame, at + 3, end), tables) {
                BlockStep::Broken => return true,
                BlockStep::TooLarge => return false,
                BlockStep::Read(left) => {
                    tables = left;
                },
            }
        }
        if header % 2 == 1 {
            return true;
        }
        at = end;
    }
    true
}

/// Whether no compressed block of a frame outgrows a count of 32 bits.
pub fn check_frame(frame: &[u8]) -> (r: bool)
    ensures
        r == frame_is_countable(frame@),
{
    if frame.len() < 5 || number_at(frame, 0, 4) != FRAME_MAGIC {
        return true;
    }
    let descriptor: u8 = frame[4];
    let dictionary: usize = if (descriptor / 32) % 2 == 1 {
        5
    } else {
        6
    };
    let size: usize = dictionary + if descriptor % 4 == 3 {
        4
    } else {
        (descriptor % 4) as usize
    };
    let start: usize = size + if descriptor / 64 == 3 {
        8
    } else if descriptor / 64 == 2 {
        4
    } else if descriptor / 64 == 1 {
        2
    } else {
        6 - dictionary
    };
    if start > frame.len() || (dictionary == 6 && frame[5] == 255) {
        return true;
    }
    if number_at(frame, dictionary, size - dictionary) != 0 {
        return true;
    }
    check_blocks(frame, start)
}

} // verus!
