//! Little-endian integers in byte sequences.

use vstd::prelude::*;

verus! {

/// The number that `s` holds, least significant byte first.
pub open spec fn le_value(s: Seq<u8>) -> nat
    decreases s.len(),
{
    if s.len() == 0 {
        0
    } else {
        s[0] as nat + 256 * le_value(s.drop_first())
    }
}

/// The number that the bytes stand for, most significant first.
pub open spec fn be_value(s: Seq<u8>) -> nat
    decreases s.len(),
{
    if s.len() == 0 {
        0
    } else {
        256 * be_value(s.drop_last()) + s.last() as nat
    }
}

/// How many bytes `n` takes.
pub open spec fn byte_length(n: nat) -> nat
    decreases n,
{
    if n < 256 {
        1
    } else {
        byte_length(n / 256) + 1
    }
}

/// Bytes with no zero in front are as many as their number takes.
pub proof fn lemma_byte_length(s: Seq<u8>)
    requires
        s.len() > 0,
        s[0] != 0,
    ensures
        s.len() == byte_length(be_value(s)),
        be_value(s) > 0,
        be_value(s) % 2 == s.last() % 2,
    decreases s.len(),
{
    let fewer = s.drop_last();
    if s.len() > 1 {
        lemma_byte_length(fewer);
        assert(be_value(s) / 256 == be_value(fewer));
    } else {
        assert(be_value(fewer) == 0);
    }
}

/// The `width` least significant bytes of `n`, least significant first.
pub open spec fn le_bytes(n: nat, width: nat) -> Seq<u8>
    decreases width,
{
    if width == 0 {
        Seq::empty()
    } else {
        seq![(n % 256) as u8] + le_bytes(n / 256, (width - 1) as nat)
    }
}

/// A 32-bit pattern read as a signed number in two's complement.
pub open spec fn signed_32(n: nat) -> int {
    if n >= 0x8000_0000 {
        n - 0x1_0000_0000
    } else {
        n as int
    }
}

/// 256 to the power `width`: one more than the largest number of `width` bytes.
pub open spec fn byte_power(width: nat) -> nat
    decreases width,
{
    if width == 0 {
        1
    } else {
        256 * byte_power((width - 1) as nat)
    }
}

/// Writing a number that fits and reading it back gives the number.
pub proof fn lemma_le_round_trip(n: nat, width: nat)
    requires
        n < byte_power(width),
    ensures
        le_bytes(n, width).len() == width,
        le_value(le_bytes(n, width)) == n,
    decreases width,
{
    if width > 0 {
        lemma_le_round_trip(n / 256, (width - 1) as nat);
        let s = le_bytes(n, width);
        assert(s.drop_first() =~= le_bytes(n / 256, (width - 1) as nat));
    }
}

/// Four bytes hold a number below two to the power 32.
pub proof fn lemma_le_value_4(s: Seq<u8>)
    requires
        s.len() == 4,
    ensures
        le_value(s) == s[0] as nat + 256 * s[1] as nat + 65536 * s[2] as nat + 16777216
            * s[3] as nat,
        le_value(s) < 0x1_0000_0000,
{
    reveal_with_fuel(le_value, 5);
}

/// A number as bytes: the first is what is left over by 256, and the others
/// are the bytes of the number of times that 256 goes into it.
pub proof fn least_significant_byte_is_first(n: nat, width: nat, s: Seq<u8>)
    requires
        width > 0,
        s.len() > 0,
    ensures
        le_bytes(n, width).len() == width,
        le_bytes(n, width)[0] == n % 256,
        le_bytes(n, width).drop_first() == le_bytes(n / 256, (width - 1) as nat),
        le_value(s) % 256 == s[0],
        le_value(s) / 256 == le_value(s.drop_first()),
    decreases width,
{
    if width > 1 {
        least_significant_byte_is_first(n / 256, (width - 1) as nat, s);
    }
    assert(le_bytes(n, width).drop_first() =~= le_bytes(n / 256, (width - 1) as nat));
}

/// Reading bytes as a number and writing it back gives the bytes.
pub proof fn read_bytes_are_written_back(s: Seq<u8>)
    ensures
        le_bytes(le_value(s), s.len()) == s,
        le_value(s) < byte_power(s.len()),
    decreases s.len(),
{
    if s.len() > 0 {
        read_bytes_are_written_back(s.drop_first());
        assert(le_value(s) % 256 == s[0]);
        assert(le_value(s) / 256 == le_value(s.drop_first()));
        assert(seq![s[0]] + s.drop_first() =~= s);
    } else {
        assert(le_bytes(le_value(s), 0) =~= s);
    }
}

/// Reads the four bytes of `data` from `at` on.
pub fn u32_at(data: &[u8], at: usize) -> (n: u32)
    requires
        at + 4 <= data@.len(),
    ensures
        n == le_value(data@.subrange(at as int, at + 4)),
{
    proof {
        lemma_le_value_4(data@.subrange(at as int, at + 4));
    }
    let end: usize = data.len();
    assert(at + 4 <= end);
    (data[at] as u32) + 256 * (data[at + 1] as u32) + 65536 * (data[at + 2] as u32) + 16777216 * (
    data[at + 3] as u32)
}

/// Reads the eight bytes of `data` from `at` on.
pub fn u64_at(data: &[u8], at: usize) -> (n: u64)
    requires
        at + 8 <= data@.len(),
    ensures
        n == le_value(data@.subrange(at as int, at + 8)),
{
    let end: usize = data.len();
    assert(at + 8 <= end);
    let low: u32 = u32_at(data, at);
    let high: u32 = u32_at(data, at + 4);
    proof {
        let s = data@.subrange(at as int, at + 8);
        let t = data@.subrange(at as int, at + 4);
        let u = data@.subrange(at + 4, at + 8);
        assert(s.drop_first().drop_first().drop_first().drop_first() =~= u);
        lemma_le_value_4(t);
        reveal_with_fuel(le_value, 5);
        assert(le_value(s) == le_value(t) + 0x1_0000_0000 * le_value(u));
        lemma_le_value_4(u);
    }
    (low as u64) + 0x1_0000_0000 * (high as u64)
}

/// Reads the four bytes of `data` from `at` on as a signed number.
pub fn i32_at(data: &[u8], at: usize) -> (n: i32)
    requires
        at + 4 <= data@.len(),
    ensures
        n == signed_32(le_value(data@.subrange(at as int, at + 4))),
{
    signed(u32_at(data, at))
}

/// A 32-bit pattern read as a signed number.
pub fn signed(pattern: u32) -> (n: i32)
    ensures
        n == signed_32(pattern as nat),
{
    if pattern >= 0x8000_0000 {
        let distance: u32 = 0xFFFF_FFFF - pattern;
        -(distance as i32) - 1
    } else {
        pattern as i32
    }
}

/// Appends the `width` least significant bytes of `n`, least significant first.
pub fn push_le(out: &mut Vec<u8>, n: u64, width: usize)
    ensures
        final(out)@ == old(out)@ + le_bytes(n as nat, width as nat),
    decreases width,
{
    if width > 0 {
        out.push((n % 256) as u8);
        push_le(out, n / 256, width - 1);
    }
    assert(out@ =~= old(out)@ + le_bytes(n as nat, width as nat));
}

/// Appends a copy of `bytes`.
pub fn push_bytes(out: &mut Vec<u8>, bytes: &[u8])
    ensures
        final(out)@ == old(out)@ + bytes@,
{
    out.extend_from_slice(bytes);
    assert(out@ =~= old(out)@ + bytes@);
}

/// A copy of the bytes of `data` from `start` up to `end`.
pub fn copy_range(data: &[u8], start: usize, end: usize) -> (v: Vec<u8>)
    requires
        start <= end <= data@.len(),
    ensures
        v@ == data@.subrange(start as int, end as int),
{
    let mut v: Vec<u8> = Vec::new();
    push_bytes(&mut v, vstd::slice::slice_subrange(data, start, end));
    assert(v@ =~= data@.subrange(start as int, end as int));
    v
}

/// Whether `data` begins with `prefix`.
pub fn begins_with(data: &[u8], prefix: &[u8]) -> (r: bool)
    ensures
        r == prefix@.is_prefix_of(data@),
{
    if data.len() < prefix.len() {
        return false;
    }
    for i in 0..prefix.len()
        invariant
            prefix@.len() <= data@.len(),
            forall|j: int| 0 <= j < i ==> data@[j] == #[trigger] prefix@[j],
    {
        if data[i] != prefix[i] {
            assert(data@.subrange(0, prefix@.len() as int)[i as int] != prefix@[i as int]);
            return false;
        }
    }
    assert(data@.subrange(0, prefix@.len() as int) =~= prefix@);
    true
}

} // verus!
