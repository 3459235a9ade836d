//! Text: decimal and hexadecimal numerals, padding, search and comparison.

use vstd::prelude::*;
use vstd::utf8::{encode_utf8, encode_utf8_decode_utf8};

verus! {

/// The character of a digit below sixteen.
pub open spec fn digit_char(d: int) -> char {
    if d < 10 {
        (48 + d) as char
    } else {
        (87 + d) as char
    }
}

/// The decimal numeral of `n`, without leading zeros.
pub open spec fn decimal(n: nat) -> Seq<char>
    decreases n,
{
    if n < 10 {
        seq![digit_char(n as int)]
    } else {
        decimal(n / 10).push(digit_char((n % 10) as int))
    }
}

/// The decimal numeral of `n`, with a minus sign where it is negative.
pub open spec fn signed_decimal(n: int) -> Seq<char> {
    if n < 0 {
        seq!['-'] + decimal((-n) as nat)
    } else {
        decimal(n as nat)
    }
}

/// Two lowercase hexadecimal digits for each byte, high half first.
pub open spec fn hex_text(bytes: Seq<u8>) -> Seq<char> {
    Seq::new(
        (2 * bytes.len()) as nat,
        |i: int|
            digit_char(
                if i % 2 == 0 {
                    bytes[i / 2] as int / 16
                } else {
                    bytes[i / 2] as int % 16
                },
            ),
    )
}

/// The last `width` hexadecimal digits of `n`, zeros in front where needed.
pub open spec fn hex_digits(n: nat, width: nat) -> Seq<char>
    decreases width,
{
    if width == 0 {
        Seq::empty()
    } else {
        hex_digits(n / 16, (width - 1) as nat).push(digit_char((n % 16) as int))
    }
}

/// How many hexadecimal digits `n` has.
pub open spec fn hex_width(n: nat) -> nat
    decreases n,
{
    if n < 16 {
        1
    } else {
        hex_width(n / 16) + 1
    }
}

/// `text` behind as many spaces as make it `width` characters long.
pub open spec fn right_aligned(text: Seq<char>, width: nat) -> Seq<char> {
    if text.len() < width {
        Seq::new((width - text.len()) as nat, |i: int| ' ') + text
    } else {
        text
    }
}

/// The numerals of `items` with `separator` between them.
pub open spec fn joined(items: Seq<u32>, separator: Seq<char>) -> Seq<char>
    decreases items.len(),
{
    if items.len() == 0 {
        Seq::empty()
    } else if items.len() == 1 {
        decimal(items[0] as nat)
    } else {
        joined(items.drop_last(), separator) + separator + decimal(items.last() as nat)
    }
}

/// The upper case letters of ASCII become lower case, all else stays.
pub open spec fn ascii_lower(c: char) -> char {
    if 'A' <= c <= 'Z' {
        (c as int + 32) as char
    } else {
        c
    }
}

/// `text` with each upper case letter of ASCII in lower case.
pub open spec fn ascii_lowercase(text: Seq<char>) -> Seq<char> {
    text.map_values(|c: char| ascii_lower(c))
}

/// Every character of `text` is one of ASCII.
pub open spec fn is_ascii_text(text: Seq<char>) -> bool {
    forall|i: int| 0 <= i < text.len() ==> (#[trigger] text[i] as int) < 128
}

/// Equal but for the case of ASCII letters.
pub open spec fn same_but_for_case(a: Seq<char>, b: Seq<char>) -> bool {
    ascii_lowercase(a) == ascii_lowercase(b)
}

/// The decimal numeral of a number is never empty and holds digits only.
pub proof fn lemma_decimal_digits(n: nat)
    ensures
        decimal(n).len() > 0,
        forall|i: int| 0 <= i < decimal(n).len() ==> '0' <= #[trigger] decimal(n)[i] <= '9',
    decreases n,
{
    if n >= 10 {
        lemma_decimal_digits(n / 10);
    }
}

/// Distinct numbers have distinct decimal numerals.
pub proof fn lemma_decimal_injective(a: nat, b: nat)
    requires
        decimal(a) == decimal(b),
    ensures
        a == b,
    decreases a,
{
    let x = decimal(a);
    lemma_decimal_digits(a / 10);
    lemma_decimal_digits(b / 10);
    if a < 10 || b < 10 {
        assert(x.len() == 1 ==> a < 10 && b < 10);
        assert(x[0] == digit_char(a as int) || x[0] == digit_char(b as int));
        if a < 10 && b >= 10 {
            assert(decimal(b).len() > 1);
        }
        if b < 10 && a >= 10 {
            assert(decimal(a).len() > 1);
        }
    } else {
        assert(decimal(a).drop_last() =~= decimal(a / 10));
        assert(decimal(b).drop_last() =~= decimal(b / 10));
        assert(decimal(a).last() == digit_char((a % 10) as int));
        assert(decimal(b).last() == digit_char((b % 10) as int));
        lemma_decimal_injective(a / 10, b / 10);
    }
}

/// The decimal numeral of a number below ten is its digit; that of any other is
/// the numeral of its tenth part with the last digit behind it. So no numeral
/// of more than one digit begins with a zero.
pub proof fn decimal_goes_digit_by_digit(n: nat)
    ensures
        decimal(n).last() as int == '0' as int + n % 10,
        n < 10 ==> decimal(n).len() == 1,
        n >= 10 ==> decimal(n).len() == decimal(n / 10).len() + 1 && decimal(n).drop_last()
            == decimal(n / 10),
        n > 0 ==> decimal(n)[0] != '0',
    decreases n,
{
    if n >= 10 {
        decimal_goes_digit_by_digit(n / 10);
        assert(decimal(n).drop_last() =~= decimal(n / 10));
        assert(decimal(n)[0] == decimal(n / 10)[0]);
    }
}

/// What a hexadecimal digit stands for.
pub open spec fn digit_value(c: char) -> int {
    if '0' <= c && c <= '9' {
        c as int - '0' as int
    } else {
        c as int - 'a' as int + 10
    }
}

/// Hexadecimal text has two digits for each byte, of 0 to 9 and a to f, which
/// give the byte back, high half first.
pub proof fn hex_text_gives_its_bytes_back(bytes: Seq<u8>, i: int)
    requires
        0 <= i < bytes.len(),
    ensures
        hex_text(bytes).len() == 2 * bytes.len(),
        ({
            let high = hex_text(bytes)[2 * i];
            let low = hex_text(bytes)[2 * i + 1];
            &&& ('0' <= high && high <= '9') || ('a' <= high && high <= 'f')
            &&& ('0' <= low && low <= '9') || ('a' <= low && low <= 'f')
            &&& bytes[i] == 16 * digit_value(high) + digit_value(low)
        }),
{
    assert((2 * i) / 2 == i && (2 * i) % 2 == 0);
    assert((2 * i + 1) / 2 == i && (2 * i + 1) % 2 == 1);
}

/// The hexadecimal digits of a number are as many as asked for, and the last
/// of them stands for what is left over by sixteen.
pub proof fn hex_digits_go_one_by_one(n: nat, width: nat)
    requires
        width > 0,
    ensures
        hex_digits(n, width).len() == width,
        hex_digits(n, width).drop_last() == hex_digits(n / 16, (width - 1) as nat),
        digit_value(hex_digits(n, width).last()) == n % 16,
        ('0' <= hex_digits(n, width).last() && hex_digits(n, width).last() <= '9') || ('a'
            <= hex_digits(n, width).last() && hex_digits(n, width).last() <= 'f'),
    decreases width,
{
    if width > 1 {
        hex_digits_go_one_by_one(n / 16, (width - 1) as nat);
    }
    assert(hex_digits(n, width).drop_last() =~= hex_digits(n / 16, (width - 1) as nat));
}

/// Aligned text ends in the text, has nothing but spaces before it, and is as
/// wide as asked for unless the text is wider.
pub proof fn aligned_text_ends_in_the_text(text: Seq<char>, width: nat)
    ensures
        right_aligned(text, width).len() == if text.len() < width {
            width
        } else {
            text.len()
        },
        ({
            let before = right_aligned(text, width).len() - text.len();
            &&& right_aligned(text, width).skip(before) == text
            &&& forall|i: int| 0 <= i < before ==> #[trigger] right_aligned(text, width)[i] == ' '
        }),
{
    let before = right_aligned(text, width).len() - text.len();
    assert(right_aligned(text, width).skip(before) =~= text);
}

/// Of two lists of numbers, neither empty, the text of both together is the
/// text of one, the separator, and the text of the other.
pub proof fn joined_lists_join(a: Seq<u32>, b: Seq<u32>, separator: Seq<char>)
    requires
        a.len() > 0,
        b.len() > 0,
    ensures
        joined(a + b, separator) == joined(a, separator) + separator + joined(b, separator),
        a.len() == 1 ==> joined(a, separator) == decimal(a[0] as nat),
    decreases b.len(),
{
    let all = a + b;
    assert(all.drop_last() =~= a + b.drop_last());
    assert(all.last() == b.last());
    if b.len() == 1 {
        assert(all.drop_last() =~= a);
    } else {
        joined_lists_join(a, b.drop_last(), separator);
        assert(joined(all, separator) =~= joined(a, separator) + separator + joined(b, separator));
    }
}

fn digit_of(d: u8) -> (c: char)
    requires
        d < 16,
    ensures
        c == digit_char(d as int),
{
    if d < 10 {
        (48u8 + d) as char
    } else {
        (87u8 + d) as char
    }
}

/// Appends the decimal numeral of `n`.
pub fn push_decimal(out: &mut String, n: u64)
    ensures
        final(out)@ == old(out)@ + decimal(n as nat),
    decreases n,
{
    if n >= 10 {
        push_decimal(out, n / 10);
    }
    out.push(digit_of((n % 10) as u8));
}

/// The decimal numeral of `n` behind `head`.
pub fn numbered(head: &str, n: u64) -> (s: String)
    ensures
        s@ == head@ + decimal(n as nat),
{
    let mut s: String = head.to_string();
    push_decimal(&mut s, n);
    s
}

/// The decimal numeral of `n` between `head` and `tail`.
pub fn counted(head: &str, n: u64, tail: &str) -> (s: String)
    ensures
        s@ == head@ + decimal(n as nat) + tail@,
{
    let mut s: String = head.to_string();
    push_decimal(&mut s, n);
    s.append(tail);
    s
}

/// Appends the decimal numeral of `n`, with a minus sign where it is negative.
pub fn push_signed(out: &mut String, n: i64)
    ensures
        final(out)@ == old(out)@ + signed_decimal(n as int),
{
    if n < 0 {
        out.push('-');
        let magnitude: u64 = (-(n as i128)) as u64;
        push_decimal(out, magnitude);
    } else {
        push_decimal(out, n as u64);
    }
}

/// Appends the last `width` hexadecimal digits of `n`.
pub fn push_hex(out: &mut String, n: u64, width: usize)
    ensures
        final(out)@ == old(out)@ + hex_digits(n as nat, width as nat),
    decreases width,
{
    if width > 0 {
        push_hex(out, n / 16, width - 1);
        out.push(digit_of((n % 16) as u8));
    }
}

fn hex_width_of(n: u64) -> (w: usize)
    ensures
        w == hex_width(n as nat),
        w <= 16,
{
    proof {
        reveal_with_fuel(hex_width, 16);
    }
    let mut w: usize = 1;
    let mut rest: u64 = n;
    while rest >= 16
        invariant
            w + hex_width(rest as nat) == hex_width(n as nat) + 1,
            hex_width(n as nat) <= 16,
        decreases rest,
    {
        rest = rest / 16;
        w = w + 1;
    }
    w
}

/// Appends `n` in hexadecimal behind `0x`, with at least four digits.
pub fn push_prefixed_hex(out: &mut String, n: u32)
    ensures
        final(out)@ == old(out)@ + prefixed_hex(n as nat),
{
    out.append("0x");
    let w: usize = hex_width_of(n as u64);
    push_hex(out, n as u64, if w < 4 { 4 } else { w });
    assert(out@ =~= old(out)@ + prefixed_hex(n as nat));
}

/// `n` in hexadecimal behind `0x`, with at least four digits.
pub open spec fn prefixed_hex(n: nat) -> Seq<char> {
    "0x"@ + hex_digits(
        n,
        if hex_width(n) < 4 {
            4
        } else {
            hex_width(n)
        },
    )
}

/// Appends the decimal numeral of `n`, right aligned in `width` characters.
pub fn push_aligned(out: &mut String, n: u64, width: usize)
    ensures
        final(out)@ == old(out)@ + right_aligned(decimal(n as nat), width as nat),
{
    let mut numeral: String = String::new();
    push_decimal(&mut numeral, n);
    let length: usize = numeral.as_str().unicode_len();
    assert(numeral@ =~= decimal(n as nat));
    if length < width {
        let gap: usize = width - length;
        for i in 0..gap
            invariant
                out@ == old(out)@ + Seq::new(i as nat, |j: int| ' '),
        {
            out.push(' ');
            assert(out@ =~= old(out)@ + Seq::new((i + 1) as nat, |j: int| ' '));
        }
        out.append(numeral.as_str());
    } else {
        out.append(numeral.as_str());
    }
    assert(out@ =~= old(out)@ + right_aligned(decimal(n as nat), width as nat));
}

/// Appends the numerals of `items` with `separator` between them.
pub fn push_joined(out: &mut String, items: &[u32], separator: &str)
    ensures
        final(out)@ == old(out)@ + joined(items@, separator@),
{
    for i in 0..items.len()
        invariant
            out@ == old(out)@ + joined(items@.take(i as int), separator@),
    {
        let ghost before = out@;
        proof {
            assert(items@.take(i + 1).drop_last() =~= items@.take(i as int));
            assert(items@.take(i + 1).last() == items@[i as int]);
        }
        if i > 0 {
            out.append(separator);
        }
        push_decimal(out, items[i] as u64);
        assert(out@ =~= old(out)@ + joined(items@.take(i + 1), separator@));
    }
    assert(items@.take(items@.len() as int) =~= items@);
}

/// Two lowercase hexadecimal digits for each byte.
pub fn hex_encode(bytes: &[u8]) -> (s: String)
    ensures
        s@ == hex_text(bytes@),
{
    let mut s: String = String::new();
    for i in 0..bytes.len()
        invariant
            s@ == hex_text(bytes@.take(i as int)),
    {
        let b: u8 = bytes[i];
        s.push(digit_of(b / 16));
        s.push(digit_of(b % 16));
        assert(s@ =~= hex_text(bytes@.take(i + 1)));
    }
    assert(bytes@.take(bytes@.len() as int) =~= bytes@);
    s
}

/// The characters of `s`, in a vector.
pub fn chars_of(s: &str) -> (v: Vec<char>)
    ensures
        v@ == s@,
{
    let mut v: Vec<char> = Vec::new();
    for c in it: s.chars()
        invariant
            v@ == it.seq().take(it.index() as int),
            it.seq() == s@,
    {
        v.push(c);
    }
    v
}

/// Whether `a` and `b` hold the same characters.
pub fn same_text(a: &str, b: &str) -> (r: bool)
    ensures
        r == (a@ == b@),
{
    let x: &[u8] = a.as_bytes();
    let y: &[u8] = b.as_bytes();
    if x.len() != y.len() {
        return false;
    }
    for i in 0..x.len()
        invariant
            x@ == encode_utf8(a@),
            y@ == encode_utf8(b@),
            x@.len() == y@.len(),
            forall|j: int| 0 <= j < i ==> x@[j] == y@[j],
    {
        if x[i] != y[i] {
            return false;
        }
    }
    proof {
        assert(x@ =~= y@);
        encode_utf8_decode_utf8(a@);
        encode_utf8_decode_utf8(b@);
    }
    true
}

fn lower_of(c: char) -> (r: char)
    ensures
        r == ascii_lower(c),
{
    if 'A' <= c && c <= 'Z' {
        (c as u8 + 32) as char
    } else {
        c
    }
}

/// Whether `a` and `b` are equal but for the case of ASCII letters.
pub fn same_ignoring_case(a: &str, b: &str) -> (r: bool)
    ensures
        r == same_but_for_case(a@, b@),
{
    let x: Vec<char> = chars_of(a);
    let y: Vec<char> = chars_of(b);
    let ghost low = |c: char| ascii_lower(c);
    if x.len() != y.len() {
        assert(x@.map_values(low).len() != y@.map_values(low).len());
        return false;
    }
    for i in 0..x.len()
        invariant
            x@ == a@,
            y@ == b@,
            low == (|c: char| ascii_lower(c)),
            x@.len() == y@.len(),
            forall|j: int| 0 <= j < i ==> ascii_lower(#[trigger] x@[j]) == ascii_lower(y@[j]),
    {
        if lower_of(x[i]) != lower_of(y[i]) {
            assert(x@.map_values(low)[i as int] != y@.map_values(low)[i as int]);
            return false;
        }
    }
    assert(x@.map_values(low) =~= y@.map_values(low));
    true
}

} // verus!
