//! Laws of numbers, texts, orders, JSON and errors.

use vstd::prelude::*;
use vstd::utf8::encode_utf8;

use crate::cdn::{CdnAuthToken, CdnPool};
use crate::download::{
    chunk_address_is_made_of_its_parts, chunk_is_asked_of_the_best_server, chunk_source, is_source,
    ChunkSource, PositionedRead,
};
use crate::emsg::EMsg;
use crate::error::{label, Error};
use crate::json::{list, list_grows_value_by_value, object_grows_field_by_field, JsonObject};
use crate::login::{encrypt_password, password_is_encrypted_where_it_fits, GuardType, RsaKey};
use crate::order::{first_difference_decides, item_before, key_views, stable_order};
use crate::outside::{base64_text, hex_number, is_rsa_cipher, json_text, rsa_key_fault};
use crate::paths::{join_path, place_of, PathOptions};
use crate::text::{
    chars_of, counted, decimal, decimal_goes_digit_by_digit, digit_value, hex_digits_go_one_by_one,
    hex_encode, hex_text_gives_its_bytes_back, joined, joined_lists_join, numbered, push_aligned,
    push_decimal, push_hex, push_joined, push_prefixed_hex, push_signed, same_ignoring_case,
    same_text, signed_decimal,
};
use crate::wire::{
    begins_with, byte_length, copy_range, i32_at, lemma_le_value_4, push_bytes, push_le, signed,
    u32_at, u64_at,
};

verus! {

// ---------------------------------------------------------------------------
// Bytes
// ---------------------------------------------------------------------------

/// A number of four bytes is read with the least significant byte first; its
/// last bit is the sign where it has one.
pub proof fn four_bytes_are_a_number(data: &[u8], at: usize, n: u32, m: i32, s: i32)
    requires
        at + 4 <= data@.len(),
        call_ensures(u32_at, (data, at), n),
        call_ensures(i32_at, (data, at), m),
        call_ensures(signed, (n,), s),
    ensures
        n == data@[at as int] + 256 * data@[at + 1] + 65536 * data@[at + 2] + 16777216 * data@[at
            + 3],
        m == if data@[at + 3] < 128 {
            n as int
        } else {
            n - 0x1_0000_0000
        },
        s == m,
{
    let bytes = data@.subrange(at as int, at + 4);
    lemma_le_value_4(bytes);
    assert(bytes[0] == data@[at as int] && bytes[1] == data@[at + 1] && bytes[2] == data@[at + 2]
        && bytes[3] == data@[at + 3]);
}

/// A number of eight bytes is that of the first four, and that of the others
/// above it.
pub proof fn eight_bytes_are_a_number(
    data: &[u8],
    at: usize,
    next: usize,
    n: u64,
    low: u32,
    high: u32,
)
    requires
        at + 8 <= data@.len(),
        next == at + 4,
        call_ensures(u64_at, (data, at), n),
        call_ensures(u32_at, (data, at), low),
        call_ensures(u32_at, (data, next), high),
    ensures
        n == low + 0x1_0000_0000 * high,
{
    let all = data@.subrange(at as int, at + 8);
    let first = data@.subrange(at as int, at + 4);
    let second = data@.subrange(at + 4, at + 8);
    reveal_with_fuel(crate::wire::le_value, 5);
    lemma_le_value_4(first);
    assert(all.drop_first().drop_first().drop_first().drop_first() =~= second);
    assert(all[0] == first[0] && all.drop_first()[0] == first[1] && all.drop_first().drop_first()[0]
        == first[2] && all.drop_first().drop_first().drop_first()[0] == first[3]);
}

/// Writing a number puts its bytes behind the others, the least significant
/// first.
pub proof fn numbers_are_written_byte_by_byte(
    out: &mut Vec<u8>,
    n: u64,
    width: usize,
    nothing: (),
    i: int,
)
    requires
        call_ensures(push_le, (out, n, width), nothing),
        width > 0,
    ensures
        final(out)@.len() == old(out)@.len() + width,
        0 <= i < old(out)@.len() ==> final(out)@[i] == old(out)@[i],
        final(out)@[old(out)@.len() as int] == n % 256,
{
    crate::wire::least_significant_byte_is_first(n as nat, width as nat, seq![0u8]);
}

/// Bytes are put behind others, cut out and compared as they are.
pub proof fn bytes_stay_as_they_are(
    out: &mut Vec<u8>,
    bytes: &[u8],
    nothing: (),
    start: usize,
    end: usize,
    part: Vec<u8>,
    prefix: &[u8],
    r: bool,
    i: int,
)
    requires
        call_ensures(push_bytes, (out, bytes), nothing),
        start <= end <= bytes@.len(),
        call_ensures(copy_range, (bytes, start, end), part),
        call_ensures(begins_with, (bytes, prefix), r),
    ensures
        final(out)@ == old(out)@ + bytes@,
        part@.len() == end - start,
        0 <= i < part@.len() ==> part@[i] == bytes@[start + i],
        r ==> prefix@.len() <= bytes@.len(),
        r && 0 <= i < prefix@.len() ==> bytes@[i] == prefix@[i],
        prefix@ == bytes@ ==> r,
        prefix@.len() == 0 ==> r,
{
}

// ---------------------------------------------------------------------------
// Texts
// ---------------------------------------------------------------------------

/// A numeral is written digit by digit: a number of one digit is that digit,
/// and any other is the numeral of its tenth and the last digit.
pub proof fn numerals_are_written_digit_by_digit(
    out: &mut String,
    shorter: &mut String,
    n: u64,
    nothing: (),
)
    requires
        *old(out) == *old(shorter),
        call_ensures(push_decimal, (out, n), nothing),
        call_ensures(push_decimal, (shorter, n / 10), nothing),
    ensures
        n < 10 ==> final(out)@.drop_last() == old(out)@,
        n >= 10 ==> final(out)@.drop_last() == final(shorter)@,
        final(out)@.last() as int == '0' as int + n % 10,
{
    decimal_goes_digit_by_digit(n as nat);
    if n < 10 {
        assert(final(out)@.drop_last() =~= old(out)@);
    } else {
        assert(final(out)@.drop_last() =~= final(shorter)@);
    }
}

/// A number below zero is written as a minus and the numeral of its amount.
pub proof fn signs_are_written_first(
    out: &mut String,
    plain: &mut String,
    n: i64,
    amount: u64,
    nothing: (),
)
    requires
        *old(out) == *old(plain),
        amount == if n < 0 {
            -n
        } else {
            n as int
        },
        call_ensures(push_signed, (out, n), nothing),
        call_ensures(push_decimal, (plain, amount), nothing),
    ensures
        n >= 0 ==> final(out)@ == final(plain)@,
        n < 0 ==> final(out)@ == old(out)@ + seq!['-'] + final(plain)@.skip(old(out)@.len() as int),
{
    reveal_strlit("-");
    assert(final(plain)@.skip(old(out)@.len() as int) =~= decimal(amount as nat));
    assert("-"@ =~= seq!['-']);
    if n < 0 {
        assert(final(out)@ =~= old(out)@ + seq!['-'] + decimal(amount as nat));
    }
}

/// Hexadecimal digits are written to a width, the least significant last.
pub proof fn digits_are_written_to_a_width(
    out: &mut String,
    shorter: &mut String,
    n: u64,
    width: usize,
    nothing: (),
)
    requires
        width > 0,
        *old(out) == *old(shorter),
        call_ensures(push_hex, (out, n, width), nothing),
        call_ensures(push_hex, (shorter, n / 16, (width - 1) as usize), nothing),
    ensures
        final(out)@.len() == old(out)@.len() + width,
        final(out)@.drop_last() == final(shorter)@,
        digit_value(final(out)@.last()) == n % 16,
{
    hex_digits_go_one_by_one(n as nat, width as nat);
    assert(final(out)@.drop_last() =~= final(shorter)@);
}

/// A number in hexadecimal has `0x` before it and four digits at least; one of
/// more is that of its sixteenth and the last digit.
pub proof fn hexadecimal_has_four_digits_at_least(
    out: &mut String,
    digits: &mut String,
    shorter: &mut String,
    n: u32,
    nothing: (),
)
    requires
        *old(shorter) == *old(out),
        old(digits)@ == old(out)@ + seq!['0', 'x'],
        call_ensures(push_prefixed_hex, (out, n), nothing),
        call_ensures(push_hex, (digits, n as u64, 4), nothing),
        call_ensures(push_prefixed_hex, (shorter, n / 16), nothing),
    ensures
        n < 0x1_0000 ==> final(out)@ == final(digits)@,
        n >= 0x1_0000 ==> final(out)@.drop_last() == final(shorter)@ && digit_value(
            final(out)@.last(),
        ) == n % 16,
{
    reveal_strlit("0x");
    assert("0x"@ =~= seq!['0', 'x']);
    reveal_with_fuel(crate::text::hex_width, 6);
    if n < 0x1_0000 {
        assert(crate::text::hex_width(n as nat) <= 4);
        assert(final(out)@ =~= final(digits)@);
    } else {
        let width = crate::text::hex_width(n as nat);
        assert(crate::text::hex_width((n / 16) as nat) + 1 == width);
        assert(crate::text::hex_width((n / 16) as nat) >= 4);
        hex_digits_go_one_by_one(n as nat, width);
        assert(final(out)@.drop_last() =~= final(shorter)@);
    }
}

/// A number that is right aligned has blanks in front of it, as many as it
/// takes to fill the width, and never loses a digit.
pub proof fn numbers_are_aligned_by_blanks(
    out: &mut String,
    plain: &mut String,
    n: u64,
    width: usize,
    nothing: (),
    i: int,
)
    requires
        *old(out) == *old(plain),
        call_ensures(push_aligned, (out, n, width), nothing),
        call_ensures(push_decimal, (plain, n), nothing),
    ensures
        ({
            let start = old(out)@.len();
            let digits = final(plain)@.skip(start as int);
            let written = final(out)@.skip(start as int);
            &&& old(out)@.is_prefix_of(final(out)@)
            &&& written.len() == if digits.len() < width {
                width as nat
            } else {
                digits.len()
            }
            &&& written.skip(written.len() - digits.len()) == digits
            &&& 0 <= i < written.len() - digits.len() ==> written[i] == ' '
        }),
{
    let start = old(out)@.len() as int;
    let digits = decimal(n as nat);
    let aligned = crate::text::right_aligned(digits, width as nat);
    assert(final(plain)@.skip(start) =~= digits);
    assert(final(out)@.skip(start) =~= aligned);
    assert(aligned.skip(aligned.len() - digits.len()) =~= digits);
    assert(old(out)@ =~= final(out)@.take(start));
}

/// A number stands between the texts around it.
pub proof fn numbers_stand_between_texts(
    head: &str,
    n: u64,
    tail: &str,
    short: String,
    long: String,
)
    requires
        call_ensures(numbered, (head, n), short),
        call_ensures(counted, (head, n, tail), long),
    ensures
        short@ == head@ + decimal(n as nat),
        long@ == short@ + tail@,
{
}

/// Numbers are listed in their order with the separator between them: one
/// alone is its numeral, and two lists go one behind the other.
pub proof fn numbers_are_listed_in_order(
    out: &mut String,
    first: &mut String,
    second: &mut String,
    all: &[u32],
    a: &[u32],
    b: &[u32],
    separator: &str,
    nothing: (),
)
    requires
        all@ == a@ + b@,
        a@.len() > 0,
        b@.len() > 0,
        old(out)@.len() == 0,
        old(first)@.len() == 0,
        old(second)@.len() == 0,
        call_ensures(push_joined, (out, all, separator), nothing),
        call_ensures(push_joined, (first, a, separator), nothing),
        call_ensures(push_joined, (second, b, separator), nothing),
    ensures
        final(out)@ == final(first)@ + separator@ + final(second)@,
        a@.len() == 1 ==> final(first)@ == decimal(a@[0] as nat),
{
    joined_lists_join(a@, b@, separator@);
    assert(final(first)@ =~= joined(a@, separator@));
    assert(final(second)@ =~= joined(b@, separator@));
    assert(final(out)@ =~= joined(all@, separator@));
}

/// A list of no numbers is nothing, and one of one number its numeral.
pub proof fn short_lists_are_numerals(
    out: &mut String,
    one: &mut String,
    none: &[u32],
    single: &[u32],
    separator: &str,
    nothing: (),
)
    requires
        none@.len() == 0,
        single@.len() == 1,
        call_ensures(push_joined, (out, none, separator), nothing),
        call_ensures(push_joined, (one, single, separator), nothing),
    ensures
        final(out)@ == old(out)@,
        final(one)@ == old(one)@ + decimal(single@[0] as nat),
{
    assert(joined(none@, separator@) =~= Seq::<char>::empty());
    assert(final(out)@ =~= old(out)@);
}

/// Bytes are written as two digits each, the high one first.
pub proof fn bytes_are_written_as_digits(bytes: &[u8], s: String, i: int)
    requires
        call_ensures(hex_encode, (bytes,), s),
    ensures
        s@.len() == 2 * bytes@.len(),
        0 <= i < bytes@.len() ==> {
            let high = s@[2 * i];
            let low = s@[2 * i + 1];
            &&& bytes@[i] == 16 * digit_value(high) + digit_value(low)
            &&& ('0' <= high && high <= '9') || ('a' <= high && high <= 'f')
            &&& ('0' <= low && low <= '9') || ('a' <= low && low <= 'f')
        },
{
    if 0 <= i < bytes@.len() {
        hex_text_gives_its_bytes_back(bytes@, i);
    }
}

/// Texts are the same where their characters are; ignoring the case, a letter
/// of ASCII is the same as its other case, and nothing else is.
pub proof fn texts_are_compared_by_characters(
    a: &str,
    b: &str,
    chars: Vec<char>,
    same: bool,
    alike: bool,
    i: int,
)
    requires
        call_ensures(chars_of, (a,), chars),
        call_ensures(same_text, (a, b), same),
        call_ensures(same_ignoring_case, (a, b), alike),
    ensures
        chars@ == a@,
        same <==> a@ == b@,
        same ==> alike,
        alike ==> a@.len() == b@.len(),
        alike && 0 <= i < a@.len() ==> a@[i] == b@[i] || ('A' <= a@[i] && a@[i] <= 'Z' && b@[i] as int
            == a@[i] as int + 32) || ('A' <= b@[i] && b@[i] <= 'Z' && a@[i] as int == b@[i] as int
            + 32),
{
    let x = crate::text::ascii_lowercase(a@);
    let y = crate::text::ascii_lowercase(b@);
    assert(x.len() == a@.len() && y.len() == b@.len());
    if alike && 0 <= i < a@.len() {
        assert(x == y);
        assert(x[i] == y[i]);
    }
}

// ---------------------------------------------------------------------------
// Order
// ---------------------------------------------------------------------------

/// Sorting names every key once.
pub proof fn keys_are_all_sorted(keys: &Vec<&[u8]>, order: Vec<usize>, i: usize, p: int, q: int)
    requires
        call_ensures(stable_order, (keys,), order),
    ensures
        order@.len() == keys@.len(),
        i < keys@.len() ==> order@.contains(i),
        0 <= p < order@.len() ==> order@[p] < keys@.len(),
        0 <= p < q < order@.len() ==> order@[p] != order@[q],
{
    if 0 <= p < q < order@.len() {
        let views = key_views(keys@);
        assert(item_before(views, order@[p] as int, order@[q] as int));
        let key = views[order@[p] as int];
        first_difference_decides(key, key, key.len() as int);
    }
}

/// Sorting names every key once. A key comes before another where the first
/// byte in which they differ is smaller, or where it ends there; equal keys
/// keep their order.
pub proof fn keys_are_sorted_by_their_bytes(
    keys: &Vec<&[u8]>,
    order: Vec<usize>,
    p: int,
    q: int,
    k: int,
    i: usize,
)
    requires
        call_ensures(stable_order, (keys,), order),
        0 <= p < q < order@.len(),
        i < keys@.len(),
        0 <= k <= keys@[order@[p] as int]@.len(),
        k <= keys@[order@[q] as int]@.len(),
        forall|j: int| 0 <= j < k ==> keys@[order@[p] as int]@[j] == keys@[order@[q] as int]@[j],
    ensures
        order@.len() == keys@.len(),
        order@.contains(i),
        order@[p] != order@[q],
        ({
            let a = keys@[order@[p] as int]@;
            let b = keys@[order@[q] as int]@;
            &&& k < a.len() && k < b.len() ==> a[k] <= b[k]
            &&& k == b.len() ==> k == a.len()
            &&& k == a.len() && k == b.len() ==> order@[p] < order@[q]
        }),
{
    let views = key_views(keys@);
    let a = keys@[order@[p] as int]@;
    let b = keys@[order@[q] as int]@;
    assert(views[order@[p] as int] == a);
    assert(views[order@[q] as int] == b);
    assert(item_before(views, order@[p] as int, order@[q] as int));
    first_difference_decides(a, b, k);
    first_difference_decides(b, a, k);
    if k == a.len() && k == b.len() {
        assert(a =~= b);
    }
    if order@[p] == order@[q] {
        first_difference_decides(a, a, a.len() as int);
    }
}

// ---------------------------------------------------------------------------
// Paths
// ---------------------------------------------------------------------------

/// A path is seen from a directory with one slash between them; one that
/// begins with a slash is seen as it is, and so is any where there is no
/// directory.
pub proof fn paths_are_joined_by_one_slash(dir: &str, path: &str, s: String)
    requires
        call_ensures(join_path, (dir, path), s),
    ensures
        dir@.len() == 0 ==> s@ == path@,
        path@.len() > 0 && path@[0] == '/' ==> s@ == path@,
        dir@.len() > 0 && dir@.last() == '/' && (path@.len() == 0 || path@[0] != '/') ==> s@ == dir@
            + path@,
        dir@.len() > 0 && dir@.last() != '/' && (path@.len() == 0 || path@[0] != '/') ==> s@ == dir@
            + seq!['/'] + path@,
{
    reveal_strlit("/");
    assert("/"@ =~= seq!['/']);
}

/// Two paths have one place where they begin alike and have the same
/// components, and nowhere else.
pub proof fn places_are_told_by_components(a: &str, b: &str, s: String, t: String)
    requires
        call_ensures(place_of, (a,), s),
        call_ensures(place_of, (b,), t),
    ensures
        s@ == t@ <==> {
            &&& (a@.len() > 0 && a@[0] == '/') == (b@.len() > 0 && b@[0] == '/')
            &&& (a@.len() > 0 && a@[0] == '.' && (a@.len() == 1 || a@[1] == '/')) == (b@.len() > 0
                && b@[0] == '.' && (b@.len() == 1 || b@[1] == '/'))
            &&& crate::paths::components(a@) == crate::paths::components(b@)
        },
{
    crate::paths::places_have_their_own_text(a@, b@);
}

/// Paths keep the casing of the manifest, or are written in lowercase.
pub proof fn casing_is_kept_or_lowered(
    kept: PathOptions,
    lowered: PathOptions,
    usual: PathOptions,
)
    requires
        call_ensures(PathOptions::default, (), usual),
        call_ensures(PathOptions::preserve_case, (), kept),
        call_ensures(PathOptions::lowercase, (), lowered),
    ensures
        !kept.lowercase,
        lowered.lowercase,
        !usual.lowercase,
{
}

// ---------------------------------------------------------------------------
// JSON
// ---------------------------------------------------------------------------

/// An object without fields is a pair of braces. A field goes behind the
/// others, before the brace that closes the object, with a comma between.
pub proof fn fields_are_written_one_behind_the_other(
    object: &mut JsonObject,
    before: &JsonObject,
    after: &JsonObject,
    key: &str,
    value: String,
    nothing: (),
    short: String,
    long: String,
)
    requires
        *before == *old(object),
        *after == *final(object),
        call_ensures(JsonObject::raw, (object, key, value), nothing),
        call_ensures(JsonObject::line, (before,), short),
        call_ensures(JsonObject::line, (after,), long),
    ensures
        call_ensures(JsonObject::new, (), *before) ==> short@ == seq!['{', '}'] && long@ == seq![
            '{',
            '"',
        ] + key@ + seq!['"', ':'] + value@ + seq!['}'],
        before@.len() > 0 ==> long@ == short@.drop_last() + seq![',', '"'] + key@ + seq!['"', ':']
            + value@ + seq!['}'],
        after@.len() == before@.len() + 1,
{
    object_grows_field_by_field(before@, key@, value@);
    if call_ensures(JsonObject::new, (), *before) {
        assert(before@.push((key@, value@)) =~= seq![(key@, value@)]);
    }
}

/// Each kind of field is written as the text of its value.
pub proof fn fields_are_written_by_their_kind(
    number: &mut JsonObject,
    negative: &mut JsonObject,
    text: &mut JsonObject,
    numbers: &mut JsonObject,
    key: &str,
    n: u64,
    m: i64,
    words: &str,
    values: &[u32],
    nothing: (),
)
    requires
        call_ensures(JsonObject::number, (number, key, n), nothing),
        call_ensures(JsonObject::signed, (negative, key, m), nothing),
        call_ensures(JsonObject::text, (text, key, words), nothing),
        call_ensures(JsonObject::numbers, (numbers, key, values), nothing),
    ensures
        final(number)@ == old(number)@.push((key@, decimal(n as nat))),
        final(negative)@ == old(negative)@.push((key@, signed_decimal(m as int))),
        final(text)@ == old(text)@.push((key@, json_text(words@))),
        final(numbers)@ == old(numbers)@.push(
            (key@, seq!['['] + joined(values@, seq![',']) + seq![']']),
        ),
{
    reveal_strlit("[");
    reveal_strlit("]");
    reveal_strlit(",");
    assert("["@ =~= seq!['[']);
    assert("]"@ =~= seq![']']);
    assert(","@ =~= seq![',']);
}

/// A list without values is a pair of brackets. A value goes behind the others,
/// before the bracket that closes the list, with a comma between.
pub proof fn values_are_written_one_behind_the_other(
    items: &Vec<String>,
    longer: &Vec<String>,
    value: String,
    short: String,
    long: String,
)
    requires
        longer@ == items@.push(value),
        call_ensures(list, (items,), short),
        call_ensures(list, (longer,), long),
    ensures
        items@.len() == 0 ==> short@ == seq!['[', ']'] && long@ == seq!['['] + value@ + seq![']'],
        items@.len() > 0 ==> long@ == short@.drop_last() + seq![','] + value@ + seq![']'],
{
    let texts = items@.map_values(|item: String| item@);
    let more = longer@.map_values(|item: String| item@);
    assert(more =~= texts.push(value@));
    list_grows_value_by_value(texts, value@);
    if items@.len() == 0 {
        assert(texts =~= Seq::<Seq<char>>::empty());
        assert(more =~= seq![value@]);
    }
}

// ---------------------------------------------------------------------------
// Errors
// ---------------------------------------------------------------------------

/// An error says what it was made of.
pub proof fn errors_say_what_they_were_made_of(
    code: i32,
    context: String,
    head: &str,
    detail: &str,
    status: u16,
    result: Error,
    described: Error,
    answered: Error,
    other: Error,
    labelled: String,
)
    requires
        call_ensures(Error::eresult, (code, context), result),
        call_ensures(Error::described, (head, detail), described),
        call_ensures(Error::status, (head, status, detail), answered),
        call_ensures(Error::other, (head,), other),
        call_ensures(label, (head, detail), labelled),
    ensures
        labelled@ == head@ + seq![':', ' '] + detail@,
        match result {
            Error::EResult { code: told, context: said } => told == code && said@ == context@,
            _ => false,
        },
        match described {
            Error::Other(text) => text@ == labelled@,
            _ => false,
        },
        match answered {
            Error::Status { status: told, context: said } => told == status && said@ == labelled@,
            _ => false,
        },
        match other {
            Error::Other(text) => text@ == head@,
            _ => false,
        },
{
    reveal_strlit(": ");
    assert(": "@ =~= seq![':', ' ']);
}

/// An error in words tells what it holds.
pub proof fn errors_are_put_into_words(e: &Error, s: String)
    requires
        call_ensures(Error::message, (e,), s),
    ensures
        match *e {
            Error::Other(text) => s@ == text@,
            Error::Http(failure) => match failure.status {
                Some(status) => s@ == "HTTP status "@ + decimal(status as nat),
                None => s@ == if failure.timeout {
                    "HTTP request timed out"@
                } else if failure.connect {
                    "HTTP connection failed"@
                } else {
                    "HTTP request failed"@
                },
            },
            Error::Status { context, .. } => s@ == context@,
            Error::WebSocket(text) => s@ == "WebSocket"@ + ": "@ + text@,
            Error::Io(text) => s@ == "I/O"@ + ": "@ + text@,
            Error::Decode(text) => s@ == "protobuf"@ + ": "@ + text@,
            Error::ConnectionClosed => s@ == "connection closed"@,
            Error::ServiceMethodTimeout(method) => s@ == "service method timed out"@ + ": "@
                + method@,
            Error::MessageTooShort(length) => s@ == "message too short: "@ + decimal(length as nat)
                + " bytes"@,
            Error::MessageTruncated => s@ == "message truncated"@,
            Error::NoSession => s@ == "no session"@,
            Error::UnexpectedEMsg { expected, got } => forall|n: u32, m: u32|
                call_ensures(EMsg::to_u32, (expected,), n) && call_ensures(EMsg::to_u32, (got,), m)
                    ==> s@ == "expected message "@ + #[trigger] decimal(n as nat) + ", got "@
                    + #[trigger] decimal(m as nat),
            Error::EResult { code, context } => s@ == context@ + " (result "@ + signed_decimal(
                code as int,
            ) + ")"@,
        },
{
}

// ---------------------------------------------------------------------------
// What depends on the clock or on chance
// ---------------------------------------------------------------------------

/// Whatever the clock says, a token that is given out was stored for the depot
/// on the host.
pub proof fn token_given_out_was_stored(
    pool: &CdnPool,
    depot_id: u32,
    host: &str,
    r: Option<&CdnAuthToken>,
    never: Option<&CdnAuthToken>,
)
    requires
        call_ensures(CdnPool::get_cdn_auth_token, (pool, depot_id, host), r),
        call_ensures(CdnPool::cdn_auth_token_at, (pool, depot_id, host, 0), never),
    ensures
        r is Some ==> never is Some && *r->0 == *never->0,
{
}

/// Whatever the clock says, a chunk is asked of a server of the pool that none
/// has failed less often than.
pub proof fn chunk_is_asked_of_a_good_server_now(
    pool: &CdnPool,
    depot_id: u32,
    sha_hex: &str,
    source: ChunkSource,
    other: int,
)
    requires
        call_ensures(chunk_source, (pool, depot_id, sha_hex), source),
        0 <= other < pool.servers().len(),
    ensures
        crate::cdn::penalty_of(pool.penalties(), source.host@) <= crate::cdn::penalty_of(
            pool.penalties(),
            pool.servers()[other].host@,
        ),
        exists|server: int|
            0 <= server < pool.servers().len() && (#[trigger] pool.servers()[server]).host@
                == source.host@ && (seq!['h', 't', 't', 'p', 's', ':', '/', '/']
                + pool.servers()[server].vhost@ + seq!['/', 'd', 'e', 'p', 'o', 't', '/'] + decimal(
                depot_id as nat,
            ) + seq!['/', 'c', 'h', 'u', 'n', 'k', '/'] + sha_hex@).is_prefix_of(source.url@),
{
    let (server, now) = choose|server: int, now: u32| #[trigger]
        is_source(pool, depot_id, sha_hex@, server, now, source);
    chunk_is_asked_of_the_best_server(pool, depot_id, sha_hex@, server, now, source, other);
    chunk_address_is_made_of_its_parts(
        pool.servers()[server].vhost@,
        depot_id,
        sha_hex@,
        Seq::empty(),
    );
    assert(pool.servers()[server].host@ == source.host@);
}

/// A password is encrypted wherever the key can be read, is a key, and leaves
/// room for eleven bytes of padding; what comes out is a cipher of it.
pub proof fn password_is_encrypted_with_the_key(
    password: &str,
    rsa_key: &RsaKey,
    r: Result<String, Error>,
)
    requires
        call_ensures(encrypt_password, (password, rsa_key), r),
    ensures
        ({
            let n = hex_number(encode_utf8(rsa_key.modulus@));
            let e = hex_number(encode_utf8(rsa_key.exponent@));
            &&& r is Ok <==> n is Some && e is Some && rsa_key_fault(n->0, e->0) is None
                && encode_utf8(password@).len() + 11 <= byte_length(n->0)
            &&& r is Ok ==> exists|cipher: Seq<u8>|
                is_rsa_cipher(n->0, e->0, byte_length(n->0), encode_utf8(password@), cipher)
                    && r->Ok_0@ == #[trigger] base64_text(cipher)
        }),
{
    password_is_encrypted_where_it_fits(password@, rsa_key.modulus@, rsa_key.exponent@);
}

/// A code from an email has the number 2, one from a device the number 3.
pub proof fn guard_codes_have_their_numbers(email: i32, device: i32)
    requires
        call_ensures(GuardType::code, (GuardType::EmailCode,), email),
        call_ensures(GuardType::code, (GuardType::DeviceCode,), device),
    ensures
        email == 2,
        device == 3,
{
}

/// A read is over where as much was read as was asked for.
pub proof fn read_is_over_when_full(read: &PositionedRead, r: bool)
    requires
        call_ensures(PositionedRead::is_full, (read,), r),
    ensures
        r <==> read.length <= read.filled,
{
}

} // verus!
