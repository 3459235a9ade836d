//! The SteamID in a refresh token.

use vstd::prelude::*;
use vstd::utf8::{decode_utf8, encode_utf8, valid_utf8};

use crate::outside::{
    base64_decode, base64_decoded, base64url_decode, base64url_decoded, text_from_utf8,
};
use crate::text::{chars_of, decimal, lemma_decimal_digits};

verus! {

/// Where `pattern` first stands in `text`.
pub open spec fn first_place(text: Seq<char>, pattern: Seq<char>) -> Option<int>
    decreases text.len(),
{
    if pattern.is_prefix_of(text) {
        Some(0)
    } else if text.len() == 0 {
        None
    } else {
        match first_place(text.drop_first(), pattern) {
            Some(place) => Some(place + 1),
            None => None,
        }
    }
}

/// What stands behind the first `pattern` in `text`.
pub open spec fn behind(text: Seq<char>, pattern: Seq<char>) -> Option<Seq<char>> {
    match first_place(text, pattern) {
        Some(place) => Some(text.skip(place + pattern.len())),
        None => None,
    }
}

/// What stands before the first `pattern` in `text`.
pub open spec fn before(text: Seq<char>, pattern: Seq<char>) -> Option<Seq<char>> {
    match first_place(text, pattern) {
        Some(place) => Some(text.take(place)),
        None => None,
    }
}

/// The middle one of three parts with dots between them.
pub open spec fn middle_part(token: Seq<char>) -> Option<Seq<char>> {
    match behind(token, seq!['.']) {
        None => None,
        Some(rest) => match behind(rest, seq!['.']) {
            None => None,
            Some(last) => if first_place(last, seq!['.']) is Some {
                None
            } else {
                before(rest, seq!['.'])
            },
        },
    }
}

/// `payload` with the padding that base64 wants behind it.
pub open spec fn with_padding(payload: Seq<char>) -> Seq<char> {
    let short = encode_utf8(payload).len() % 4;
    if short == 2 {
        payload + seq!['=', '=']
    } else if short == 3 {
        payload + seq!['=']
    } else {
        payload
    }
}

/// The number that decimal digits stand for.
pub open spec fn numeral_value(digits: Seq<char>) -> nat
    decreases digits.len(),
{
    if digits.len() == 0 {
        0
    } else {
        numeral_value(digits.drop_last()) * 10 + (digits.last() as int - '0' as int) as nat
    }
}

/// At least one character, and each a decimal digit.
pub open spec fn is_numeral(text: Seq<char>) -> bool {
    text.len() > 0 && forall|i: int| 0 <= i < text.len() ==> '0' <= #[trigger] text[i] <= '9'
}

/// The number that a text stands for: decimal digits, which a plus sign may
/// stand before, of a number that fits in 64 bits.
pub open spec fn parsed_number(text: Seq<char>) -> Option<u64> {
    let digits = if text.len() > 0 && text[0] == '+' {
        text.drop_first()
    } else {
        text
    };
    if is_numeral(digits) && numeral_value(digits) <= u64::MAX {
        Some(numeral_value(digits) as u64)
    } else {
        None
    }
}

/// The number between the quotes behind the colon behind the first `"sub"`.
pub open spec fn subject_in(text: Seq<char>) -> Option<u64> {
    match behind(text, seq!['"', 's', 'u', 'b', '"']) {
        None => None,
        Some(a) => match behind(a, seq![':']) {
            None => None,
            Some(b) => match behind(b, seq!['"']) {
                None => None,
                Some(c) => match before(c, seq!['"']) {
                    None => None,
                    Some(number) => parsed_number(number),
                },
            },
        },
    }
}

/// The number of the subject in the bytes of a token's payload.
pub open spec fn subject_in_bytes(payload: Seq<u8>) -> Option<u64> {
    if valid_utf8(payload) {
        subject_in(decode_utf8(payload))
    } else {
        None
    }
}

/// The number of the subject in a padded payload. A payload is base64url; one
/// that is not, but is base64 in the standard alphabet, is read as that.
pub open spec fn subject_in_payload(padded: Seq<char>) -> Option<u64> {
    match base64url_decoded(padded) {
        Ok(bytes) => subject_in_bytes(bytes),
        Err(_) => match base64_decoded(padded) {
            Ok(bytes) => subject_in_bytes(bytes),
            Err(_) => None,
        },
    }
}

/// The SteamID that a refresh token names.
pub open spec fn token_steam_id(token: Seq<char>) -> Option<u64> {
    match middle_part(token) {
        None => None,
        Some(payload) => subject_in_payload(with_padding(payload)),
    }
}

proof fn lemma_place_bounds(text: Seq<char>, pattern: Seq<char>)
    ensures
        first_place(text, pattern) matches Some(place) ==> 0 <= place && place + pattern.len()
            <= text.len(),
    decreases text.len(),
{
    if !pattern.is_prefix_of(text) && text.len() > 0 {
        lemma_place_bounds(text.drop_first(), pattern);
    }
}

proof fn lemma_first_char(head: Seq<char>, c: char, tail: Seq<char>)
    requires
        !head.contains(c),
    ensures
        first_place(head + seq![c] + tail, seq![c]) == Some(head.len() as int),
    decreases head.len(),
{
    let text = head + seq![c] + tail;
    if head.len() == 0 {
        assert(seq![c] =~= text.take(1));
    } else {
        assert(text[0] == head[0]);
        assert(head.contains(head[0]));
        assert(seq![c][0] != text.take(1)[0]);
        let rest = head.drop_first();
        assert(text.drop_first() =~= rest + seq![c] + tail);
        assert forall|i: int| 0 <= i < rest.len() implies rest[i] != c by {
            assert(head.contains(head[i + 1]));
        }
        lemma_first_char(rest, c, tail);
    }
}

proof fn lemma_numeral_of_decimal(n: nat)
    ensures
        is_numeral(decimal(n)),
        numeral_value(decimal(n)) == n,
    decreases n,
{
    lemma_decimal_digits(n);
    reveal_with_fuel(numeral_value, 2);
    if n < 10 {
        assert(decimal(n).drop_last() =~= Seq::<char>::empty());
    } else {
        lemma_numeral_of_decimal(n / 10);
        assert(decimal(n).drop_last() =~= decimal(n / 10));
    }
}

/// The SteamID that stands behind the first `"sub"`, a colon and a quote is
/// the one that is read, whatever stands around it.
#[verifier::rlimit(60)]
#[verifier::spinoff_prover]
pub proof fn subject_is_read(
    before_sub: Seq<char>,
    before_colon: Seq<char>,
    before_quote: Seq<char>,
    steam_id: u64,
    rest: Seq<char>,
)
    requires
        first_place(
            before_sub + seq!['"', 's', 'u', 'b', '"'] + (before_colon + seq![':'] + (before_quote
                + seq!['"'] + (decimal(steam_id as nat) + seq!['"'] + rest))),
            seq!['"', 's', 'u', 'b', '"'],
        ) == Some(before_sub.len() as int),
        !before_colon.contains(':'),
        !before_quote.contains('"'),
    ensures
        subject_in(
            before_sub + seq!['"', 's', 'u', 'b', '"'] + (before_colon + seq![':'] + (before_quote
                + seq!['"'] + (decimal(steam_id as nat) + seq!['"'] + rest))),
        ) == Some(steam_id),
{
    let number = decimal(steam_id as nat);
    assert(!number.contains('"')) by {
        lemma_decimal_digits(steam_id as nat);
    }
    subject_is_what_is_quoted(before_sub, before_colon, before_quote, number, rest);
    lemma_numeral_is_read(steam_id);
}

proof fn lemma_around_char(head: Seq<char>, c: char, tail: Seq<char>)
    requires
        !head.contains(c),
    ensures
        behind(head + seq![c] + tail, seq![c]) == Some(tail),
        before(head + seq![c] + tail, seq![c]) == Some(head),
{
    let text = head + seq![c] + tail;
    lemma_first_char(head, c, tail);
    assert(text.skip((head.len() + 1) as int) =~= tail);
    assert(text.take(head.len() as int) =~= head);
}

proof fn lemma_numeral_is_read(n: u64)
    ensures
        parsed_number(decimal(n as nat)) == Some(n),
{
    lemma_decimal_digits(n as nat);
    lemma_numeral_of_decimal(n as nat);
}

proof fn lemma_no_place(text: Seq<char>, c: char)
    requires
        !text.contains(c),
    ensures
        first_place(text, seq![c]) is None,
    decreases text.len(),
{
    if text.len() > 0 {
        assert(text.contains(text[0]));
        assert(text.take(1)[0] == text[0]);
        assert(seq![c][0] == c);
        let rest = text.drop_first();
        assert forall|i: int| 0 <= i < rest.len() implies rest[i] != c by {
            assert(text.contains(text[i + 1]));
        }
        lemma_no_place(rest, c);
    }
}

/// A token of three parts names the subject of its middle part: of what that
/// is in base64url, once filled up to whole groups of four by equals signs, or
/// in standard base64 where it is not base64url.
pub proof fn token_names_the_subject_of_its_payload(
    head: Seq<char>,
    payload: Seq<char>,
    signature: Seq<char>,
    filled: Seq<char>,
    bytes: Seq<u8>,
)
    requires
        !head.contains('.'),
        !payload.contains('.'),
        !signature.contains('.'),
        filled == payload + if encode_utf8(payload).len() % 4 == 2 {
            seq!['=', '=']
        } else if encode_utf8(payload).len() % 4 == 3 {
            seq!['=']
        } else {
            Seq::empty()
        },
        base64url_decoded(filled) == Ok::<Seq<u8>, Seq<char>>(bytes) || (base64url_decoded(
            filled,
        ) is Err && base64_decoded(filled) == Ok::<Seq<u8>, Seq<char>>(bytes)),
    ensures
        token_steam_id(head + seq!['.'] + (payload + seq!['.'] + signature)) == if valid_utf8(
            bytes,
        ) {
            subject_in(decode_utf8(bytes))
        } else {
            None
        },
{
    let rest = payload + seq!['.'] + signature;
    let token = head + seq!['.'] + rest;
    lemma_first_char(head, '.', rest);
    assert(token.skip((head.len() + 1) as int) =~= rest);
    lemma_first_char(payload, '.', signature);
    assert(rest.skip((payload.len() + 1) as int) =~= signature);
    assert(rest.take(payload.len() as int) =~= payload);
    lemma_no_place(signature, '.');
    assert(payload + Seq::<char>::empty() =~= payload);
}

/// A token of one part, of two, or of more than three names nobody.
pub proof fn token_has_three_parts(
    a: Seq<char>,
    b: Seq<char>,
    c: Seq<char>,
    rest: Seq<char>,
)
    requires
        !a.contains('.'),
        !b.contains('.'),
        !c.contains('.'),
    ensures
        token_steam_id(a) is None,
        token_steam_id(a + seq!['.'] + b) is None,
        token_steam_id(a + seq!['.'] + (b + seq!['.'] + (c + seq!['.'] + rest))) is None,
{
    lemma_no_place(a, '.');
    lemma_no_place(b, '.');
    lemma_first_char(a, '.', b);
    assert((a + seq!['.'] + b).skip((a.len() + 1) as int) =~= b);
    let last = c + seq!['.'] + rest;
    let more = b + seq!['.'] + last;
    lemma_first_char(a, '.', more);
    assert((a + seq!['.'] + more).skip((a.len() + 1) as int) =~= more);
    lemma_first_char(b, '.', last);
    assert(more.skip((b.len() + 1) as int) =~= last);
    lemma_first_char(c, '.', rest);
}

proof fn lemma_place_parts(text: Seq<char>, pattern: Seq<char>)
    requires
        first_place(text, pattern) is Some,
    ensures
        ({
            let place = first_place(text, pattern)->0;
            &&& 0 <= place
            &&& place + pattern.len() <= text.len()
            &&& text == text.take(place) + pattern + text.skip(place + pattern.len())
            &&& pattern.len() == 1 ==> !text.take(place).contains(pattern[0])
        }),
    decreases text.len(),
{
    let place = first_place(text, pattern)->0;
    if pattern.is_prefix_of(text) {
        assert(text.take(0) =~= Seq::<char>::empty());
        assert(text =~= text.take(0) + pattern + text.skip(pattern.len() as int)) by {
            assert(pattern =~= text.take(pattern.len() as int));
        }
    } else {
        let rest = text.drop_first();
        lemma_place_parts(rest, pattern);
        assert(text =~= seq![text[0]] + rest);
        assert(text.take(place) =~= seq![text[0]] + rest.take(place - 1));
        assert(text.skip(place + pattern.len()) =~= rest.skip(place - 1 + pattern.len()));
        assert(text =~= text.take(place) + pattern + text.skip(place + pattern.len()));
        if pattern.len() == 1 {
            assert(text[0] != pattern[0]) by {
                if text[0] == pattern[0] {
                    assert(pattern =~= text.take(1));
                }
            }
            assert forall|i: int| 0 <= i < place implies text.take(place)[i] != pattern[0] by {
                if i > 0 {
                    assert(rest.take(place - 1)[i - 1] == text.take(place)[i]);
                    assert(rest.take(place - 1).contains(rest.take(place - 1)[i - 1]));
                }
            }
        }
    }
}

/// A SteamID is read only where it stands: in quotes, behind a colon, behind
/// `"sub"`, in digits, with a plus before them or none.
pub proof fn subject_was_in_the_text(text: Seq<char>, steam_id: u64) -> (parts: (
    Seq<char>,
    Seq<char>,
    Seq<char>,
    Seq<char>,
    Seq<char>,
))
    requires
        subject_in(text) == Some(steam_id),
    ensures
        ({
            let (a, b, c, number, rest) = parts;
            &&& text == a + seq!['"', 's', 'u', 'b', '"'] + (b + seq![':'] + (c + seq!['"'] + (number
                + seq!['"'] + rest)))
            &&& !b.contains(':')
            &&& !c.contains('"')
            &&& !number.contains('"')
            &&& parsed_number(number) == Some(steam_id)
        }),
{
    let sub = seq!['"', 's', 'u', 'b', '"'];
    lemma_place_parts(text, sub);
    let first = behind(text, sub)->0;
    lemma_place_parts(first, seq![':']);
    let second = behind(first, seq![':'])->0;
    lemma_place_parts(second, seq!['"']);
    let third = behind(second, seq!['"'])->0;
    lemma_place_parts(third, seq!['"']);
    (
        before(text, sub)->0,
        before(first, seq![':'])->0,
        before(second, seq!['"'])->0,
        before(third, seq!['"'])->0,
        behind(third, seq!['"'])->0,
    )
}

/// A number is read from its digits alone: the last one counts once, what
/// stands before it ten times as much.
pub proof fn numbers_are_read_digit_by_digit(text: Seq<char>, n: u64)
    requires
        parsed_number(text) == Some(n),
    ensures
        text.len() > 0,
        '0' <= text.last() <= '9',
        n % 10 == text.last() as int - '0' as int,
        text.len() > 1 && text.drop_last() != seq!['+'] ==> parsed_number(text.drop_last()) == Some(
            n / 10,
        ),
        text.len() == 1 || text.drop_last() == seq!['+'] ==> n < 10,
{
    let signed = text[0] == '+';
    let digits = if signed {
        text.drop_first()
    } else {
        text
    };
    assert(digits.last() == text.last());
    assert('0' <= digits[digits.len() - 1] <= '9');
    let fewer = digits.drop_last();
    reveal_with_fuel(numeral_value, 2);
    assert forall|i: int| 0 <= i < fewer.len() implies '0' <= #[trigger] fewer[i] <= '9' by {
        assert(fewer[i] == digits[i]);
    }
    if text.len() > 1 && text.drop_last() != seq!['+'] {
        let short = text.drop_last();
        assert(short[0] == text[0]);
        if signed {
            assert(short.drop_first() =~= fewer);
            if fewer.len() == 0 {
                assert(short =~= seq!['+']);
            }
        } else {
            assert(short =~= fewer);
        }
    } else {
        assert(text.len() == 1 || text.drop_last().len() == 1);
        assert(fewer.len() == 0) by {
            if text.len() > 1 {
                assert(text.drop_last()[0] == text[0]);
            }
        }
    }
}

/// A digit is read as it is, with a plus before it or none.
pub proof fn one_digit_is_read(digit: char)
    requires
        '0' <= digit <= '9',
    ensures
        parsed_number(seq![digit]) == Some((digit as int - '0' as int) as u64),
        parsed_number(seq!['+', digit]) == Some((digit as int - '0' as int) as u64),
        parsed_number(Seq::empty()) is None,
{
    reveal_with_fuel(numeral_value, 2);
    assert(seq![digit].drop_last() =~= Seq::<char>::empty());
    assert(seq!['+', digit].drop_first() =~= seq![digit]);
}

/// A number of one more digit is read as ten times as much and that digit,
/// unless it takes more than 64 bits; of anything but a digit it is none.
pub proof fn one_more_digit_is_read(text: Seq<char>, n: u64, digit: char)
    requires
        parsed_number(text) == Some(n),
    ensures
        '0' <= digit <= '9' && 10 * n + (digit as int - '0' as int) <= u64::MAX ==> parsed_number(
            text.push(digit),
        ) == Some((10 * n + (digit as int - '0' as int)) as u64),
        '0' <= digit <= '9' && 10 * n + (digit as int - '0' as int) > u64::MAX ==> parsed_number(
            text.push(digit),
        ) is None,
        !('0' <= digit <= '9') ==> parsed_number(text.push(digit)) is None,
{
    let signed = text[0] == '+';
    let digits = if signed {
        text.drop_first()
    } else {
        text
    };
    let more = digits.push(digit);
    assert(text.push(digit)[0] == text[0]);
    if signed {
        assert(text.push(digit).drop_first() =~= more);
    }
    assert(more.drop_last() =~= digits);
    assert(more.last() == digit);
    assert(more[more.len() - 1] == digit);
    if '0' <= digit <= '9' {
        assert forall|i: int| 0 <= i < more.len() implies '0' <= #[trigger] more[i] <= '9' by {
            if i < digits.len() {
                assert(more[i] == digits[i]);
            }
        }
    }
}

/// The subject is whatever number stands between the quotes behind the colon
/// behind the first `"sub"`.
pub proof fn subject_is_what_is_quoted(
    before_sub: Seq<char>,
    before_colon: Seq<char>,
    before_quote: Seq<char>,
    number: Seq<char>,
    rest: Seq<char>,
)
    requires
        first_place(
            before_sub + seq!['"', 's', 'u', 'b', '"'] + (before_colon + seq![':'] + (before_quote
                + seq!['"'] + (number + seq!['"'] + rest))),
            seq!['"', 's', 'u', 'b', '"'],
        ) == Some(before_sub.len() as int),
        !before_colon.contains(':'),
        !before_quote.contains('"'),
        !number.contains('"'),
    ensures
        subject_in(
            before_sub + seq!['"', 's', 'u', 'b', '"'] + (before_colon + seq![':'] + (before_quote
                + seq!['"'] + (number + seq!['"'] + rest))),
        ) == parsed_number(number),
{
    let c = number + seq!['"'] + rest;
    let b = before_quote + seq!['"'] + c;
    let a = before_colon + seq![':'] + b;
    let text = before_sub + seq!['"', 's', 'u', 'b', '"'] + a;
    assert(text.skip((before_sub.len() + 5) as int) =~= a);
    lemma_around_char(before_colon, ':', b);
    lemma_around_char(before_quote, '"', c);
    lemma_around_char(number, '"', rest);
    assert(behind(text, seq!['"', 's', 'u', 'b', '"']) == Some(a));
}

/// A token that names a SteamID has three parts, and names it in the middle
/// one.
pub proof fn steam_id_was_in_the_token(token: Seq<char>, steam_id: u64) -> (parts: (
    Seq<char>,
    Seq<char>,
    Seq<char>,
))
    requires
        token_steam_id(token) == Some(steam_id),
    ensures
        ({
            let (head, payload, signature) = parts;
            &&& token == head + seq!['.'] + (payload + seq!['.'] + signature)
            &&& !head.contains('.')
            &&& !payload.contains('.')
            &&& !signature.contains('.')
            &&& subject_in_payload(with_padding(payload)) == Some(steam_id)
        }),
{
    let dot = seq!['.'];
    lemma_place_parts(token, dot);
    let rest = behind(token, dot)->0;
    lemma_place_parts(rest, dot);
    let last = behind(rest, dot)->0;
    if last.contains('.') {
        let i = choose|i: int| 0 <= i < last.len() && last[i] == '.';
        lemma_some_place(last, '.', i);
    }
    (before(token, dot)->0, before(rest, dot)->0, last)
}

proof fn lemma_some_place(text: Seq<char>, c: char, i: int)
    requires
        0 <= i < text.len(),
        text[i] == c,
    ensures
        first_place(text, seq![c]) is Some,
    decreases i,
{
    if i == 0 {
        assert(seq![c] =~= text.take(1));
    } else {
        lemma_some_place(text.drop_first(), c, i - 1);
    }
}

/// Where `pattern` first stands in `text` from `from` on.
fn find(text: &Vec<char>, from: usize, to: usize, pattern: &[char]) -> (r: Option<usize>)
    requires
        from <= to <= text@.len(),
    ensures
        match r {
            Some(place) => first_place(text@.subrange(from as int, to as int), pattern@) == Some(
                place - from,
            ) && from <= place && place + pattern@.len() <= to,
            None => first_place(text@.subrange(from as int, to as int), pattern@) is None,
        },
{
    let ghost whole = text@.subrange(from as int, to as int);
    proof {
        lemma_place_bounds(whole, pattern@);
    }
    let mut at: usize = from;
    while at <= to
        invariant
            from <= to <= text@.len(),
            from <= at <= to,
            whole == text@.subrange(from as int, to as int),
            first_place(whole, pattern@) == match first_place(
                text@.subrange(at as int, to as int),
                pattern@,
            ) {
                Some(place) => Some(place + (at - from)),
                None => None,
            },
        decreases to - at,
    {
        let ghost rest = text@.subrange(at as int, to as int);
        if stands_at(text, at, to, pattern) {
            assert(first_place(rest, pattern@) == Some(0int));
            return Some(at);
        }
        if at == to {
            return None;
        }
        assert(rest.drop_first() =~= text@.subrange(at + 1, to as int));
        at = at + 1;
    }
    None
}

fn stands_at(text: &Vec<char>, at: usize, to: usize, pattern: &[char]) -> (r: bool)
    requires
        at <= to <= text@.len(),
    ensures
        r == pattern@.is_prefix_of(text@.subrange(at as int, to as int)),
{
    if to - at < pattern.len() {
        return false;
    }
    let ghost rest = text@.subrange(at as int, to as int);
    for i in 0..pattern.len()
        invariant
            at <= to <= text@.len(),
            at + pattern@.len() <= to,
            rest == text@.subrange(at as int, to as int),
            forall|j: int| 0 <= j < i ==> rest[j] == #[trigger] pattern@[j],
    {
        if text[at + i] != pattern[i] {
            assert(rest[i as int] != pattern@[i as int]);
            assert(rest.take(pattern@.len() as int)[i as int] == rest[i as int]);
            return false;
        }
    }
    assert(pattern@ =~= rest.take(pattern@.len() as int));
    true
}

proof fn lemma_numeral_grows(digits: Seq<char>, n: int)
    requires
        0 <= n <= digits.len(),
    ensures
        numeral_value(digits.take(n)) <= numeral_value(digits),
    decreases digits.len() - n,
{
    if n < digits.len() {
        assert(digits.take(n + 1).drop_last() =~= digits.take(n));
        lemma_numeral_grows(digits, n + 1);
    } else {
        assert(digits.take(n) =~= digits);
    }
}

/// The number that the characters from `from` up to `to` stand for.
fn parse_number(text: &Vec<char>, from: usize, to: usize) -> (r: Option<u64>)
    requires
        from <= to <= text@.len(),
    ensures
        r == parsed_number(text@.subrange(from as int, to as int)),
{
    let ghost whole = text@.subrange(from as int, to as int);
    let start: usize = if from < to && text[from] == '+' {
        from + 1
    } else {
        from
    };
    let ghost digits = text@.subrange(start as int, to as int);
    proof {
        if start > from {
            assert(digits =~= whole.drop_first());
        }
    }
    if start == to {
        return None;
    }
    let mut value: u64 = 0;
    for at in start..to
        invariant
            start < to <= text@.len(),
            digits == text@.subrange(start as int, to as int),
            value == numeral_value(digits.take(at - start)),
            forall|i: int| 0 <= i < at - start ==> '0' <= #[trigger] digits[i] <= '9',
            whole == text@.subrange(from as int, to as int),
            digits == if whole.len() > 0 && whole[0] == '+' {
                whole.drop_first()
            } else {
                whole
            },
    {
        let c: char = text[at];
        assert(digits[at - start] == c);
        if c < '0' || c > '9' {
            return None;
        }
        let digit: u64 = c as u64 - 48;
        proof {
            let next = digits.take(at - start + 1);
            assert(next.drop_last() =~= digits.take(at - start));
            assert(next.last() == c);
            assert(numeral_value(next) == numeral_value(digits.take(at - start)) * 10 + digit);
        }
        if value > (u64::MAX - digit) / 10 {
            proof {
                lemma_numeral_grows(digits, at - start + 1);
            }
            return None;
        }
        value = value * 10 + digit;
    }
    assert(digits.take(digits.len() as int) =~= digits);
    Some(value)
}

/// Where in `text` what stands behind the first `pattern` from `from` on
/// begins.
fn past(text: &Vec<char>, from: usize, pattern: &[char]) -> (r: Option<usize>)
    requires
        from <= text@.len(),
    ensures
        match r {
            Some(place) => from <= place <= text@.len() && behind(
                text@.skip(from as int),
                pattern@,
            ) == Some(text@.skip(place as int)),
            None => behind(text@.skip(from as int), pattern@) is None,
        },
{
    let end: usize = text.len();
    assert(text@.skip(from as int) =~= text@.subrange(from as int, end as int));
    match find(text, from, end, pattern) {
        Some(place) => {
            let next: usize = place + pattern.len();
            assert(text@.skip(from as int).skip(next - from) =~= text@.skip(next as int));
            Some(next)
        },
        None => None,
    }
}

/// The number before the first quote from `from` on.
fn quoted_number(text: &Vec<char>, from: usize) -> (r: Option<u64>)
    requires
        from <= text@.len(),
    ensures
        r == match before(text@.skip(from as int), seq!['"']) {
            Some(number) => parsed_number(number),
            None => None,
        },
{
    let end: usize = text.len();
    let quote: [char; 1] = ['"'];
    assert(quote@ =~= seq!['"']);
    assert(text@.skip(from as int) =~= text@.subrange(from as int, end as int));
    match find(text, from, end, quote.as_slice()) {
        Some(place) => {
            assert(text@.skip(from as int).take(place - from) =~= text@.subrange(
                from as int,
                place as int,
            ));
            parse_number(text, from, place)
        },
        None => None,
    }
}

/// Finds the number of the subject in a token's payload.
fn find_subject(text: &Vec<char>) -> (r: Option<u64>)
    ensures
        r == subject_in(text@),
{
    let sub: [char; 5] = ['"', 's', 'u', 'b', '"'];
    let colon: [char; 1] = [':'];
    let quote: [char; 1] = ['"'];
    proof {
        assert(sub@ =~= seq!['"', 's', 'u', 'b', '"']);
        assert(colon@ =~= seq![':']);
        assert(quote@ =~= seq!['"']);
        assert(text@.skip(0) =~= text@);
    }
    match past(text, 0, sub.as_slice()) {
        None => None,
        Some(a) => match past(text, a, colon.as_slice()) {
            None => None,
            Some(b) => match past(text, b, quote.as_slice()) {
                None => None,
                Some(c) => quoted_number(text, c),
            },
        },
    }
}

/// The number of the subject in the bytes of a token's payload.
pub fn subject_of(payload: Vec<u8>) -> (r: Option<u64>)
    ensures
        r == subject_in_bytes(payload@),
{
    match text_from_utf8(payload) {
        Ok(text) => find_subject(&chars_of(text.as_str())),
        Err(_) => None,
    }
}

/// The middle one of three parts, padded for base64.
fn payload_text(token: &str) -> (r: Option<String>)
    ensures
        match r {
            Some(text) => middle_part(token@) is Some && text@ == with_padding(
                middle_part(token@)->0,
            ),
            None => middle_part(token@) is None,
        },
{
    let text: Vec<char> = chars_of(token);
    let end: usize = text.len();
    let dot: [char; 1] = ['.'];
    proof {
        assert(dot@ =~= seq!['.']);
        assert(text@.skip(0) =~= text@);
    }
    let first: usize = match past(&text, 0, dot.as_slice()) {
        Some(place) => place,
        None => return None,
    };
    let ghost rest = text@.skip(first as int);
    assert(rest =~= text@.subrange(first as int, end as int));
    let second: usize = match find(&text, first, end, dot.as_slice()) {
        Some(place) => place,
        None => return None,
    };
    assert(rest.skip(second + 1 - first) =~= text@.subrange(second + 1, end as int));
    match find(&text, second + 1, end, dot.as_slice()) {
        Some(_) => return None,
        None => {},
    }
    let mut payload: String = String::new();
    for at in first..second
        invariant
            second < text@.len(),
            payload@ == text@.subrange(first as int, at as int),
    {
        payload.push(text[at]);
        assert(payload@ =~= text@.subrange(first as int, at + 1));
    }
    assert(payload@ =~= rest.take(second - first));
    let ghost middle = payload@;
    let length: usize = payload.as_str().as_bytes().len();
    if length % 4 == 2 {
        payload.push('=');
        payload.push('=');
        assert(payload@ =~= middle + seq!['=', '=']);
    } else if length % 4 == 3 {
        payload.push('=');
        assert(payload@ =~= middle + seq!['=']);
    }
    Some(payload)
}

/// The SteamID that a refresh token names: the number of the subject in its
/// payload, which is the middle of three parts, in base64url or else in
/// standard base64.
pub fn extract_steamid_from_jwt(token: &str) -> (r: Option<u64>)
    ensures
        r == token_steam_id(token@),
{
    match payload_text(token) {
        Some(payload) => match base64url_decode(payload.as_str()) {
            Ok(bytes) => subject_of(bytes),
            Err(_) => match base64_decode(payload.as_str()) {
                Ok(bytes) => subject_of(bytes),
                Err(_) => None,
            },
        },
        None => None,
    }
}

} // verus!
