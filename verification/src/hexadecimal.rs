//! Hexadecimal text.
use vstd::prelude::*;

verus! {

/// What a hexadecimal digit counts for; upper and lower case are alike.
pub open spec fn digit_value(c: char) -> Option<nat> {
    if '0' <= c && c <= '9' {
        Some((c as int - '0' as int) as nat)
    } else if 'a' <= c && c <= 'f' {
        Some((c as int - 'a' as int + 10) as nat)
    } else if 'A' <= c && c <= 'F' {
        Some((c as int - 'A' as int + 10) as nat)
    } else {
        None
    }
}

/// The lowercase digit for `v`, which is below 16.
pub open spec fn digit(v: nat) -> char {
    if v < 10 {
        ('0' as int + v) as char
    } else {
        ('a' as int + v - 10) as char
    }
}

/// Whether every character is a hexadecimal digit.
pub open spec fn all_digits(text: Seq<char>) -> bool {
    forall|i: int| 0 <= i < text.len() ==> digit_value(#[trigger] text[i]) is Some
}

/// The bytes that `text` spells, two digits a byte; none unless it has an even
/// number of characters, all of them digits.
pub open spec fn decoded(text: Seq<char>) -> Option<Seq<u8>> {
    if text.len() % 2 == 0 && all_digits(text) {
        Some(
            Seq::new(
                text.len() / 2,
                |i: int| (16 * digit_value(text[2 * i])->0 + digit_value(text[2 * i + 1])->0) as u8,
            ),
        )
    } else {
        None
    }
}

/// `data` as lowercase text, two digits a byte.
pub open spec fn encoded(data: Seq<u8>) -> Seq<char> {
    Seq::new(
        2 * data.len(),
        |i: int|
            if i % 2 == 0 {
                digit(data[i / 2] as nat / 16)
            } else {
                digit(data[i / 2] as nat % 16)
            },
    )
}

/// The number that `text` spells in base 16.
pub open spec fn number(text: Seq<char>) -> nat
    decreases text.len(),
{
    if text.len() == 0 {
        0
    } else {
        16 * number(text.drop_last()) + digit_value(text.last())->0
    }
}

/// The number read from `text`: digits, at least one, behind an optional `+`.
pub open spec fn parsed(text: Seq<char>) -> Option<nat> {
    let digits = if text.len() > 0 && text[0] == '+' {
        text.drop_first()
    } else {
        text
    };
    if digits.len() > 0 && all_digits(digits) {
        Some(number(digits))
    } else {
        None
    }
}

/// The lowercase form of a hexadecimal digit.
pub open spec fn lowered(c: char) -> char {
    digit(digit_value(c)->0)
}

pub proof fn lemma_digit_round_trip(v: nat)
    requires
        v < 16,
    ensures
        digit_value(digit(v)) == Some(v),
{
}

/// The digits in their order count from 0 to 15, in lower and in upper case, and nothing
/// else is a digit; what is written is in lower case.
pub proof fn digits_count_to_sixteen(v: nat, c: char)
    requires
        v < 16,
    ensures
        digit(v) == "0123456789abcdef"@[v as int],
        digit_value("0123456789abcdef"@[v as int]) == Some(v),
        digit_value("0123456789ABCDEF"@[v as int]) == Some(v),
        digit_value(c) matches Some(n) ==> n < 16 && (c == "0123456789abcdef"@[n as int] || c
            == "0123456789ABCDEF"@[n as int]),
{
    reveal_strlit("0123456789abcdef");
    reveal_strlit("0123456789ABCDEF");
}

/// Byte `i` of a decoded text is spelled by two digits, the higher first; and a text is
/// decoded exactly where it has an even number of characters and all of them are digits.
pub proof fn two_digits_spell_a_byte(text: Seq<char>, i: int)
    ensures
        decoded(text) is Some <==> text.len() % 2 == 0 && forall|j: int|
            0 <= j < text.len() ==> digit_value(#[trigger] text[j]) is Some,
        decoded(text) matches Some(data) ==> {
            &&& 2 * data.len() == text.len()
            &&& 0 <= i < data.len() ==> data[i] == 16 * digit_value(text[2 * i])->0 + digit_value(
                text[2 * i + 1],
            )->0
        },
{
    if decoded(text) is Some && 0 <= i && 2 * i + 1 < text.len() {
        assert(digit_value(text[2 * i]) is Some);
        assert(digit_value(text[2 * i + 1]) is Some);
    }
}

proof fn lemma_number_of_encoded(data: Seq<u8>)
    ensures
        number(encoded(data)) == crate::db::be_value(data),
    decreases data.len(),
{
    if data.len() > 0 {
        let fewer = data.drop_last();
        let text = encoded(data);
        let end = text.len() as int;
        lemma_number_of_encoded(fewer);
        lemma_digit_round_trip(data.last() as nat / 16);
        lemma_digit_round_trip(data.last() as nat % 16);
        reveal_with_fuel(number, 3);
        assert(text.drop_last().drop_last() =~= encoded(fewer));
        assert(text.last() == digit(data.last() as nat % 16));
        assert(text.drop_last().last() == digit(data.last() as nat / 16));
    }
}

/// The number that is read from bytes in hexadecimal is the one that they denote, most
/// significant byte first; a plus sign before it changes nothing; and without a digit, or
/// with anything that is none, there is no number.
pub proof fn numbers_are_read_as_they_are_written(data: Seq<u8>, text: Seq<char>)
    ensures
        data.len() > 0 ==> parsed(encoded(data)) == Some(crate::db::be_value(data)),
        text.len() > 0 && text[0] != '+' ==> parsed(seq!['+'] + text) == parsed(text),
        text.len() > 0 && text[0] != '+' ==> (parsed(text) is Some <==> forall|i: int|
            0 <= i < text.len() ==> digit_value(#[trigger] text[i]) is Some),
        parsed(Seq::empty()) is None,
        parsed(seq!['+']) is None,
{
    if data.len() > 0 {
        decoding_undoes_encoding(data);
        lemma_number_of_encoded(data);
        assert(encoded(data).len() > 0);
        assert(digit_value(encoded(data)[0]) is Some);
    }
    assert((seq!['+'] + text).drop_first() =~= text);
}

/// Decoding what was encoded gives the bytes back.
pub proof fn decoding_undoes_encoding(data: Seq<u8>)
    ensures
        decoded(encoded(data)) == Some(data),
{
    let text = encoded(data);
    assert forall|i: int| 0 <= i < text.len() implies digit_value(#[trigger] text[i]) is Some by {
        lemma_digit_round_trip(data[i / 2] as nat / 16);
        lemma_digit_round_trip(data[i / 2] as nat % 16);
    }
    let back = decoded(text)->0;
    assert forall|i: int| 0 <= i < data.len() implies back[i] == data[i] by {
        lemma_digit_round_trip(data[i] as nat / 16);
        lemma_digit_round_trip(data[i] as nat % 16);
        assert((2 * i) / 2 == i);
        assert((2 * i + 1) / 2 == i);
        assert(text[2 * i] == digit(data[i] as nat / 16));
        assert(text[2 * i + 1] == digit(data[i] as nat % 16));
    }
    assert(back =~= data);
}

/// Encoding what was decoded gives the text back in lower case.
pub proof fn encoding_undoes_decoding(text: Seq<char>)
    requires
        decoded(text) is Some,
    ensures
        encoded(decoded(text)->0) == text.map_values(|c: char| lowered(c)),
{
    let data = decoded(text)->0;
    let low = text.map_values(|c: char| lowered(c));
    assert forall|i: int| 0 <= i < text.len() implies encoded(data)[i] == low[i] by {
        let k = i / 2;
        assert(digit_value(text[2 * k]) is Some);
        assert(digit_value(text[2 * k + 1]) is Some);
        let high = digit_value(text[2 * k])->0;
        let small = digit_value(text[2 * k + 1])->0;
        assert(data[k] as nat == 16 * high + small);
    }
    assert(encoded(data) =~= low);
}

/// The error of the `hex` crate's decoder.
#[verifier::external_type_specification]
#[verifier::external_body]
pub struct ExFromHexError(hex::FromHexError);

/// `hex::decode`: succeeds exactly on an even number of hexadecimal digits of
/// either case, and returns the bytes they spell.
#[verifier::external_body]
fn hex_decode(text: &str) -> (out: Result<Vec<u8>, hex::FromHexError>)
    ensures
        match out {
            Ok(data) => decoded(text@) == Some(data@),
            Err(_) => decoded(text@) is None,
        },
{
    hex::decode(text)
}

/// `hex::encode`: two lowercase digits for each byte, high digit first.
#[verifier::external_body]
fn hex_encode(data: &[u8]) -> (text: String)
    ensures
        text@ == encoded(data@),
{
    hex::encode(data)
}

/// Decodes hexadecimal text, or nothing where it is not valid.
pub fn decode(text: &str) -> (out: Option<Vec<u8>>)
    ensures
        match out {
            Some(data) => decoded(text@) == Some(data@),
            None => decoded(text@) is None,
        },
{
    match hex_decode(text) {
        Ok(data) => Some(data),
        Err(_) => None,
    }
}

/// Encodes bytes as lowercase hexadecimal text.
pub fn encode(data: &[u8]) -> (text: String)
    ensures
        text@ == encoded(data@),
{
    hex_encode(data)
}

fn value_of(c: char) -> (v: Option<u32>)
    ensures
        match v {
            Some(n) => digit_value(c) == Some(n as nat) && n < 16,
            None => digit_value(c) is None,
        },
{
    if '0' <= c && c <= '9' {
        Some(c as u32 - '0' as u32)
    } else if 'a' <= c && c <= 'f' {
        Some(c as u32 - 'a' as u32 + 10)
    } else if 'A' <= c && c <= 'F' {
        Some(c as u32 - 'A' as u32 + 10)
    } else {
        None
    }
}

proof fn lemma_number_grows(text: Seq<char>, from: int, to: int)
    requires
        0 <= from <= to <= text.len(),
    ensures
        number(text.take(from)) <= number(text.take(to)),
    decreases to - from,
{
    if from < to {
        lemma_number_grows(text, from, to - 1);
        assert(text.take(to).drop_last() =~= text.take(to - 1));
    }
}

/// Reads a 32-bit number in base 16; nothing where the text is no such number
/// or the number does not fit.
pub fn parse_u32(text: &str) -> (out: Option<u32>)
    ensures
        match out {
            Some(n) => parsed(text@) == Some(n as nat),
            None => parsed(text@) is None || parsed(text@)->0 > u32::MAX,
        },
{
    let len: usize = text.unicode_len();
    let mut start: usize = 0;
    if len > 0 && text.get_char(0) == '+' {
        start = 1;
    }
    let ghost digits = text@.subrange(start as int, len as int);
    assert(start == 0 ==> digits =~= text@);
    assert(start == 1 ==> digits =~= text@.drop_first());
    if start == len {
        return None;
    }
    let mut total: u64 = 0;
    let mut overflow: bool = false;
    let mut i: usize = start;
    while i < len
        invariant
            start <= i <= len,
            start < len,
            len == text@.len(),
            digits == text@.subrange(start as int, len as int),
            parsed(text@) == (if all_digits(digits) {
                Some(number(digits))
            } else {
                None
            }),
            forall|j: int| 0 <= j < i - start ==> digit_value(#[trigger] digits[j]) is Some,
            !overflow ==> total == number(digits.take(i - start)) && total <= u32::MAX,
            overflow ==> number(digits.take(i - start)) > u32::MAX,
        decreases len - i,
    {
        let c: char = text.get_char(i);
        let ghost at = i - start;
        assert(digits[at] == c);
        match value_of(c) {
            None => {
                assert(digit_value(digits[at]) is None);
                return None;
            },
            Some(v) => {
                proof {
                    assert(digits.take(at + 1).drop_last() =~= digits.take(at));
                    assert(number(digits.take(at + 1)) == 16 * number(digits.take(at)) + v);
                    lemma_number_grows(digits, at, at + 1);
                }
                if !overflow {
                    total = total * 16 + v as u64;
                    if total > 0xffff_ffff {
                        overflow = true;
                    }
                }
            },
        }
        i = i + 1;
    }
    assert(digits.take(digits.len() as int) =~= digits);
    if overflow {
        None
    } else {
        Some(total as u32)
    }
}

} // verus!
