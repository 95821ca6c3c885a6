//! Keys in hexadecimal notation.
use rustc_serialize::hex::{FromHex, FromHexError, ToHex};
use vstd::prelude::*;

use crate::error::CtlError;
use crate::escape;

verus! {

broadcast use vstd::string::group_string_axioms;

/// Why a text is not the hexadecimal notation of a key.
#[derive(Clone, Copy, Debug, PartialEq, Eq, Structural)]
pub enum HexError {
    /// The character at this place is neither a digit nor a blank.
    InvalidCharacter(char, usize),
    /// The number of digits is odd.
    InvalidLength,
}

/// The value of a hexadecimal digit of either case.
pub open spec fn digit_value(c: char) -> Option<u8> {
    if '0' <= c <= '9' {
        Some((c as int - '0' as int) as u8)
    } else if 'a' <= c <= 'f' {
        Some((c as int - 'a' as int + 10) as u8)
    } else if 'A' <= c <= 'F' {
        Some((c as int - 'A' as int + 10) as u8)
    } else {
        None
    }
}

/// Whether `c` is a blank, which may stand anywhere between digits.
pub open spec fn is_blank(c: char) -> bool {
    c == ' ' || c == '\r' || c == '\n' || c == '\t'
}

/// The place of the first character that is neither a digit nor a blank.
pub open spec fn first_bad(s: Seq<char>) -> Option<nat>
    decreases s.len(),
{
    if s.len() == 0 {
        None
    } else if digit_value(s[0]) is None && !is_blank(s[0]) {
        Some(0)
    } else {
        match first_bad(s.drop_first()) {
            None => None,
            Some(p) => Some(p + 1),
        }
    }
}

/// The values of the digits, without the blanks.
pub open spec fn digit_values(s: Seq<char>) -> Seq<u8>
    decreases s.len(),
{
    if s.len() == 0 {
        Seq::empty()
    } else {
        match digit_value(s[0]) {
            None => digit_values(s.drop_first()),
            Some(d) => seq![d] + digit_values(s.drop_first()),
        }
    }
}

/// The bytes that pairs of digits stand for, the high digit first.
pub open spec fn paired(digits: Seq<u8>) -> Seq<u8> {
    Seq::new(digits.len() / 2, |i: int| (16 * digits[2 * i] + digits[2 * i + 1]) as u8)
}

/// The bytes that a text in hexadecimal notation stands for.
pub open spec fn hex_parsed(s: Seq<char>) -> Result<Seq<u8>, HexError> {
    match first_bad(s) {
        Some(p) => Err(HexError::InvalidCharacter(s[p as int], p as usize)),
        None => if digit_values(s).len() % 2 == 1 {
            Err(HexError::InvalidLength)
        } else {
            Ok(paired(digit_values(s)))
        },
    }
}

/// `str::from_hex` of `rustc_serialize` reads pairs of digits of either case as bytes and passes
/// over blanks, tabs and line ends. The first other character is reported with its place. Where
/// there is none, an odd number of digits is reported.
#[verifier::external_body]
fn parse_hex(text: &str) -> (r: Result<Vec<u8>, HexError>)
    ensures
        match r {
            Ok(v) => hex_parsed(text@) == Ok::<Seq<u8>, HexError>(v@),
            Err(e) => hex_parsed(text@) == Err::<Seq<u8>, HexError>(e),
        },
{
    match text.from_hex() {
        Ok(v) => Ok(v),
        Err(FromHexError::InvalidHexCharacter(c, at)) => Err(HexError::InvalidCharacter(c, at)),
        Err(FromHexError::InvalidHexLength) => Err(HexError::InvalidLength),
    }
}

/// The lower case digit of a value.
pub open spec fn lower_digit(d: int) -> char {
    if d < 10 {
        (48 + d) as char
    } else {
        (87 + d) as char
    }
}

/// The hexadecimal notation of bytes, in lower case and without blanks.
pub open spec fn hex_text(data: Seq<u8>) -> Seq<char>
    decreases data.len(),
{
    if data.len() == 0 {
        Seq::empty()
    } else {
        seq![lower_digit(data[0] as int / 16), lower_digit(data[0] as int % 16)] + hex_text(
            data.drop_first(),
        )
    }
}

/// `[u8]::to_hex` of `rustc_serialize` writes two lower case digits for each byte, the high digit
/// first. It asks for room for all of them at once, which is more than can be had for longer data.
#[verifier::external_body]
fn format_hex(data: &[u8]) -> (r: String)
    requires
        data@.len() <= usize::MAX / 4,
    ensures
        r@ == hex_text(data@),
{
    data.to_hex()
}

/// The upper case form of an ASCII letter; any other character itself.
pub open spec fn upper(c: char) -> char {
    if 'a' <= c <= 'z' {
        (c as int - 32) as char
    } else {
        c
    }
}

/// A text in upper case.
pub open spec fn uppercase(s: Seq<char>) -> Seq<char> {
    s.map_values(|c: char| upper(c))
}

/// The notation holds two ASCII characters for each byte.
pub proof fn hex_text_is_ascii(data: Seq<u8>)
    ensures
        hex_text(data).len() == 2 * data.len(),
        vstd::utf8::is_ascii_chars(hex_text(data)),
    decreases data.len(),
{
    if data.len() > 0 {
        hex_text_is_ascii(data.drop_first());
    }
}

/// Puts an ASCII text in upper case.
fn to_uppercase(s: &str) -> (r: String)
    requires
        vstd::utf8::is_ascii_chars(s@),
    ensures
        r@ == uppercase(s@),
{
    proof {
        vstd::utf8::is_ascii_chars_encode_utf8(s@);
    }
    let b = s.as_bytes();
    let mut out = String::new();
    let mut i: usize = 0;
    while i < b.len()
        invariant
            i <= b@.len(),
            b@.len() == s@.len(),
            vstd::utf8::is_ascii_chars(s@),
            forall|j: int| 0 <= j < b@.len() ==> (#[trigger] b@[j]) as int == s@[j] as int,
            out@ == uppercase(s@.take(i as int)),
        decreases b.len() - i,
    {
        let c: u8 = b[i];
        let up: u8 = if 97 <= c && c <= 122 {
            c - 32
        } else {
            c
        };
        assert(up as char == upper(s@[i as int]));
        out.push(up as char);
        assert(out@ =~= uppercase(s@.take(i + 1)));
        i += 1;
    }
    assert(s@.take(b@.len() as int) =~= s@);
    out
}

/// Whether a key starts with the prefix `0x`.
pub open spec fn is_prefixed(key: Seq<char>) -> bool {
    key.len() >= 2 && key[0] == '0' && key[1] == 'x'
}

/// The part of a key that is read as hexadecimal digits: what follows the prefix where there is one.
pub open spec fn digits_part(key: Seq<char>) -> Seq<char> {
    if is_prefixed(key) {
        key.skip(2)
    } else {
        key
    }
}

/// The bytes that a hexadecimal key stands for. The place of a bad character is counted from where
/// the digits begin.
pub open spec fn hex_decoded(key: Seq<char>) -> Result<Seq<u8>, HexError> {
    hex_parsed(digits_part(key))
}

/// The first byte of a text is an ASCII byte exactly if the first character is that character.
proof fn first_ascii(s: Seq<char>, c: u8)
    requires
        s.len() > 0,
        c < 128,
    ensures
        vstd::utf8::encode_utf8(s).len() > 0,
        vstd::utf8::encode_utf8(s)[0] == c <==> s[0] == c as char,
        s[0] == c as char ==> vstd::utf8::encode_utf8(s) == seq![c] + vstd::utf8::encode_utf8(
            s.drop_first(),
        ),
{
    let b = vstd::utf8::encode_utf8(s);
    let v = s[0] as u32;
    vstd::utf8::encode_utf8_first_scalar(s);
    vstd::utf8::char_is_scalar(s[0]);
    assert(c < 128 ==> c & 0x7F == c) by (bit_vector);
    assert(v < 128 ==> v & 0x7F == v) by (bit_vector);
    if b[0] == c {
        assert(vstd::utf8::decode_first_scalar(b) == c as u32);
        vstd::utf8::char_u32_cast(s[0], c as u32);
        assert(c as u32 as char == c as char);
    }
    if s[0] == c as char {
        assert(v == c);
        assert(vstd::utf8::encode_scalar(v) =~= seq![c]);
    }
}

/// An ASCII character behind a text puts its byte behind the bytes of the text.
pub proof fn encoded_with_one_more(s: Seq<char>, c: u8)
    requires
        c < 128,
    ensures
        vstd::utf8::encode_utf8(s.push(c as char)) == vstd::utf8::encode_utf8(s).push(c),
    decreases s.len(),
{
    let t = s.push(c as char);
    if s.len() == 0 {
        first_ascii(t, c);
        assert(t.drop_first() =~= Seq::<char>::empty());
        assert(vstd::utf8::encode_utf8(t) =~= vstd::utf8::encode_utf8(s).push(c));
    } else {
        encoded_with_one_more(s.drop_first(), c);
        assert(t.drop_first() =~= s.drop_first().push(c as char));
        assert(vstd::utf8::encode_utf8(t) =~= vstd::utf8::encode_utf8(s).push(c));
    }
}

/// Whether a key starts with the prefix `0x`.
fn has_prefix(key: &str) -> (r: bool)
    ensures
        r == is_prefixed(key@),
{
    let b = key.as_bytes();
    proof {
        if key@.len() > 0 {
            first_ascii(key@, 48);
            if key@.len() > 1 && key@[0] == '0' {
                first_ascii(key@.drop_first(), 120);
            }
        }
    }
    b.len() >= 2 && b[0] == 48 && b[1] == 120
}

/// The prefix takes two bytes, behind which a character begins.
proof fn prefix_is_whole(key: Seq<char>)
    requires
        is_prefixed(key),
    ensures
        vstd::utf8::is_char_boundary(vstd::utf8::encode_utf8(key), 2),
        vstd::utf8::encode_utf8(key).skip(2) == vstd::utf8::encode_utf8(key.skip(2)),
{
    broadcast use vstd::utf8::encode_utf8_valid_utf8;

    let b = vstd::utf8::encode_utf8(key);
    let c = vstd::utf8::encode_utf8(key.drop_first());
    first_ascii(key, 48);
    first_ascii(key.drop_first(), 120);
    assert(key.drop_first().drop_first() =~= key.skip(2));
    assert(b.skip(2) =~= vstd::utf8::encode_utf8(key.skip(2)));
    assert(vstd::utf8::pop_first_scalar(b) =~= c);
    assert(vstd::utf8::pop_first_scalar(c) =~= vstd::utf8::encode_utf8(key.skip(2)));
    assert(vstd::utf8::is_char_boundary(vstd::utf8::encode_utf8(key.skip(2)), 0));
    assert(vstd::utf8::is_char_boundary(c, 1));
}

/// Reads a hexadecimal key; the error says why it cannot be read.
pub fn try_from_hex(key: &str) -> (r: Result<Vec<u8>, HexError>)
    ensures
        match r {
            Ok(v) => hex_decoded(key@) == Ok::<Seq<u8>, HexError>(v@),
            Err(e) => hex_decoded(key@) == Err::<Seq<u8>, HexError>(e),
        },
{
    if !has_prefix(key) {
        return parse_hex(key);
    }
    proof {
        prefix_is_whole(key@);
    }
    let (_, digits) = key.split_at(2);
    proof {
        vstd::utf8::encode_utf8_decode_utf8(digits@);
        vstd::utf8::encode_utf8_decode_utf8(key@.skip(2));
    }
    parse_hex(digits)
}

/// Reads a readable hexadecimal key.
pub fn from_hex(key: &str) -> (r: Vec<u8>)
    requires
        hex_decoded(key@) is Ok,
    ensures
        hex_decoded(key@) == Ok::<Seq<u8>, HexError>(r@),
{
    match try_from_hex(key) {
        Ok(v) => v,
        Err(_) => Vec::new(),
    }
}

/// The escaped form of a hexadecimal key.
pub fn hex_to_escaped(hex: &str) -> (r: Result<String, CtlError>)
    ensures
        match hex_decoded(hex@) {
            Err(e) => r == Err::<String, CtlError>(CtlError::Hex(e)),
            Ok(v) => r is Ok && r->Ok_0@ == escape::escaped(v),
        },
{
    match try_from_hex(hex) {
        Err(e) => Err(CtlError::Hex(e)),
        Ok(v) => Ok(escape::escape(v.as_slice())),
    }
}

/// The hexadecimal form of an escaped key, in upper case.
pub fn escaped_to_hex(escaped: &str) -> (r: Result<String, CtlError>)
    ensures
        match escape::unescaped(vstd::utf8::encode_utf8(escaped@)) {
            None => r == Err::<String, CtlError>(CtlError::BadEscape),
            Some(v) => if v.len() > usize::MAX / 4 {
                r == Err::<String, CtlError>(CtlError::KeyTooLong)
            } else {
                r is Ok && r->Ok_0@ == uppercase(hex_text(v))
            },
        },
{
    match escape::try_unescape(escaped) {
        None => Err(CtlError::BadEscape),
        Some(v) => {
            if v.len() > usize::MAX / 4 {
                return Err(CtlError::KeyTooLong);
            }
            let lower = format_hex(v.as_slice());
            proof {
                hex_text_is_ascii(v@);
            }
            Ok(to_uppercase(lower.as_str()))
        },
    }
}

proof fn upper_digit_value(d: int)
    requires
        0 <= d < 16,
    ensures
        digit_value(lower_digit(d)) == Some(d as u8),
        digit_value(upper(lower_digit(d))) == Some(d as u8),
{
}

proof fn pair_front(hi: u8, lo: u8, rest: Seq<u8>)
    requires
        hi < 16,
        lo < 16,
    ensures
        paired(seq![hi, lo] + rest) == seq![(16 * hi + lo) as u8] + paired(rest),
{
    let digits = seq![hi, lo] + rest;
    assert(paired(digits) =~= seq![(16 * hi + lo) as u8] + paired(rest)) by {
        assert forall|i: int| 0 < i < paired(digits).len() implies paired(digits)[i] == paired(
            rest,
        )[i - 1] by {
            assert(digits[2 * i] == rest[2 * (i - 1)]);
            assert(digits[2 * i + 1] == rest[2 * (i - 1) + 1]);
        }
    }
}

/// Two digits in front of a text put one byte in front of what it stands for.
proof fn parse_front(a: char, b: char, rest: Seq<char>)
    requires
        digit_value(a) is Some,
        digit_value(b) is Some,
        hex_parsed(rest) is Ok,
    ensures
        hex_parsed(seq![a, b] + rest) == Ok::<Seq<u8>, HexError>(
            seq![(16 * digit_value(a)->0 + digit_value(b)->0) as u8] + hex_parsed(rest)->Ok_0,
        ),
{
    let s = seq![a, b] + rest;
    let t = seq![b] + rest;
    let hi = digit_value(a)->0;
    let lo = digit_value(b)->0;
    assert(s.drop_first() =~= t);
    assert(t.drop_first() =~= rest);
    assert(digit_values(t) == seq![lo] + digit_values(rest));
    assert(digit_values(s) == seq![hi] + digit_values(t));
    assert(digit_values(s) =~= seq![hi, lo] + digit_values(rest));
    assert(first_bad(t) is None);
    assert(first_bad(s) is None);
    pair_front(hi, lo, digit_values(rest));
}

proof fn parse_undoes_format(data: Seq<u8>)
    ensures
        hex_parsed(hex_text(data)) == Ok::<Seq<u8>, HexError>(data),
        hex_parsed(uppercase(hex_text(data))) == Ok::<Seq<u8>, HexError>(data),
    decreases data.len(),
{
    let text = hex_text(data);
    if data.len() == 0 {
        assert(uppercase(text) =~= text);
        assert(paired(digit_values(text)) =~= data);
    } else {
        let hi = data[0] as int / 16;
        let lo = data[0] as int % 16;
        let a = lower_digit(hi);
        let b = lower_digit(lo);
        let rest = hex_text(data.drop_first());
        parse_undoes_format(data.drop_first());
        upper_digit_value(hi);
        upper_digit_value(lo);
        parse_front(a, b, rest);
        parse_front(upper(a), upper(b), uppercase(rest));
        assert(uppercase(text) =~= seq![upper(a), upper(b)] + uppercase(rest));
        assert(seq![data[0]] + data.drop_first() =~= data);
    }
}

/// The hexadecimal form of a key is read back as that key, in upper case as it is printed and in
/// lower case.
pub proof fn from_hex_undoes_to_hex(data: Seq<u8>)
    ensures
        hex_decoded(uppercase(hex_text(data))) == Ok::<Seq<u8>, HexError>(data),
        hex_decoded(hex_text(data)) == Ok::<Seq<u8>, HexError>(data),
{
    let lower = hex_text(data);
    let s = uppercase(lower);
    parse_undoes_format(data);
    hex_text_is_ascii(data);
    assert(!is_prefixed(s) && !is_prefixed(lower)) by {
        if s.len() >= 2 {
            assert(lower[1] == lower_digit(data[0] as int % 16));
            assert(s[1] == upper(lower[1]));
        }
    }
}

/// A key with the prefix `0x` reads as the rest of it. The rest is read as digits: a second prefix is
/// not passed over.
pub proof fn prefix_is_passed_over(rest: Seq<char>)
    ensures
        hex_decoded(seq!['0', 'x'] + rest) == hex_parsed(rest),
        !is_prefixed(rest) ==> hex_decoded(seq!['0', 'x'] + rest) == hex_decoded(rest),
{
    assert((seq!['0', 'x'] + rest).skip(2) =~= rest);
}

} // verus!
