//! How the notations of keys are put together.
use vstd::prelude::*;

use crate::escape;
use crate::hex;
use crate::hex::HexError;
use crate::text;

verus! {

broadcast use vstd::string::group_string_axioms;

/// The escaped forms of byte strings one behind the other stand one behind the other.
pub proof fn escaped_forms_are_put_together(a: Seq<u8>, b: Seq<u8>)
    ensures
        escape::escaped(a + b) == escape::escaped(a) + escape::escaped(b),
    decreases a.len(),
{
    if a.len() == 0 {
        assert(a + b =~= b);
        assert(Seq::<char>::empty() + escape::escaped(b) =~= escape::escaped(b));
    } else {
        escaped_forms_are_put_together(a.drop_first(), b);
        assert((a + b).drop_first() =~= a.drop_first() + b);
        assert(escape::escaped(a + b) =~= escape::escaped(a) + escape::escaped(b));
    }
}

/// A printable byte other than a quote and a backslash stands for itself; every other byte is written
/// with a backslash.
pub proof fn printable_bytes_stand_for_themselves(c: u8)
    ensures
        ({
            let t = escape::escaped(seq![c]);
            if 32 <= c < 127 && c != 34 && c != 92 {
                t == seq![c as char]
            } else {
                t.len() > 1 && t[0] == '\\'
            }
        }),
{
    assert(seq![c].drop_first() =~= Seq::empty());
    assert(escape::escaped(seq![c].drop_first()) =~= Seq::<char>::empty());
    assert(escape::escaped(seq![c]) =~= escape::escaped_byte(c));
}

/// Escaped texts one behind the other stand for the byte strings one behind the other.
pub proof fn escaped_texts_are_read_in_turn(a: Seq<u8>, b: Seq<u8>, x: Seq<u8>)
    requires
        escape::unescaped(a) == Some(x),
    ensures
        escape::unescaped(a + b) == match escape::unescaped(b) {
            None => None,
            Some(y) => Some(x + y),
        },
    decreases a.len(),
{
    let s = a + b;
    if a.len() == 0 {
        assert(s =~= b);
        if let Some(y) = escape::unescaped(b) {
            assert(x + y =~= y);
        }
    } else {
        assert(s[0] == a[0]);
        let n: int = if a[0] != 92 {
            1
        } else if escape::short_escape(a[1]) is Some {
            2
        } else {
            4
        };
        assert(forall|i: int| 0 <= i < n ==> #[trigger] s[i] == a[i]);
        assert(s.skip(n) =~= a.skip(n) + b);
        let tail = escape::unescaped(a.skip(n))->0;
        escaped_texts_are_read_in_turn(a.skip(n), b, tail);
        if let Some(y) = escape::unescaped(b) {
            assert(seq![x[0]] + (tail + y) =~= x + y);
        }
    }
}

/// A byte other than a backslash stands for itself. Behind a backslash the quotes and the backslash stand
/// for themselves, three letters for control characters, and three octal digits for the byte that they
/// make; nothing else may stand there.
pub proof fn escapes_stand_for_bytes(c: u8, a: u8, b: u8, d: u8)
    ensures
        c != 92 ==> escape::unescaped(seq![c]) == Some(seq![c]),
        escape::unescaped(seq![92u8]) is None,
        c == 34 || c == 39 || c == 92 ==> escape::unescaped(seq![92u8, c]) == Some(seq![c]),
        escape::unescaped(seq![92u8, 110u8]) == Some(seq![10u8]),
        escape::unescaped(seq![92u8, 116u8]) == Some(seq![9u8]),
        escape::unescaped(seq![92u8, 114u8]) == Some(seq![13u8]),
        a < 4 && b < 8 && d < 8 ==> escape::unescaped(
            seq![92u8, (48 + a) as u8, (48 + b) as u8, (48 + d) as u8],
        ) == Some(seq![(64 * a + 8 * b + d) as u8]),
        c != 34 && c != 39 && c != 92 && c != 110 && c != 116 && c != 114 && !(48 <= c < 52)
            ==> escape::unescaped(seq![92u8, c, a, b]) is None,
{
    let none = Seq::<u8>::empty();
    assert(escape::unescaped(none) == Some(none));
    assert(seq![c].skip(1) =~= none);
    assert(seq![92u8, c].skip(2) =~= none);
    assert(seq![92u8, 110u8].skip(2) =~= none);
    assert(seq![92u8, 116u8].skip(2) =~= none);
    assert(seq![92u8, 114u8].skip(2) =~= none);
    let o = seq![92u8, (48 + a) as u8, (48 + b) as u8, (48 + d) as u8];
    assert(o.skip(4) =~= none);
    assert(seq![c] + none =~= seq![c]);
    assert(seq![10u8] + none =~= seq![10u8]);
    assert(seq![9u8] + none =~= seq![9u8]);
    assert(seq![13u8] + none =~= seq![13u8]);
    let v = (64 * a + 8 * b + d) as u8;
    assert(seq![v] + none =~= seq![v]);
}

/// Hexadecimal texts one behind the other stand for the byte strings one behind the other, where each of
/// them alone stands for one.
pub proof fn hex_texts_are_read_in_turn(a: Seq<char>, b: Seq<char>)
    requires
        hex::hex_parsed(a) is Ok,
        hex::hex_parsed(b) is Ok,
    ensures
        hex::hex_parsed(a + b) == Ok::<Seq<u8>, HexError>(
            hex::hex_parsed(a)->Ok_0 + hex::hex_parsed(b)->Ok_0,
        ),
{
    joined_digits(a, b);
    let (x, y) = (hex::digit_values(a), hex::digit_values(b));
    assert(hex::paired(x + y) =~= hex::paired(x) + hex::paired(y)) by {
        assert forall|i: int| 0 <= i < hex::paired(x + y).len() implies #[trigger] hex::paired(
            x + y,
        )[i] == (hex::paired(x) + hex::paired(y))[i] by {
            if i < x.len() / 2 {
                assert((x + y)[2 * i] == x[2 * i]);
                assert((x + y)[2 * i + 1] == x[2 * i + 1]);
            } else {
                let j = i - x.len() / 2;
                assert((x + y)[2 * i] == y[2 * j]);
                assert((x + y)[2 * i + 1] == y[2 * j + 1]);
            }
        }
    }
}

proof fn joined_digits(a: Seq<char>, b: Seq<char>)
    requires
        hex::first_bad(a) is None,
    ensures
        hex::digit_values(a + b) == hex::digit_values(a) + hex::digit_values(b),
        hex::first_bad(a + b) == match hex::first_bad(b) {
            None => None,
            Some(p) => Some(a.len() + p),
        },
    decreases a.len(),
{
    if a.len() == 0 {
        assert(a + b =~= b);
        assert(hex::digit_values(a) + hex::digit_values(b) =~= hex::digit_values(b));
    } else {
        joined_digits(a.drop_first(), b);
        assert((a + b).drop_first() =~= a.drop_first() + b);
        assert((a + b)[0] == a[0]);
        assert(hex::digit_values(a + b) =~= hex::digit_values(a) + hex::digit_values(b));
    }
}

/// The digit of a value in either case.
pub open spec fn is_digit_of(c: char, v: int) -> bool {
    if v < 10 {
        c as int == 48 + v
    } else {
        c as int == 55 + v || c as int == 87 + v
    }
}

/// Two digits stand for one byte, the first for its high half; a blank stands for nothing; a digit alone
/// stands for none.
pub proof fn digits_stand_for_bytes(a: char, b: char, x: int, y: int, blank: char)
    requires
        0 <= x < 16,
        0 <= y < 16,
        is_digit_of(a, x),
        is_digit_of(b, y),
        blank == ' ' || blank == '\t' || blank == '\r' || blank == '\n',
    ensures
        hex::hex_parsed(seq![a, b]) == Ok::<Seq<u8>, HexError>(seq![(16 * x + y) as u8]),
        hex::hex_parsed(seq![blank]) == Ok::<Seq<u8>, HexError>(Seq::empty()),
        hex::hex_parsed(seq![a, blank, b]) == Ok::<Seq<u8>, HexError>(seq![(16 * x + y) as u8]),
        hex::hex_parsed(seq![a]) == Err::<Seq<u8>, HexError>(HexError::InvalidLength),
{
    let none = Seq::<char>::empty();
    assert(hex::digit_values(none) =~= Seq::<u8>::empty());
    assert(hex::first_bad(none) is None);
    let (p, q) = (x as u8, y as u8);
    assert(hex::digit_value(a) == Some(p) && hex::digit_value(b) == Some(q));
    assert(seq![b].drop_first() =~= none);
    assert(hex::digit_values(seq![b]) =~= seq![q]);
    assert(hex::first_bad(seq![b]) is None);
    assert(seq![a].drop_first() =~= none);
    assert(hex::digit_values(seq![a]) =~= seq![p]);
    assert(hex::first_bad(seq![a]) is None);
    assert(seq![a, b].drop_first() =~= seq![b]);
    assert(hex::digit_values(seq![a, b]) =~= seq![p, q]);
    assert(hex::first_bad(seq![a, b]) is None);
    assert(hex::paired(seq![p, q]) =~= seq![(16 * x + y) as u8]);
    assert(seq![blank].drop_first() =~= none);
    assert(hex::digit_values(seq![blank]) =~= Seq::<u8>::empty());
    assert(hex::first_bad(seq![blank]) is None);
    assert(hex::paired(Seq::<u8>::empty()) =~= Seq::<u8>::empty());
    assert(seq![blank, b].drop_first() =~= seq![b]);
    assert(hex::digit_values(seq![blank, b]) =~= seq![q]);
    assert(hex::first_bad(seq![blank, b]) is None);
    assert(seq![a, blank, b].drop_first() =~= seq![blank, b]);
    assert(hex::digit_values(seq![a, blank, b]) =~= seq![p, q]);
    assert(hex::first_bad(seq![a, blank, b]) is None);
}

/// The first character that is neither a digit nor a blank is reported, with its place.
pub proof fn bad_characters_are_reported(front: Seq<char>, c: char, rest: Seq<char>)
    requires
        hex::hex_parsed(front) is Ok,
        !('0' <= c <= '9') && !('a' <= c <= 'f') && !('A' <= c <= 'F'),
        c != ' ' && c != '\t' && c != '\r' && c != '\n',
    ensures
        hex::hex_parsed(front + seq![c] + rest) == Err::<Seq<u8>, HexError>(
            HexError::InvalidCharacter(c, front.len() as usize),
        ),
{
    let tail = seq![c] + rest;
    assert(tail[0] == c);
    assert(hex::first_bad(tail) == Some(0nat));
    joined_digits(front, tail);
    assert(front + seq![c] + rest =~= front + tail);
    assert((front + tail)[front.len() as int] == c);
}

/// Each byte is written with two digits, the high half first, and byte strings one behind the other are
/// written one behind the other.
pub proof fn hex_forms_are_put_together(a: Seq<u8>, b: Seq<u8>, c: u8)
    ensures
        hex::hex_text(a + b) == hex::hex_text(a) + hex::hex_text(b),
        ({
            let t = hex::hex_text(seq![c]);
            t.len() == 2 && is_digit_of(t[0], c as int / 16) && is_digit_of(t[1], c as int % 16)
        }),
    decreases a.len(),
{
    assert(seq![c].drop_first() =~= Seq::empty());
    assert(hex::hex_text(seq![c].drop_first()) =~= Seq::<char>::empty());
    if a.len() == 0 {
        assert(a + b =~= b);
        assert(hex::hex_text(a) + hex::hex_text(b) =~= hex::hex_text(b));
    } else {
        hex_forms_are_put_together(a.drop_first(), b, c);
        assert((a + b).drop_first() =~= a.drop_first() + b);
        assert(hex::hex_text(a + b) =~= hex::hex_text(a) + hex::hex_text(b));
    }
}

/// A number of one digit is that digit, and a longer one is its tenth followed by its last digit.
pub proof fn numbers_are_written_in_decimal(n: nat, d: nat)
    requires
        d < 10,
    ensures
        text::decimal(d).len() == 1,
        text::decimal(d)[0] as int == 48 + d,
        n > 0 ==> text::decimal(10 * n + d) == text::decimal(n) + text::decimal(d),
{
    if n > 0 {
        assert((10 * n + d) / 10 == n && (10 * n + d) % 10 == d);
        assert(text::decimal(10 * n + d) =~= text::decimal(n) + text::decimal(d));
    }
}

/// What stands between quotes is put together from what stands for each character: a quote and a
/// backslash with a backslash in front, any other character itself.
pub proof fn quoted_texts_are_put_together(a: Seq<char>, b: Seq<char>, c: char)
    ensures
        text::quoted(a) == seq!['"'] + text::quoted_body(a) + seq!['"'],
        text::quoted_body(a + b) == text::quoted_body(a) + text::quoted_body(b),
        text::quoted_body(seq![c]) == (if c == '"' || c == '\\' {
            seq!['\\', c]
        } else {
            seq![c]
        }),
    decreases b.len(),
{
    assert(seq![c].drop_last() =~= Seq::empty());
    assert(text::quoted_body(seq![c].drop_last()) =~= Seq::<char>::empty());
    assert(text::quoted_body(seq![c]) =~= text::quoted_char(c));
    if b.len() == 0 {
        assert(a + b =~= a);
        assert(text::quoted_body(a) + text::quoted_body(b) =~= text::quoted_body(a));
    } else {
        quoted_texts_are_put_together(a, b.drop_last(), c);
        assert((a + b).drop_last() =~= a + b.drop_last());
        assert(text::quoted_body(a + b) =~= text::quoted_body(a) + text::quoted_body(b));
    }
}

/// A list of bytes stands between brackets, the bytes in decimal with a comma and a blank between two of
/// them.
pub proof fn byte_lists_are_put_together(s: Seq<u8>, b: u8)
    ensures
        text::byte_list(Seq::empty()) == "["@ + "]"@,
        text::byte_list(seq![b]) == "["@ + text::decimal(b as nat) + "]"@,
        s.len() > 0 ==> text::byte_list(s.push(b)) == text::byte_list(s).drop_last() + ", "@
            + text::decimal(b as nat) + "]"@,
{
    reveal_strlit("]");
    let none = Seq::<u8>::empty();
    assert(text::byte_list(none) =~= "["@ + "]"@);
    assert(text::byte_list(seq![b]) =~= "["@ + text::decimal(b as nat) + "]"@);
    if s.len() > 0 {
        assert(s.push(b).drop_last() =~= s);
        assert(text::byte_list(s).drop_last() =~= "["@ + text::byte_list_body(s));
        assert(text::byte_list(s.push(b)) =~= text::byte_list(s).drop_last() + ", "@
            + text::decimal(b as nat) + "]"@);
    }
}

} // verus!
