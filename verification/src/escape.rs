//! The escaped form in which keys and values are printed and typed.
use vstd::prelude::*;

use crate::text;

verus! {

broadcast use vstd::string::group_string_axioms;

/// What stands for one byte: a printable character for itself, a short escape for the usual
/// control characters, for the quote and for the backslash, three octal digits for any other.
pub open spec fn escaped_byte(c: u8) -> Seq<char> {
    if c == 10 {
        seq!['\\', 'n']
    } else if c == 13 {
        seq!['\\', 'r']
    } else if c == 9 {
        seq!['\\', 't']
    } else if c == 34 {
        seq!['\\', '"']
    } else if c == 92 {
        seq!['\\', '\\']
    } else if 0x20 <= c && c < 0x7f {
        seq![c as char]
    } else {
        seq!['\\', (48 + c / 64) as char, (48 + (c / 8) % 8) as char, (48 + c % 8) as char]
    }
}

/// The escaped form of a byte string.
pub open spec fn escaped(data: Seq<u8>) -> Seq<char>
    decreases data.len(),
{
    if data.len() == 0 {
        Seq::empty()
    } else {
        escaped_byte(data[0]) + escaped(data.drop_first())
    }
}

/// The byte that one octal escape stands for, where its digits are octal and it fits in a byte.
pub open spec fn octal(a: u8, b: u8, c: u8) -> Option<u8> {
    if 48 <= a && a < 52 && 48 <= b && b < 56 && 48 <= c && c < 56 {
        Some(((a - 48) * 64 + (b - 48) * 8 + (c - 48)) as u8)
    } else {
        None
    }
}

/// The byte that a short escape with the letter `b` stands for.
pub open spec fn short_escape(b: u8) -> Option<u8> {
    if b == 34 || b == 39 || b == 92 {
        Some(b)
    } else if b == 110 {
        Some(10)
    } else if b == 116 {
        Some(9)
    } else if b == 114 {
        Some(13)
    } else {
        None
    }
}

/// A byte in front of a text that may be ill-formed.
pub open spec fn prepended(b: u8, rest: Option<Seq<u8>>) -> Option<Seq<u8>> {
    match rest {
        None => None,
        Some(r) => Some(seq![b] + r),
    }
}

/// The byte string that an escaped text stands for; none where an escape is cut short or unknown.
pub open spec fn unescaped(s: Seq<u8>) -> Option<Seq<u8>>
    decreases s.len(),
{
    if s.len() == 0 {
        Some(Seq::empty())
    } else if s[0] != 92 {
        prepended(s[0], unescaped(s.skip(1)))
    } else if s.len() < 2 {
        None
    } else {
        match short_escape(s[1]) {
            Some(b) => prepended(b, unescaped(s.skip(2))),
            None => if s.len() < 4 {
                None
            } else {
                match octal(s[1], s[2], s[3]) {
                    Some(b) => prepended(b, unescaped(s.skip(4))),
                    None => None,
                }
            },
        }
    }
}

/// An escaped form holds printable characters only.
pub proof fn escaped_is_printable(data: Seq<u8>)
    ensures
        forall|i: int| 0 <= i < escaped(data).len() ==> text::printable(#[trigger] escaped(data)[i]),
    decreases data.len(),
{
    if data.len() > 0 {
        escaped_is_printable(data.drop_first());
        let head = escaped_byte(data[0]);
        let tail = escaped(data.drop_first());
        assert forall|i: int| 0 <= i < escaped(data).len() implies text::printable(
            #[trigger] escaped(data)[i],
        ) by {
            if i < head.len() {
                assert(escaped(data)[i] == head[i]);
            } else {
                assert(escaped(data)[i] == tail[i - head.len()]);
            }
        }
    }
}

/// Reading an escaped form gives back the bytes that were written.
pub proof fn unescape_undoes_escape(data: Seq<u8>)
    ensures
        unescaped(vstd::utf8::encode_utf8(escaped(data))) == Some(data),
    decreases data.len(),
{
    let text = escaped(data);
    let bytes = vstd::utf8::encode_utf8(text);
    escaped_is_printable(data);
    assert forall|i: int| 0 <= i < text.len() implies '\0' <= #[trigger] text[i] <= '\u{7f}' by {
        assert(text::printable(text[i]));
    }
    vstd::utf8::is_ascii_chars_encode_utf8(text);
    if data.len() == 0 {
        assert(data =~= Seq::<u8>::empty());
    } else {
        let c = data[0];
        let rest = data.drop_first();
        let head = escaped_byte(c);
        let n = head.len() as int;
        escaped_is_printable(rest);
        assert forall|i: int| 0 <= i < escaped(rest).len() implies '\0' <= #[trigger] escaped(
            rest,
        )[i] <= '\u{7f}' by {
            assert(text::printable(escaped(rest)[i]));
        }
        vstd::utf8::is_ascii_chars_encode_utf8(escaped(rest));
        unescape_undoes_escape(rest);
        assert forall|i: int| 0 <= i < n implies #[trigger] bytes[i] == head[i] as u8 by {
            assert(text[i] == head[i]);
        }
        assert(bytes.skip(n) =~= vstd::utf8::encode_utf8(escaped(rest))) by {
            assert forall|i: int| 0 <= i < escaped(rest).len() implies bytes.skip(n)[i]
                == vstd::utf8::encode_utf8(escaped(rest))[i] by {
                assert(text[i + n] == escaped(rest)[i]);
            }
        }
        assert(data =~= seq![c] + rest);
        assert(bytes[0] == head[0] as u8);
        if n > 1 {
            assert(bytes[1] == head[1] as u8);
        }
        if n > 2 {
            assert(bytes[2] == head[2] as u8);
            assert(bytes[3] == head[3] as u8);
            assert(octal(bytes[1], bytes[2], bytes[3]) == Some(c));
        }
    }
}

/// Writes a byte string in escaped form.
pub fn escape(data: &[u8]) -> (r: String)
    ensures
        r@ == escaped(data@),
{
    let mut out = String::new();
    let mut i: usize = 0;
    assert(data@.skip(0) =~= data@);
    assert(out@ + escaped(data@) =~= escaped(data@));
    while i < data.len()
        invariant
            i <= data@.len(),
            escaped(data@) == out@ + escaped(data@.skip(i as int)),
        decreases data.len() - i,
    {
        let ghost prior = out@;
        let c = data[i];
        if c == 10 {
            out.push('\\');
            out.push('n');
        } else if c == 13 {
            out.push('\\');
            out.push('r');
        } else if c == 9 {
            out.push('\\');
            out.push('t');
        } else if c == 34 {
            out.push('\\');
            out.push('"');
        } else if c == 92 {
            out.push('\\');
            out.push('\\');
        } else if 0x20 <= c && c < 0x7f {
            out.push(c as char);
        } else {
            out.push('\\');
            out.push((48 + c / 64) as char);
            out.push((48 + (c / 8) % 8) as char);
            out.push((48 + c % 8) as char);
        }
        assert(out@ =~= prior + escaped_byte(c));
        assert(data@.skip(i as int)[0] == c);
        assert(data@.skip(i as int).drop_first() =~= data@.skip(i + 1));
        i += 1;
        assert(escaped(data@) =~= out@ + escaped(data@.skip(i as int)));
    }
    assert(out@ =~= escaped(data@));
    out
}

/// Appends a byte string in escaped form.
pub fn push_escaped(out: &mut String, data: &[u8])
    ensures
        final(out)@ == old(out)@ + escaped(data@),
{
    let s = escape(data);
    out.append(s.as_str());
}

/// Appends the escaped form of a byte string in quotes.
pub fn push_quoted_escaped(out: &mut String, data: &[u8])
    ensures
        final(out)@ == old(out)@ + text::quoted(escaped(data@)),
{
    let s = escape(data);
    proof {
        escaped_is_printable(data@);
    }
    text::push_quoted(out, s.as_str());
}

/// Reads an escaped text; none where an escape is cut short or unknown.
pub fn try_unescape(s: &str) -> (r: Option<Vec<u8>>)
    ensures
        match r {
            None => unescaped(vstd::utf8::encode_utf8(s@)) is None,
            Some(v) => unescaped(vstd::utf8::encode_utf8(s@)) == Some(v@),
        },
{
    let bytes = s.as_bytes();
    let mut out: Vec<u8> = Vec::new();
    let mut i: usize = 0;
    assert(bytes@.skip(0) =~= bytes@);
    assert(forall|t: Seq<u8>| #[trigger] (out@ + t) =~= t);
    while i < bytes.len()
        invariant
            i <= bytes@.len(),
            bytes@ == vstd::utf8::encode_utf8(s@),
            unescaped(bytes@) == match unescaped(bytes@.skip(i as int)) {
                None => None,
                Some(t) => Some(out@ + t),
            },
        decreases bytes.len() - i,
    {
        let ghost prior = out@;
        let ghost rest = bytes@.skip(i as int);
        let b = bytes[i];
        assert(rest[0] == b);
        let mut width: usize = 1;
        let mut value: u8 = b;
        if b == 92 {
            if bytes.len() - i < 2 {
                return None;
            }
            let e = bytes[i + 1];
            assert(rest[1] == e);
            width = 2;
            if e == 34 || e == 39 || e == 92 {
                value = e;
            } else if e == 110 {
                value = 10;
            } else if e == 116 {
                value = 9;
            } else if e == 114 {
                value = 13;
            } else {
                if bytes.len() - i < 4 {
                    return None;
                }
                let f = bytes[i + 2];
                let g = bytes[i + 3];
                assert(rest[2] == f && rest[3] == g);
                if !(48 <= e && e < 52 && 48 <= f && f < 56 && 48 <= g && g < 56) {
                    return None;
                }
                value = (e - 48) * 64 + (f - 48) * 8 + (g - 48);
                width = 4;
            }
        }
        out.push(value);
        assert(rest.skip(width as int) =~= bytes@.skip(i + width));
        proof {
            match unescaped(bytes@.skip(i + width)) {
                None => {},
                Some(t) => {
                    assert(prior + (seq![value] + t) =~= out@ + t);
                },
            }
        }
        i += width;
    }
    assert(out@ + Seq::<u8>::empty() =~= out@);
    Some(out)
}

/// Reads a well-formed escaped text.
pub fn unescape(s: &str) -> (r: Vec<u8>)
    requires
        unescaped(vstd::utf8::encode_utf8(s@)) is Some,
    ensures
        unescaped(vstd::utf8::encode_utf8(s@)) == Some(r@),
{
    match try_unescape(s) {
        Some(v) => v,
        None => Vec::new(),
    }
}

} // verus!
