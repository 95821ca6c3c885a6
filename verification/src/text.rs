//! Text that the tool prints: decimal numbers, quoted strings and lists of bytes.
use vstd::prelude::*;

verus! {

broadcast use vstd::string::group_string_axioms;

/// `String::push` appends the given character to the end of the string.
pub assume_specification[ String::push ](s: &mut String, ch: char)
    ensures
        final(s)@ == old(s)@.push(ch),
;

/// The character that stands for the digit `d`.
pub open spec fn digit(d: int) -> char
    recommends
        0 <= d < 10,
{
    (48 + d) as char
}

/// The decimal notation of `n`, without leading zeros.
pub open spec fn decimal(n: nat) -> Seq<char>
    decreases n,
{
    if n < 10 {
        seq![digit(n as int)]
    } else {
        decimal(n / 10).push(digit((n % 10) as int))
    }
}

/// Appends the decimal notation of `n`.
pub fn push_decimal(out: &mut String, n: u64)
    ensures
        final(out)@ == old(out)@ + decimal(n as nat),
    decreases n,
{
    let ghost before = out@;
    if n >= 10 {
        push_decimal(out, n / 10);
    }
    let last: u8 = (n % 10) as u8;
    let c = (48 + last) as char;
    assert(c == digit((n % 10) as int));
    out.push(c);
    assert(out@ =~= before + decimal(n as nat));
}

/// Whether `c` is a printable ASCII character.
pub open spec fn printable(c: char) -> bool {
    ' ' <= c && c <= '~'
}

/// What stands for `c` inside quotes: a quote and a backslash get a backslash in front.
pub open spec fn quoted_char(c: char) -> Seq<char> {
    if c == '"' || c == '\\' {
        seq!['\\', c]
    } else {
        seq![c]
    }
}

/// The characters of `s` as they stand between quotes.
pub open spec fn quoted_body(s: Seq<char>) -> Seq<char>
    decreases s.len(),
{
    if s.len() == 0 {
        Seq::empty()
    } else {
        quoted_body(s.drop_last()) + quoted_char(s.last())
    }
}

/// A string of printable characters in quotes, as a debug print shows it.
pub open spec fn quoted(s: Seq<char>) -> Seq<char> {
    seq!['"'] + quoted_body(s) + seq!['"']
}

/// Appends `s` in quotes.
pub fn push_quoted(out: &mut String, s: &str)
    requires
        forall|i: int| 0 <= i < s@.len() ==> printable(#[trigger] s@[i]),
    ensures
        final(out)@ == old(out)@ + quoted(s@),
{
    let ghost before = out@;
    assert(vstd::string::is_ascii(s)) by {
        assert forall|i: int| 0 <= i < s@.len() implies '\0' <= #[trigger] s@[i] <= '\u{7f}' by {
            assert(printable(s@[i]));
        }
    }
    let bytes = s.as_bytes();
    assert(bytes@ =~= Seq::new(s@.len(), |i: int| s@[i] as u8));
    out.push('"');
    let mut i: usize = 0;
    while i < bytes.len()
        invariant
            i <= bytes@.len(),
            bytes@.len() == s@.len(),
            forall|j: int| 0 <= j < s@.len() ==> #[trigger] bytes@[j] == s@[j] as u8,
            forall|j: int| 0 <= j < s@.len() ==> printable(#[trigger] s@[j]),
            out@ == before + seq!['"'] + quoted_body(s@.take(i as int)),
        decreases bytes.len() - i,
    {
        let b = bytes[i];
        let c = b as char;
        assert(printable(s@[i as int]));
        assert(c == s@[i as int]);
        let ghost prior = out@;
        if b == 34 || b == 92 {
            out.push('\\');
        }
        out.push(c);
        assert(s@.take(i + 1).drop_last() =~= s@.take(i as int));
        assert(out@ =~= prior + quoted_char(c));
        i += 1;
        assert(out@ =~= before + seq!['"'] + quoted_body(s@.take(i as int)));
    }
    assert(s@.take(s@.len() as int) =~= s@);
    out.push('"');
    assert(out@ =~= before + quoted(s@));
}

/// The elements of a list of bytes, with a comma and a blank between two of them.
pub open spec fn byte_list_body(s: Seq<u8>) -> Seq<char>
    decreases s.len(),
{
    if s.len() == 0 {
        Seq::empty()
    } else if s.len() == 1 {
        decimal(s[0] as nat)
    } else {
        byte_list_body(s.drop_last()) + ", "@ + decimal(s.last() as nat)
    }
}

/// A list of bytes, as a debug print shows it.
pub open spec fn byte_list(s: Seq<u8>) -> Seq<char> {
    "["@ + byte_list_body(s) + "]"@
}

/// Appends `s` as a list of bytes.
pub fn push_byte_list(out: &mut String, s: &[u8])
    ensures
        final(out)@ == old(out)@ + byte_list(s@),
{
    let ghost before = out@;
    out.append("[");
    let mut i: usize = 0;
    while i < s.len()
        invariant
            i <= s@.len(),
            out@ == before + "["@ + byte_list_body(s@.take(i as int)),
        decreases s.len() - i,
    {
        let ghost prior = out@;
        if i > 0 {
            out.append(", ");
        }
        push_decimal(out, s[i] as u64);
        assert(s@.take(i + 1).drop_last() =~= s@.take(i as int));
        i += 1;
        assert(out@ =~= before + "["@ + byte_list_body(s@.take(i as int)));
    }
    assert(s@.take(s@.len() as int) =~= s@);
    out.append("]");
    assert(out@ =~= before + byte_list(s@));
}

/// What a debug print shows of an optional value whose own text is known.
pub open spec fn optional(s: Option<Seq<char>>) -> Seq<char> {
    match s {
        None => "None"@,
        Some(t) => "Some("@ + t + ")"@,
    }
}

/// Appends an optional value whose own text is known.
pub fn push_optional(out: &mut String, s: Option<&str>)
    ensures
        final(out)@ == old(out)@ + optional(
            match s {
                None => None,
                Some(t) => Some(t@),
            },
        ),
{
    match s {
        None => out.append("None"),
        Some(t) => {
            out.append("Some(");
            out.append(t);
            out.append(")");
            assert(out@ =~= old(out)@ + ("Some("@ + t@ + ")"@));
        },
    }
}

/// Whether two strings hold the same characters.
pub fn same_text(a: &str, b: &str) -> (r: bool)
    ensures
        r == (a@ == b@),
{
    broadcast use vstd::utf8::encode_utf8_decode_utf8;

    let x = a.as_bytes();
    let y = b.as_bytes();
    let r = crate::bytes::same_bytes(x, y);
    assert(r == (a@ == b@)) by {
        assert(vstd::utf8::decode_utf8(x@) == a@);
        assert(vstd::utf8::decode_utf8(y@) == b@);
    }
    r
}

} // verus!
