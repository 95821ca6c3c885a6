//! Decimal numbers on the command line.
use vstd::prelude::*;

use crate::text;

verus! {

broadcast use vstd::string::group_string_axioms;

/// The number that decimal digits stand for; none where there is anything but digits.
pub open spec fn digits_value(b: Seq<u8>) -> Option<nat>
    decreases b.len(),
{
    if b.len() == 0 {
        Some(0)
    } else {
        match digits_value(b.drop_last()) {
            None => None,
            Some(v) => if 48 <= b.last() <= 57 {
                Some((10 * v + (b.last() - 48)) as nat)
            } else {
                None
            },
        }
    }
}

/// A text without a leading plus sign.
pub open spec fn unsigned(b: Seq<u8>) -> Seq<u8> {
    if b.len() > 0 && b[0] == 43 {
        b.skip(1)
    } else {
        b
    }
}

/// The number that a text stands for: an optional plus sign, then one or more digits, of a number
/// that fits.
pub open spec fn number_of(s: Seq<char>) -> Option<u64> {
    let digits = unsigned(vstd::utf8::encode_utf8(s));
    if digits.len() == 0 {
        None
    } else {
        match digits_value(digits) {
            None => None,
            Some(v) => if v > u64::MAX {
                None
            } else {
                Some(v as u64)
            },
        }
    }
}

proof fn prefix_value(b: Seq<u8>, i: int)
    requires
        0 <= i <= b.len(),
    ensures
        match digits_value(b.take(i)) {
            None => digits_value(b) is None,
            Some(v) => digits_value(b) matches Some(w) ==> w >= v,
        },
    decreases b.len() - i,
{
    if i == b.len() {
        assert(b.take(i) =~= b);
    } else {
        prefix_value(b, i + 1);
        assert(b.take(i + 1).drop_last() =~= b.take(i));
    }
}

/// Reads a number.
pub fn parse_u64(s: &str) -> (r: Option<u64>)
    ensures
        r == number_of(s@),
{
    let b = s.as_bytes();
    let start: usize = if b.len() > 0 && b[0] == 43 {
        1
    } else {
        0
    };
    let ghost digits = unsigned(b@);
    assert(digits =~= b@.skip(start as int));
    if start == b.len() {
        return None;
    }
    let mut v: u64 = 0;
    let mut i: usize = start;
    assert(digits.take(0) =~= Seq::<u8>::empty());
    while i < b.len()
        invariant
            start <= i <= b@.len(),
            start < b@.len(),
            digits == b@.skip(start as int),
            digits == unsigned(vstd::utf8::encode_utf8(s@)),
            digits_value(digits.take(i - start)) == Some(v as nat),
        decreases b.len() - i,
    {
        let c: u8 = b[i];
        let ghost next = digits.take(i + 1 - start);
        proof {
            assert(next.drop_last() =~= digits.take(i - start));
            assert(next.last() == c);
            prefix_value(digits, i + 1 - start);
        }
        if c < 48 || c > 57 {
            return None;
        }
        let shifted: u64 = match v.checked_mul(10) {
            None => return None,
            Some(x) => x,
        };
        v = match shifted.checked_add((c - 48) as u64) {
            None => return None,
            Some(x) => x,
        };
        i += 1;
    }
    assert(digits.take(b@.len() - start) =~= digits);
    Some(v)
}

/// The bytes of a decimal notation.
spec fn decimal_bytes(n: nat) -> Seq<u8> {
    Seq::new(text::decimal(n).len(), |i: int| text::decimal(n)[i] as u8)
}

proof fn decimal_value(n: nat)
    ensures
        vstd::utf8::is_ascii_chars(text::decimal(n)),
        text::decimal(n).len() > 0,
        48 <= decimal_bytes(n)[0] <= 57,
        digits_value(decimal_bytes(n)) == Some(n),
    decreases n,
{
    let b = decimal_bytes(n);
    if n < 10 {
        assert(b.drop_last() =~= Seq::<u8>::empty());
        assert(digits_value(b.drop_last()) == Some(0nat));
    } else {
        decimal_value(n / 10);
        assert(b.drop_last() =~= decimal_bytes(n / 10));
        assert(b.last() == 48 + n % 10);
    }
}

/// A number as it is printed is read back as that number.
pub proof fn parse_undoes_print(n: u64)
    ensures
        number_of(text::decimal(n as nat)) == Some(n),
{
    let s = text::decimal(n as nat);
    decimal_value(n as nat);
    vstd::utf8::is_ascii_chars_encode_utf8(s);
    assert(vstd::utf8::encode_utf8(s) =~= decimal_bytes(n as nat));
}

} // verus!
