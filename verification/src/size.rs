//! Sizes as the tool prints them.
use vstd::prelude::*;

use crate::text;

verus! {

broadcast use vstd::string::group_string_axioms;

pub const MB: u64 = 1048576;

pub const GB: u64 = 1073741824;

/// `n / d` rounded to the nearest whole number, and to the even one of two that are equally near.
pub open spec fn rounded(n: nat, d: nat) -> nat {
    let low = n / d;
    let rest = n % d;
    if 2 * rest > d || (2 * rest == d && low % 2 == 1) {
        low + 1
    } else {
        low
    }
}

/// A number of thousandths with a decimal point and three digits behind it.
pub open spec fn with_point(thousandths: nat) -> Seq<char> {
    text::decimal(thousandths / 1000) + "."@ + seq![
        text::digit((thousandths / 100 % 10) as int),
        text::digit((thousandths / 10 % 10) as int),
        text::digit((thousandths % 10) as int),
    ]
}

/// A size in gigabytes and megabytes, the megabytes to three digits behind the point; the part that
/// is nought is left out, and a size below a megabyte is a plain number.
pub open spec fn size_text(bytes: nat) -> Seq<char> {
    if bytes < MB {
        text::decimal(bytes)
    } else {
        (if bytes / GB as nat == 0 {
            Seq::empty()
        } else {
            text::decimal(bytes / GB as nat) + " GB "@
        }) + (if bytes % GB as nat == 0 {
            Seq::empty()
        } else {
            with_point(rounded(bytes % GB as nat * 1000, MB as nat)) + " MB "@
        })
    }
}

fn push_with_point(out: &mut String, thousandths: u64)
    ensures
        final(out)@ == old(out)@ + with_point(thousandths as nat),
{
    text::push_decimal(out, thousandths / 1000);
    out.append(".");
    let a: u8 = (thousandths / 100 % 10) as u8;
    let b: u8 = (thousandths / 10 % 10) as u8;
    let c: u8 = (thousandths % 10) as u8;
    out.push((48 + a) as char);
    out.push((48 + b) as char);
    out.push((48 + c) as char);
    assert(out@ =~= old(out)@ + with_point(thousandths as nat));
}

/// Appends a size.
pub fn push_size(out: &mut String, bytes: u64)
    ensures
        final(out)@ == old(out)@ + size_text(bytes as nat),
{
    if bytes < MB {
        text::push_decimal(out, bytes);
        return;
    }
    let gb: u64 = bytes / GB;
    let rest: u64 = bytes % GB;
    if gb != 0 {
        text::push_decimal(out, gb);
        out.append(" GB ");
    }
    if rest != 0 {
        let scaled: u64 = rest * 1000;
        let low: u64 = scaled / MB;
        let over: u64 = scaled % MB;
        let thousandths: u64 = if 2 * over > MB || (2 * over == MB && low % 2 == 1) {
            low + 1
        } else {
            low
        };
        push_with_point(out, thousandths);
        out.append(" MB ");
    }
    assert(out@ =~= old(out)@ + size_text(bytes as nat));
}

/// A size in gigabytes and megabytes.
pub fn convert_gbmb(bytes: u64) -> (r: String)
    ensures
        r@ == size_text(bytes as nat),
{
    let mut out = String::new();
    push_size(&mut out, bytes);
    assert(out@ =~= size_text(bytes as nat));
    out
}

} // verus!
