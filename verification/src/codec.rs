//! Byte encodings of numbers and byte strings inside stored keys and values.
use vstd::prelude::*;

verus! {

/// What makes encoded bytes unreadable.
#[derive(Clone, Copy, Debug, PartialEq, Eq, Structural)]
pub enum CodecError {
    /// The bytes end too early.
    UnexpectedEof,
    /// A key is too short to end in a timestamp.
    KeyLength,
    /// The padding of a byte group is not what its marker announces.
    KeyPadding,
    /// A variable-length number does not fit.
    VarOverflow,
}

/// The eight bytes of `v`, the most significant first.
pub open spec fn be_bytes(v: u64) -> Seq<u8> {
    seq![
        (v >> 56) as u8,
        (v >> 48) as u8,
        (v >> 40) as u8,
        (v >> 32) as u8,
        (v >> 24) as u8,
        (v >> 16) as u8,
        (v >> 8) as u8,
        v as u8,
    ]
}

/// The number whose eight bytes, the most significant first, are the first eight of `b`.
pub open spec fn be_value(b: Seq<u8>) -> u64 {
    (b[0] as u64) << 56 | (b[1] as u64) << 48 | (b[2] as u64) << 40 | (b[3] as u64) << 32 | (
    b[4] as u64) << 24 | (b[5] as u64) << 16 | (b[6] as u64) << 8 | (b[7] as u64)
}

/// A number is read back from its eight bytes.
pub proof fn be_value_undoes_be_bytes(v: u64)
    ensures
        be_value(be_bytes(v)) == v,
{
    assert(((v >> 56) as u8 as u64) << 56 | ((v >> 48) as u8 as u64) << 48 | ((
    v >> 40) as u8 as u64) << 40 | ((v >> 32) as u8 as u64) << 32 | ((v >> 24) as u8 as u64) << 24
        | ((v >> 16) as u8 as u64) << 16 | ((v >> 8) as u8 as u64) << 8 | (v as u8 as u64) == v)
        by (bit_vector);
}

/// Eight bytes are the bytes of the number that they stand for.
pub proof fn be_bytes_undoes_be_value(b: Seq<u8>)
    requires
        b.len() == 8,
    ensures
        be_bytes(be_value(b)) == b,
{
    let (b0, b1, b2, b3) = (b[0], b[1], b[2], b[3]);
    let (b4, b5, b6, b7) = (b[4], b[5], b[6], b[7]);
    let v = be_value(b);
    assert((v >> 56) as u8 == b0 && (v >> 48) as u8 == b1 && (v >> 40) as u8 == b2 && (
    v >> 32) as u8 == b3 && (v >> 24) as u8 == b4 && (v >> 16) as u8 == b5 && (v >> 8) as u8 == b6
        && v as u8 == b7) by (bit_vector)
        requires
            v == (b0 as u64) << 56 | (b1 as u64) << 48 | (b2 as u64) << 40 | (b3 as u64) << 32 | (
            b4 as u64) << 24 | (b5 as u64) << 16 | (b6 as u64) << 8 | (b7 as u64),
    ;
    assert(be_bytes(v) =~= b);
}

/// The eight bytes of `v` in descending order: a larger number gives a smaller byte string.
pub open spec fn desc_bytes(v: u64) -> Seq<u8> {
    be_bytes(!v)
}

/// The number whose descending bytes are the first eight of `b`.
pub open spec fn desc_value(b: Seq<u8>) -> u64 {
    !be_value(b)
}

/// A number is read back from its descending bytes.
pub proof fn desc_value_undoes_desc_bytes(v: u64)
    ensures
        desc_value(desc_bytes(v)) == v,
{
    be_value_undoes_be_bytes(!v);
    assert(!!v == v) by (bit_vector);
}

/// Appends the eight bytes of `v`, the most significant first.
pub fn encode_u64(out: &mut Vec<u8>, v: u64)
    ensures
        final(out)@ == old(out)@ + be_bytes(v),
{
    out.push((v >> 56) as u8);
    out.push((v >> 48) as u8);
    out.push((v >> 40) as u8);
    out.push((v >> 32) as u8);
    out.push((v >> 24) as u8);
    out.push((v >> 16) as u8);
    out.push((v >> 8) as u8);
    out.push(v as u8);
    assert(out@ =~= old(out)@ + be_bytes(v));
}

/// Appends the descending bytes of `v`.
pub fn encode_u64_desc(out: &mut Vec<u8>, v: u64)
    ensures
        final(out)@ == old(out)@ + desc_bytes(v),
{
    encode_u64(out, !v);
}

/// Reads a number from eight bytes, the most significant first, that start at `at`.
pub fn read_u64(b: &[u8], at: usize) -> (r: u64)
    requires
        at + 8 <= b@.len(),
    ensures
        r == be_value(b@.subrange(at as int, at + 8)),
{
    let ghost s = b@.subrange(at as int, at + 8);
    assert(s[0] == b@[at as int] && s[1] == b@[at + 1] && s[2] == b@[at + 2] && s[3] == b@[at + 3]);
    assert(s[4] == b@[at + 4] && s[5] == b@[at + 5] && s[6] == b@[at + 6] && s[7] == b@[at + 7]);
    (b[at] as u64) << 56 | (b[at + 1] as u64) << 48 | (b[at + 2] as u64) << 40 | (
    b[at + 3] as u64) << 32 | (b[at + 4] as u64) << 24 | (b[at + 5] as u64) << 16 | (
    b[at + 6] as u64) << 8 | (b[at + 7] as u64)
}

/// `n` zero bytes.
pub open spec fn zeros(n: nat) -> Seq<u8> {
    Seq::new(n, |i: int| 0u8)
}

/// The order-preserving form of a byte string: groups of eight bytes, each followed by a marker.
/// A full group has the marker 255; the last group is filled up with zeros, and its marker is
/// smaller by the number of them.
pub open spec fn encoded_bytes(key: Seq<u8>) -> Seq<u8>
    decreases key.len(),
{
    if key.len() < 8 {
        key + zeros((8 - key.len()) as nat) + seq![(247 + key.len()) as u8]
    } else {
        key.take(8) + seq![255u8] + encoded_bytes(key.skip(8))
    }
}

/// The byte string at the front of `data` in its order-preserving form; what follows is not read.
pub open spec fn decoded_bytes(data: Seq<u8>) -> Result<Seq<u8>, CodecError>
    decreases data.len(),
{
    if data.len() < 9 {
        Err(CodecError::UnexpectedEof)
    } else {
        let pad = 255 - data[8];
        if pad == 0 {
            match decoded_bytes(data.skip(9)) {
                Ok(rest) => Ok(data.take(8) + rest),
                Err(e) => Err(e),
            }
        } else if pad > 8 || data.subrange(8 - pad, 8) != zeros(pad as nat) {
            Err(CodecError::KeyPadding)
        } else {
            Ok(data.take(8 - pad))
        }
    }
}

/// A byte string is read back from its order-preserving form, whatever follows.
pub proof fn decode_undoes_encode(key: Seq<u8>, rest: Seq<u8>)
    ensures
        decoded_bytes(encoded_bytes(key) + rest) == Ok::<Seq<u8>, CodecError>(key),
    decreases key.len(),
{
    let data = encoded_bytes(key) + rest;
    if key.len() < 8 {
        let pad = 8 - key.len();
        assert(data[8] == (247 + key.len()) as u8);
        assert(data.subrange(8 - pad, 8) =~= zeros(pad as nat));
        assert(data.take(8 - pad) =~= key);
    } else {
        assert(data[8] == 255u8);
        assert(data.take(8) =~= key.take(8));
        assert(data.skip(9) =~= encoded_bytes(key.skip(8)) + rest);
        decode_undoes_encode(key.skip(8), rest);
        assert(key.take(8) + key.skip(8) =~= key);
    }
}

/// Only the form of `a` itself starts with the form of `a`: a scan by an encoded key meets no
/// other key.
pub proof fn encoding_is_prefix_free(a: Seq<u8>, b: Seq<u8>, rest: Seq<u8>)
    requires
        encoded_bytes(a).is_prefix_of(encoded_bytes(b) + rest),
    ensures
        a == b,
{
    let data = encoded_bytes(b) + rest;
    let tail = data.skip(encoded_bytes(a).len() as int);
    assert(data =~= encoded_bytes(a) + tail);
    decode_undoes_encode(a, tail);
    decode_undoes_encode(b, rest);
}

/// Writes a byte string in its order-preserving form.
pub fn encode_bytes(key: &[u8]) -> (r: Vec<u8>)
    ensures
        r@ == encoded_bytes(key@),
{
    let mut out: Vec<u8> = Vec::new();
    let mut i: usize = 0;
    assert(key@.skip(0) =~= key@);
    assert(out@ + encoded_bytes(key@) =~= encoded_bytes(key@));
    while key.len() - i >= 8
        invariant
            i <= key@.len(),
            encoded_bytes(key@) == out@ + encoded_bytes(key@.skip(i as int)),
        decreases key.len() - i,
    {
        let ghost prior = out@;
        let ghost rest = key@.skip(i as int);
        out.extend_from_slice(vstd::slice::slice_subrange(key, i, i + 8));
        out.push(255);
        assert(rest.take(8) =~= key@.subrange(i as int, i + 8));
        assert(rest.skip(8) =~= key@.skip(i + 8));
        assert(out@ =~= prior + rest.take(8) + seq![255u8]);
        i += 8;
        assert(encoded_bytes(key@) =~= out@ + encoded_bytes(key@.skip(i as int)));
    }
    let ghost prior = out@;
    let ghost rest = key@.skip(i as int);
    let left: usize = key.len() - i;
    out.extend_from_slice(vstd::slice::slice_subrange(key, i, key.len()));
    let mut n: usize = left;
    while n < 8
        invariant
            left <= n <= 8,
            out@ == prior + rest + zeros((n - left) as nat),
        decreases 8 - n,
    {
        out.push(0);
        n += 1;
        assert(out@ =~= prior + rest + zeros((n - left) as nat));
    }
    out.push(247 + left as u8);
    assert(out@ =~= prior + encoded_bytes(rest));
    out
}

/// Reads the byte string at the front of `data` from its order-preserving form.
pub fn decode_bytes(data: &[u8]) -> (r: Result<Vec<u8>, CodecError>)
    ensures
        match r {
            Ok(v) => decoded_bytes(data@) == Ok::<Seq<u8>, CodecError>(v@),
            Err(e) => decoded_bytes(data@) == Err::<Seq<u8>, CodecError>(e),
        },
{
    let mut out: Vec<u8> = Vec::new();
    let mut i: usize = 0;
    assert(data@.skip(0) =~= data@);
    assert(forall|t: Seq<u8>| #[trigger] (out@ + t) =~= t);
    loop
        invariant
            i <= data@.len(),
            decoded_bytes(data@) == match decoded_bytes(data@.skip(i as int)) {
                Ok(t) => Ok(out@ + t),
                Err(e) => Err(e),
            },
        decreases data.len() - i,
    {
        let ghost rest = data@.skip(i as int);
        let ghost prior = out@;
        if data.len() - i < 9 {
            return Err(CodecError::UnexpectedEof);
        }
        assert(rest[8] == data@[i + 8]);
        let pad: u8 = 255 - data[i + 8];
        if pad == 0 {
            out.extend_from_slice(vstd::slice::slice_subrange(data, i, i + 8));
            assert(rest.take(8) =~= data@.subrange(i as int, i + 8));
            assert(rest.skip(9) =~= data@.skip(i + 9));
            assert(out@ =~= prior + rest.take(8));
            i += 9;
            proof {
                match decoded_bytes(data@.skip(i as int)) {
                    Ok(t) => {
                        assert(prior + (rest.take(8) + t) =~= out@ + t);
                    },
                    Err(e) => {},
                }
            }
            continue;
        }
        if pad > 8 {
            return Err(CodecError::KeyPadding);
        }
        let keep: usize = 8 - pad as usize;
        let mut n: usize = keep;
        while n < 8
            invariant
                keep == 8 - pad,
                0 < pad <= 8,
                keep <= n <= 8,
                i + 9 <= data.len(),
                rest == data@.skip(i as int),
                forall|k: int| keep <= k < n ==> rest[k] == 0,
                decoded_bytes(rest) is Err ==> decoded_bytes(data@) == decoded_bytes(rest),
                rest[8] == 255 - pad,
            decreases 8 - n,
        {
            if data[i + n] != 0 {
                assert(rest.subrange(8 - pad, 8)[n - keep] == rest[n as int]);
                assert(rest.subrange(8 - pad, 8) != zeros(pad as nat)) by {
                    assert(zeros(pad as nat)[n - keep] == 0);
                }
                return Err(CodecError::KeyPadding);
            }
            n += 1;
        }
        assert(rest.subrange(8 - pad, 8) =~= zeros(pad as nat));
        out.extend_from_slice(vstd::slice::slice_subrange(data, i, i + keep));
        assert(out@ =~= prior + rest.take(8 - pad));
        return Ok(out);
    }
}

/// The variable-length form of `v`: seven bits a byte, the least significant first, with the top
/// bit set in every byte but the last.
pub open spec fn var_bytes(v: nat) -> Seq<u8>
    decreases v,
{
    if v < 128 {
        seq![v as u8]
    } else {
        seq![(v % 128 + 128) as u8] + var_bytes(v / 128)
    }
}

/// How many bytes the variable-length number at the front of `b` takes; none where it has no end.
pub open spec fn var_len(b: Seq<u8>) -> Option<nat>
    decreases b.len(),
{
    if b.len() == 0 {
        None
    } else if b[0] < 128 {
        Some(1)
    } else {
        match var_len(b.skip(1)) {
            Some(n) => Some(n + 1),
            None => None,
        }
    }
}

/// The number that the first `n` bytes of `b` stand for, seven bits a byte.
pub open spec fn var_value(b: Seq<u8>, n: nat) -> nat
    decreases n,
{
    if n == 0 {
        0
    } else {
        (b[0] % 128) as nat + 128 * var_value(b.skip(1), (n - 1) as nat)
    }
}

/// The variable-length number at the front of `b`, with the count of its bytes.
pub open spec fn var_parsed(b: Seq<u8>) -> Result<(u64, nat), CodecError> {
    match var_len(b) {
        None => Err(CodecError::UnexpectedEof),
        Some(n) => if n > 10 || var_value(b, n) > u64::MAX {
            Err(CodecError::VarOverflow)
        } else {
            Ok((var_value(b, n) as u64, n))
        },
    }
}

proof fn var_len_bound(b: Seq<u8>)
    ensures
        var_len(b) matches Some(n) ==> 1 <= n <= b.len(),
    decreases b.len(),
{
    if b.len() > 0 && b[0] >= 128 {
        var_len_bound(b.skip(1));
    }
}

proof fn var_bytes_parse(v: nat, rest: Seq<u8>)
    ensures
        var_len(var_bytes(v) + rest) == Some(var_bytes(v).len()),
        var_value(var_bytes(v) + rest, var_bytes(v).len()) == v,
    decreases v,
{
    let b = var_bytes(v) + rest;
    if v < 128 {
        assert(b[0] == v);
        reveal_with_fuel(var_value, 2);
    } else {
        var_bytes_parse(v / 128, rest);
        assert(b[0] == v % 128 + 128);
        assert(b.skip(1) =~= var_bytes(v / 128) + rest);
    }
}

spec fn power(k: nat) -> nat
    decreases k,
{
    if k == 0 {
        1
    } else {
        128 * power((k - 1) as nat)
    }
}

proof fn power_grows(j: nat, k: nat)
    requires
        j <= k,
    ensures
        power(j) <= power(k),
    decreases k,
{
    if j < k {
        power_grows(j, (k - 1) as nat);
    }
}

proof fn var_bytes_len(v: nat, k: nat)
    requires
        1 <= k,
        v < power(k),
    ensures
        1 <= var_bytes(v).len() <= k,
    decreases v,
{
    if v >= 128 {
        if k == 1 {
            assert(power(1) == 128 * power(0));
        } else {
            var_bytes_len(v / 128, (k - 1) as nat);
        }
    }
}

/// A number is read back from its variable-length form, whatever follows.
pub proof fn var_parse_undoes_var_bytes(v: u64, rest: Seq<u8>)
    ensures
        var_parsed(var_bytes(v as nat) + rest) == Ok::<(u64, nat), CodecError>(
            (v, var_bytes(v as nat).len()),
        ),
{
    var_bytes_parse(v as nat, rest);
    reveal_with_fuel(power, 11);
    assert(v < power(10));
    var_bytes_len(v as nat, 10);
}

/// Appends the variable-length form of `v`.
pub fn encode_var_u64(out: &mut Vec<u8>, v: u64)
    ensures
        final(out)@ == old(out)@ + var_bytes(v as nat),
{
    let ghost before = out@;
    let mut x: u64 = v;
    while x >= 128
        invariant
            before + var_bytes(v as nat) == out@ + var_bytes(x as nat),
        decreases x,
    {
        let ghost prior = out@;
        out.push((x % 128) as u8 + 128);
        x = x / 128;
        assert(before + var_bytes(v as nat) =~= out@ + var_bytes(x as nat));
    }
    out.push(x as u8);
    assert(out@ =~= before + var_bytes(v as nat));
}

/// Reads the variable-length number that starts at `at`, and the place behind it.
pub fn decode_var_u64(b: &[u8], at: usize) -> (r: Result<(u64, usize), CodecError>)
    requires
        at <= b@.len(),
    ensures
        match r {
            Ok((v, next)) => at < next <= b@.len() && var_parsed(b@.skip(at as int)) == Ok::<
                (u64, nat),
                CodecError,
            >((v, (next - at) as nat)),
            Err(e) => var_parsed(b@.skip(at as int)) == Err::<(u64, nat), CodecError>(e),
        },
{
    let ghost s = b@.skip(at as int);
    let mut end: usize = at;
    assert(s.skip(0) =~= s);
    while end < b.len() && b[end] >= 128
        invariant
            at <= end <= b@.len(),
            s == b@.skip(at as int),
            var_len(s) == match var_len(s.skip(end - at)) {
                Some(n) => Some((n + (end - at)) as nat),
                None => None,
            },
        decreases b.len() - end,
    {
        let ghost t = s.skip(end - at);
        assert(t[0] == b@[end as int]);
        assert(t.skip(1) =~= s.skip(end + 1 - at));
        end += 1;
    }
    let ghost t = s.skip(end - at);
    if end == b.len() {
        return Err(CodecError::UnexpectedEof);
    }
    assert(t[0] == b@[end as int]);
    let n: usize = end - at + 1;
    assert(var_len(s) == Some(n as nat));
    if n > 10 {
        return Err(CodecError::VarOverflow);
    }
    let mut x: u128 = 0;
    let mut k: usize = n;
    proof {
        reveal_with_fuel(power, 12);
    }
    while k > 0
        invariant
            k <= n <= 10,
            n == end - at + 1,
            at <= end < b.len(),
            s == b@.skip(at as int),
            x == var_value(s.skip(k as int), (n - k) as nat),
            x < power((n - k) as nat),
            power(10) == 1180591620717411303424,
        decreases k,
    {
        proof {
            power_grows((n - k) as nat, 10);
        }
        k -= 1;
        let c = b[at + k];
        assert(s.skip(k as int)[0] == c);
        assert(s.skip(k as int).skip(1) =~= s.skip(k + 1));
        x = (c % 128) as u128 + 128 * x;
    }
    assert(s.skip(0) =~= s);
    if x > 0xffff_ffff_ffff_ffff {
        return Err(CodecError::VarOverflow);
    }
    Ok((x as u64, end + 1))
}

/// A byte string behind twice its length, the length in variable-length form.
pub open spec fn compact_bytes(b: Seq<u8>) -> Seq<u8> {
    var_bytes(2 * b.len()) + b
}

/// The byte string at the front of `b` behind its length, with the count of all bytes read.
/// An odd number stands for a negative length, which no byte string has.
pub open spec fn compact_parsed(b: Seq<u8>) -> Result<(Seq<u8>, nat), CodecError> {
    match var_parsed(b) {
        Err(e) => Err(e),
        Ok((v, n)) => if v % 2 == 1 || v / 2 > b.len() - n {
            Err(CodecError::UnexpectedEof)
        } else {
            Ok((b.subrange(n as int, n + v / 2), n + (v / 2) as nat))
        },
    }
}

/// A byte string is read back from its compact form, whatever follows.
pub proof fn compact_parse_undoes_compact_bytes(b: Seq<u8>, rest: Seq<u8>)
    requires
        b.len() <= i64::MAX,
    ensures
        compact_parsed(compact_bytes(b) + rest) == Ok::<(Seq<u8>, nat), CodecError>(
            (b, compact_bytes(b).len()),
        ),
{
    let v = (2 * b.len()) as u64;
    let head = var_bytes(v as nat);
    let data = compact_bytes(b) + rest;
    assert(data =~= head + (b + rest));
    var_parse_undoes_var_bytes(v, b + rest);
    assert(data.subrange(head.len() as int, head.len() as int + b.len()) =~= b);
}

/// Appends the compact form of `b`.
pub fn encode_compact_bytes(out: &mut Vec<u8>, b: &[u8])
    requires
        b@.len() <= i64::MAX,
    ensures
        final(out)@ == old(out)@ + compact_bytes(b@),
{
    let ghost before = out@;
    encode_var_u64(out, 2 * b.len() as u64);
    out.extend_from_slice(b);
    assert(out@ =~= before + compact_bytes(b@));
}

/// Reads the byte string in compact form that starts at `at`, and the place behind it.
pub fn decode_compact_bytes(b: &[u8], at: usize) -> (r: Result<(Vec<u8>, usize), CodecError>)
    requires
        at <= b@.len(),
    ensures
        match r {
            Ok((v, next)) => at < next <= b@.len() && compact_parsed(b@.skip(at as int)) == Ok::<
                (Seq<u8>, nat),
                CodecError,
            >((v@, (next - at) as nat)),
            Err(e) => compact_parsed(b@.skip(at as int)) == Err::<(Seq<u8>, nat), CodecError>(e),
        },
{
    let ghost s = b@.skip(at as int);
    match decode_var_u64(b, at) {
        Err(e) => Err(e),
        Ok((v, next)) => {
            let left: usize = b.len() - next;
            if v % 2 == 1 || v / 2 > left as u64 {
                return Err(CodecError::UnexpectedEof);
            }
            let len: usize = (v / 2) as usize;
            let mut out: Vec<u8> = Vec::new();
            out.extend_from_slice(vstd::slice::slice_subrange(b, next, next + len));
            assert(out@ =~= s.subrange(next - at, next - at + len));
            Ok((out, next + len))
        },
    }
}

} // verus!
