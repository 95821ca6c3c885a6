//! Versioned keys, and the locks and write records that are stored under them.
use vstd::prelude::*;

use crate::codec;
use crate::codec::CodecError;

verus! {

/// A user key in its encoded form, with or without a timestamp at the end.
#[derive(Debug, PartialEq, Eq)]
pub struct Key(Vec<u8>);

impl View for Key {
    type V = Seq<u8>;

    closed spec fn view(&self) -> Seq<u8> {
        self.0@
    }
}

/// The encoded key `key` at the timestamp `ts`.
pub open spec fn at_ts(key: Seq<u8>, ts: u64) -> Seq<u8> {
    key + codec::desc_bytes(ts)
}

/// The timestamp at the end of an encoded key.
pub open spec fn ts_of(key: Seq<u8>) -> Result<u64, CodecError> {
    if key.len() < 8 {
        Err(CodecError::KeyLength)
    } else {
        Ok(codec::desc_value(key.skip(key.len() - 8)))
    }
}

/// An encoded key without the timestamp at its end.
pub open spec fn without_ts(key: Seq<u8>) -> Result<Seq<u8>, CodecError> {
    if key.len() < 8 {
        Err(CodecError::KeyLength)
    } else {
        Ok(key.take(key.len() - 8))
    }
}

/// A key at a timestamp gives back both the timestamp and the key.
pub proof fn ts_round_trip(key: Seq<u8>, ts: u64)
    ensures
        ts_of(at_ts(key, ts)) == Ok::<u64, CodecError>(ts),
        without_ts(at_ts(key, ts)) == Ok::<Seq<u8>, CodecError>(key),
{
    let k = at_ts(key, ts);
    assert(k.skip(k.len() - 8) =~= codec::desc_bytes(ts));
    assert(k.take(k.len() - 8) =~= key);
    codec::desc_value_undoes_desc_bytes(ts);
}

/// The timestamp at the end of encoded bytes.
pub fn decode_ts(key: &[u8]) -> (r: Result<u64, CodecError>)
    ensures
        r == ts_of(key@),
{
    let len = key.len();
    if len < 8 {
        return Err(CodecError::KeyLength);
    }
    let v = codec::read_u64(key, len - 8);
    assert(key@.skip(len - 8) =~= key@.subrange(len - 8, len as int));
    Ok(!v)
}

impl Key {
    /// The key of raw user bytes.
    pub fn from_raw(key: &[u8]) -> (r: Key)
        ensures
            r@ == codec::encoded_bytes(key@),
    {
        Key(codec::encode_bytes(key))
    }

    /// A key that is already encoded.
    pub fn from_encoded(encoded_key: Vec<u8>) -> (r: Key)
        ensures
            r@ == encoded_key@,
    {
        Key(encoded_key)
    }

    /// The encoded bytes.
    pub fn encoded(&self) -> (r: &Vec<u8>)
        ensures
            r@ == self@,
    {
        &self.0
    }

    /// The raw user bytes at the front of the key.
    pub fn raw(&self) -> (r: Result<Vec<u8>, CodecError>)
        ensures
            match r {
                Ok(v) => codec::decoded_bytes(self@) == Ok::<Seq<u8>, CodecError>(v@),
                Err(e) => codec::decoded_bytes(self@) == Err::<Seq<u8>, CodecError>(e),
            },
    {
        codec::decode_bytes(self.0.as_slice())
    }

    /// The key at a timestamp.
    pub fn append_ts(&self, ts: u64) -> (r: Key)
        ensures
            r@ == at_ts(self@, ts),
    {
        let mut out: Vec<u8> = Vec::new();
        out.extend_from_slice(self.0.as_slice());
        assert(out@ =~= self@);
        codec::encode_u64_desc(&mut out, ts);
        Key(out)
    }

    /// The timestamp at the end of the key.
    pub fn decode_ts(&self) -> (r: Result<u64, CodecError>)
        ensures
            r == ts_of(self@),
    {
        decode_ts(self.0.as_slice())
    }

    /// The key without the timestamp at its end.
    pub fn truncate_ts(&self) -> (r: Result<Key, CodecError>)
        ensures
            match r {
                Ok(k) => without_ts(self@) == Ok::<Seq<u8>, CodecError>(k@),
                Err(e) => without_ts(self@) == Err::<Seq<u8>, CodecError>(e),
            },
    {
        let len = self.0.len();
        if len < 8 {
            return Err(CodecError::KeyLength);
        }
        let mut out: Vec<u8> = Vec::new();
        out.extend_from_slice(vstd::slice::slice_subrange(self.0.as_slice(), 0, len - 8));
        assert(out@ =~= self@.take(len - 8));
        Ok(Key(out))
    }
}

/// What makes a stored lock or write record unreadable.
#[derive(Clone, Copy, Debug, PartialEq, Eq, Structural)]
pub enum MvccError {
    /// A lock is empty or starts with an unknown type.
    BadFormatLock,
    /// A write record is empty or starts with an unknown type.
    BadFormatWrite,
    /// What stands in the place of a short value is none.
    BadShortValue,
    /// A number or a byte string inside is unreadable.
    Codec(CodecError),
}

/// Marks a short value inside a lock or a write record.
pub const SHORT_VALUE_PREFIX: u8 = 0x76;

/// A short value as it stands at the end of a record.
pub open spec fn short_value_bytes(v: Option<Seq<u8>>) -> Seq<u8> {
    match v {
        None => Seq::empty(),
        Some(s) => seq![SHORT_VALUE_PREFIX, s.len() as u8] + s,
    }
}

/// The short value that the end of a record stands for.
pub open spec fn short_value_parsed(b: Seq<u8>) -> Result<Option<Seq<u8>>, MvccError> {
    if b.len() == 0 {
        Ok(None)
    } else if b[0] != SHORT_VALUE_PREFIX {
        Err(MvccError::BadShortValue)
    } else if b.len() == 1 {
        Err(MvccError::Codec(CodecError::UnexpectedEof))
    } else if b[1] != b.len() - 2 {
        Err(MvccError::BadShortValue)
    } else {
        Ok(Some(b.skip(2)))
    }
}

proof fn short_value_round_trip(v: Option<Seq<u8>>)
    requires
        v matches Some(s) ==> s.len() <= 255,
    ensures
        short_value_parsed(short_value_bytes(v)) == Ok::<Option<Seq<u8>>, MvccError>(v),
{
    if let Some(s) = v {
        assert(short_value_bytes(v).skip(2) =~= s);
    }
}

/// The characters of an optional byte string, none where there is none.
pub open spec fn opt_view(v: Option<Vec<u8>>) -> Option<Seq<u8>> {
    match v {
        None => None,
        Some(s) => Some(s@),
    }
}

fn push_short_value(out: &mut Vec<u8>, v: &Option<Vec<u8>>)
    ensures
        final(out)@ == old(out)@ + short_value_bytes(opt_view(*v)),
{
    match v {
        None => {
            assert(out@ =~= old(out)@ + short_value_bytes(opt_view(*v)));
        },
        Some(s) => {
            out.push(SHORT_VALUE_PREFIX);
            out.push(s.len() as u8);
            out.extend_from_slice(s.as_slice());
            assert(out@ =~= old(out)@ + short_value_bytes(opt_view(*v)));
        },
    }
}

fn read_short_value(b: &[u8], at: usize) -> (r: Result<Option<Vec<u8>>, MvccError>)
    requires
        at <= b@.len(),
    ensures
        match r {
            Ok(v) => short_value_parsed(b@.skip(at as int)) == Ok::<Option<Seq<u8>>, MvccError>(
                opt_view(v),
            ),
            Err(e) => short_value_parsed(b@.skip(at as int)) == Err::<Option<Seq<u8>>, MvccError>(
                e,
            ),
        },
{
    let left: usize = b.len() - at;
    if left == 0 {
        return Ok(None);
    }
    if b[at] != SHORT_VALUE_PREFIX {
        return Err(MvccError::BadShortValue);
    }
    if left == 1 {
        return Err(MvccError::Codec(CodecError::UnexpectedEof));
    }
    if b[at + 1] as usize != left - 2 {
        return Err(MvccError::BadShortValue);
    }
    let mut out: Vec<u8> = Vec::new();
    out.extend_from_slice(vstd::slice::slice_subrange(b, at + 2, b.len()));
    assert(out@ =~= b@.skip(at as int).skip(2));
    Ok(Some(out))
}

/// What a lock announces.
#[derive(Clone, Copy, Debug, PartialEq, Eq, Structural)]
pub enum LockType {
    Put,
    Delete,
    Lock,
}

/// The byte that stands for a lock type.
pub open spec fn lock_flag(t: LockType) -> u8 {
    match t {
        LockType::Put => 0x50,
        LockType::Delete => 0x44,
        LockType::Lock => 0x4c,
    }
}

/// The lock type that a byte stands for.
pub open spec fn lock_type_of(b: u8) -> Option<LockType> {
    if b == 0x50 {
        Some(LockType::Put)
    } else if b == 0x44 {
        Some(LockType::Delete)
    } else if b == 0x4c {
        Some(LockType::Lock)
    } else {
        None
    }
}

impl LockType {
    /// The byte that stands for the type.
    pub fn to_u8(&self) -> (r: u8)
        ensures
            r == lock_flag(*self),
    {
        match self {
            LockType::Put => 0x50,
            LockType::Delete => 0x44,
            LockType::Lock => 0x4c,
        }
    }

    /// The type that a byte stands for.
    pub fn from_u8(b: u8) -> (r: Option<LockType>)
        ensures
            r == lock_type_of(b),
    {
        match b {
            0x50 => Some(LockType::Put),
            0x44 => Some(LockType::Delete),
            0x4c => Some(LockType::Lock),
            _ => None,
        }
    }
}

/// A lock that a transaction holds on a key.
#[derive(Debug, PartialEq, Eq)]
pub struct Lock {
    pub lock_type: LockType,
    pub primary: Vec<u8>,
    pub ts: u64,
    pub ttl: u64,
    pub short_value: Option<Vec<u8>>,
}

/// What a lock holds.
#[verifier::ext_equal]
pub struct LockView {
    pub lock_type: LockType,
    pub primary: Seq<u8>,
    pub ts: u64,
    pub ttl: u64,
    pub short_value: Option<Seq<u8>>,
}

impl View for Lock {
    type V = LockView;

    open spec fn view(&self) -> LockView {
        LockView {
            lock_type: self.lock_type,
            primary: self.primary@,
            ts: self.ts,
            ttl: self.ttl,
            short_value: opt_view(self.short_value),
        }
    }
}

/// The stored form of a lock.
pub open spec fn lock_bytes(l: LockView) -> Seq<u8> {
    seq![lock_flag(l.lock_type)] + codec::compact_bytes(l.primary) + codec::var_bytes(l.ts as nat)
        + codec::var_bytes(l.ttl as nat) + short_value_bytes(l.short_value)
}

/// The lock behind a known type and primary key: timestamp, time to live and short value. A lock
/// that ends behind its timestamp lives for no time.
pub open spec fn lock_tail_parsed(t: LockType, primary: Seq<u8>, b: Seq<u8>) -> Result<
    LockView,
    MvccError,
> {
    match codec::var_parsed(b) {
        Err(e) => Err(MvccError::Codec(e)),
        Ok((ts, n)) => if n == b.len() {
            Ok(LockView { lock_type: t, primary, ts, ttl: 0, short_value: None })
        } else {
            match codec::var_parsed(b.skip(n as int)) {
                Err(e) => Err(MvccError::Codec(e)),
                Ok((ttl, m)) => match short_value_parsed(b.skip(n as int).skip(m as int)) {
                    Err(e) => Err(e),
                    Ok(short_value) => Ok(LockView { lock_type: t, primary, ts, ttl, short_value }),
                },
            }
        },
    }
}

/// The lock that stored bytes stand for.
pub open spec fn lock_parsed(b: Seq<u8>) -> Result<LockView, MvccError> {
    if b.len() == 0 {
        Err(MvccError::BadFormatLock)
    } else {
        match lock_type_of(b[0]) {
            None => Err(MvccError::BadFormatLock),
            Some(t) => match codec::compact_parsed(b.skip(1)) {
                Err(e) => Err(MvccError::Codec(e)),
                Ok((primary, n)) => lock_tail_parsed(t, primary, b.skip(1).skip(n as int)),
            },
        }
    }
}

proof fn lock_tail_round_trip(l: LockView)
    requires
        l.short_value matches Some(s) ==> s.len() <= 255,
    ensures
        lock_tail_parsed(
            l.lock_type,
            l.primary,
            codec::var_bytes(l.ts as nat) + (codec::var_bytes(l.ttl as nat) + short_value_bytes(
                l.short_value,
            )),
        ) == Ok::<LockView, MvccError>(l),
{
    let x = codec::var_bytes(l.ts as nat);
    let y = codec::var_bytes(l.ttl as nat);
    let z = short_value_bytes(l.short_value);
    codec::var_parse_undoes_var_bytes(l.ts, y + z);
    assert((x + (y + z)).skip(x.len() as int) =~= y + z);
    codec::var_parse_undoes_var_bytes(l.ttl, z);
    assert((y + z).skip(y.len() as int) =~= z);
    short_value_round_trip(l.short_value);
    assert(y.len() > 0);
}

proof fn five_parts(head: u8, c: Seq<u8>, x: Seq<u8>, y: Seq<u8>, z: Seq<u8>)
    ensures
        (seq![head] + c + x + y + z)[0] == head,
        (seq![head] + c + x + y + z).skip(1) == c + (x + (y + z)),
{
    assert((seq![head] + c + x + y + z).skip(1) =~= c + (x + (y + z)));
}

/// A lock is read back from its stored form.
pub proof fn lock_round_trip(l: LockView)
    requires
        l.primary.len() <= i64::MAX,
        l.short_value matches Some(s) ==> s.len() <= 255,
    ensures
        lock_parsed(lock_bytes(l)) == Ok::<LockView, MvccError>(l),
{
    let b = lock_bytes(l);
    let c = codec::compact_bytes(l.primary);
    let tail = codec::var_bytes(l.ts as nat) + (codec::var_bytes(l.ttl as nat)
        + short_value_bytes(l.short_value));
    five_parts(
        lock_flag(l.lock_type),
        c,
        codec::var_bytes(l.ts as nat),
        codec::var_bytes(l.ttl as nat),
        short_value_bytes(l.short_value),
    );
    assert(lock_type_of(b[0]) == Some(l.lock_type));
    codec::compact_parse_undoes_compact_bytes(l.primary, tail);
    assert((c + tail).skip(c.len() as int) =~= tail);
    lock_tail_round_trip(l);
}

impl Lock {
    /// A lock of its parts.
    pub fn new(
        lock_type: LockType,
        primary: Vec<u8>,
        ts: u64,
        ttl: u64,
        short_value: Option<Vec<u8>>,
    ) -> (r: Lock)
        ensures
            r == (Lock { lock_type, primary, ts, ttl, short_value }),
    {
        Lock { lock_type, primary, ts, ttl, short_value }
    }

    /// The stored form of the lock.
    pub fn to_bytes(&self) -> (r: Vec<u8>)
        requires
            self.primary@.len() <= i64::MAX,
        ensures
            r@ == lock_bytes(self@),
    {
        let mut out: Vec<u8> = Vec::new();
        out.push(self.lock_type.to_u8());
        codec::encode_compact_bytes(&mut out, self.primary.as_slice());
        codec::encode_var_u64(&mut out, self.ts);
        codec::encode_var_u64(&mut out, self.ttl);
        push_short_value(&mut out, &self.short_value);
        assert(out@ =~= lock_bytes(self@));
        out
    }

    /// Reads a lock from its stored form.
    pub fn parse(b: &[u8]) -> (r: Result<Lock, MvccError>)
        ensures
            match r {
                Ok(l) => lock_parsed(b@) == Ok::<LockView, MvccError>(l@),
                Err(e) => lock_parsed(b@) == Err::<LockView, MvccError>(e),
            },
    {
        if b.len() == 0 {
            return Err(MvccError::BadFormatLock);
        }
        let lock_type = match LockType::from_u8(b[0]) {
            None => return Err(MvccError::BadFormatLock),
            Some(t) => t,
        };
        let (primary, p) = match codec::decode_compact_bytes(b, 1) {
            Err(e) => return Err(MvccError::Codec(e)),
            Ok(x) => x,
        };
        assert(b@.skip(1).skip(p - 1) =~= b@.skip(p as int));
        let (ts, q) = match codec::decode_var_u64(b, p) {
            Err(e) => return Err(MvccError::Codec(e)),
            Ok(x) => x,
        };
        if q == b.len() {
            return Ok(Lock { lock_type, primary, ts, ttl: 0, short_value: None });
        }
        assert(b@.skip(p as int).skip(q - p) =~= b@.skip(q as int));
        let (ttl, s) = match codec::decode_var_u64(b, q) {
            Err(e) => return Err(MvccError::Codec(e)),
            Ok(x) => x,
        };
        assert(b@.skip(q as int).skip(s - q) =~= b@.skip(s as int));
        let short_value = match read_short_value(b, s) {
            Err(e) => return Err(e),
            Ok(v) => v,
        };
        Ok(Lock { lock_type, primary, ts, ttl, short_value })
    }
}

/// What a write record says happened to a key.
#[derive(Clone, Copy, Debug, PartialEq, Eq, Structural)]
pub enum WriteType {
    Put,
    Delete,
    Lock,
    Rollback,
}

/// The byte that stands for a write type.
pub open spec fn write_flag(t: WriteType) -> u8 {
    match t {
        WriteType::Put => 0x50,
        WriteType::Delete => 0x44,
        WriteType::Lock => 0x4c,
        WriteType::Rollback => 0x52,
    }
}

/// The write type that a byte stands for.
pub open spec fn write_type_of(b: u8) -> Option<WriteType> {
    if b == 0x50 {
        Some(WriteType::Put)
    } else if b == 0x44 {
        Some(WriteType::Delete)
    } else if b == 0x4c {
        Some(WriteType::Lock)
    } else if b == 0x52 {
        Some(WriteType::Rollback)
    } else {
        None
    }
}

impl WriteType {
    /// The byte that stands for the type.
    pub fn to_u8(&self) -> (r: u8)
        ensures
            r == write_flag(*self),
    {
        match self {
            WriteType::Put => 0x50,
            WriteType::Delete => 0x44,
            WriteType::Lock => 0x4c,
            WriteType::Rollback => 0x52,
        }
    }

    /// The type that a byte stands for.
    pub fn from_u8(b: u8) -> (r: Option<WriteType>)
        ensures
            r == write_type_of(b),
    {
        match b {
            0x50 => Some(WriteType::Put),
            0x44 => Some(WriteType::Delete),
            0x4c => Some(WriteType::Lock),
            0x52 => Some(WriteType::Rollback),
            _ => None,
        }
    }
}

/// The record of a committed or rolled back write.
#[derive(Debug, PartialEq, Eq)]
pub struct Write {
    pub write_type: WriteType,
    pub start_ts: u64,
    pub short_value: Option<Vec<u8>>,
}

/// What a write record holds.
#[verifier::ext_equal]
pub struct WriteView {
    pub write_type: WriteType,
    pub start_ts: u64,
    pub short_value: Option<Seq<u8>>,
}

impl View for Write {
    type V = WriteView;

    open spec fn view(&self) -> WriteView {
        WriteView {
            write_type: self.write_type,
            start_ts: self.start_ts,
            short_value: opt_view(self.short_value),
        }
    }
}

/// The stored form of a write record.
pub open spec fn write_bytes(w: WriteView) -> Seq<u8> {
    seq![write_flag(w.write_type)] + codec::var_bytes(w.start_ts as nat) + short_value_bytes(
        w.short_value,
    )
}

/// The write record that stored bytes stand for.
pub open spec fn write_parsed(b: Seq<u8>) -> Result<WriteView, MvccError> {
    if b.len() == 0 {
        Err(MvccError::BadFormatWrite)
    } else {
        match write_type_of(b[0]) {
            None => Err(MvccError::BadFormatWrite),
            Some(t) => match codec::var_parsed(b.skip(1)) {
                Err(e) => Err(MvccError::Codec(e)),
                Ok((start_ts, n)) => match short_value_parsed(b.skip(1).skip(n as int)) {
                    Err(e) => Err(e),
                    Ok(short_value) => Ok(WriteView { write_type: t, start_ts, short_value }),
                },
            },
        }
    }
}

/// A write record is read back from its stored form.
pub proof fn write_round_trip(w: WriteView)
    requires
        w.short_value matches Some(s) ==> s.len() <= 255,
    ensures
        write_parsed(write_bytes(w)) == Ok::<WriteView, MvccError>(w),
{
    let b = write_bytes(w);
    assert(write_type_of(b[0]) == Some(w.write_type));
    let x = codec::var_bytes(w.start_ts as nat);
    let z = short_value_bytes(w.short_value);
    assert(b.skip(1) =~= x + z);
    codec::var_parse_undoes_var_bytes(w.start_ts, z);
    assert((x + z).skip(x.len() as int) =~= z);
    short_value_round_trip(w.short_value);
}

impl Write {
    /// A write record of its parts.
    pub fn new(write_type: WriteType, start_ts: u64, short_value: Option<Vec<u8>>) -> (r: Write)
        ensures
            r == (Write { write_type, start_ts, short_value }),
    {
        Write { write_type, start_ts, short_value }
    }

    /// The stored form of the write record.
    pub fn to_bytes(&self) -> (r: Vec<u8>)
        ensures
            r@ == write_bytes(self@),
    {
        let mut out: Vec<u8> = Vec::new();
        out.push(self.write_type.to_u8());
        codec::encode_var_u64(&mut out, self.start_ts);
        push_short_value(&mut out, &self.short_value);
        assert(out@ =~= write_bytes(self@));
        out
    }

    /// Reads a write record from its stored form.
    pub fn parse(b: &[u8]) -> (r: Result<Write, MvccError>)
        ensures
            match r {
                Ok(w) => write_parsed(b@) == Ok::<WriteView, MvccError>(w@),
                Err(e) => write_parsed(b@) == Err::<WriteView, MvccError>(e),
            },
    {
        if b.len() == 0 {
            return Err(MvccError::BadFormatWrite);
        }
        let write_type = match WriteType::from_u8(b[0]) {
            None => return Err(MvccError::BadFormatWrite),
            Some(t) => t,
        };
        let (start_ts, p) = match codec::decode_var_u64(b, 1) {
            Err(e) => return Err(MvccError::Codec(e)),
            Ok(x) => x,
        };
        assert(b@.skip(1).skip(p - 1) =~= b@.skip(p as int));
        let short_value = match read_short_value(b, p) {
            Err(e) => return Err(e),
            Ok(v) => v,
        };
        Ok(Write { write_type, start_ts, short_value })
    }
}

} // verus!
