//! Versions of a key: finding them in a column family and printing them.
use vstd::prelude::*;

use crate::bytes;
use crate::codec;
use crate::error::CtlError;
use crate::escape;
use crate::keys;
use crate::store;
use crate::store::{Db, Table};
use crate::text;
use crate::types;
use crate::types::{Key, Lock, LockType, MvccError, Write, WriteType};

verus! {

broadcast use vstd::string::group_string_axioms;

/// A value that can be read from the bytes stored under a versioned key.
pub trait MvccDeserializable: PartialEq + View + Sized {
    /// What the stored bytes stand for.
    spec fn parsed(bytes: Seq<u8>) -> Result<Self::V, MvccError>;

    /// Reads the value from stored bytes.
    fn try_deserialize(bytes: &[u8]) -> (r: Result<Self, MvccError>)
        ensures
            match r {
                Ok(v) => Self::parsed(bytes@) == Ok::<Self::V, MvccError>(v@),
                Err(e) => Self::parsed(bytes@) == Err::<Self::V, MvccError>(e),
            },
    ;

    /// Reads the value from stored bytes that are readable.
    fn deserialize(bytes: &[u8]) -> (r: Self)
        requires
            Self::parsed(bytes@) is Ok,
        ensures
            Self::parsed(bytes@) == Ok::<Self::V, MvccError>(r@),
    ;
}

impl MvccDeserializable for Write {
    open spec fn parsed(bytes: Seq<u8>) -> Result<types::WriteView, MvccError> {
        types::write_parsed(bytes)
    }

    fn try_deserialize(bytes: &[u8]) -> Result<Self, MvccError> {
        Write::parse(bytes)
    }

    fn deserialize(bytes: &[u8]) -> Self {
        Write::parse(bytes).unwrap()
    }
}

impl MvccDeserializable for Lock {
    open spec fn parsed(bytes: Seq<u8>) -> Result<types::LockView, MvccError> {
        types::lock_parsed(bytes)
    }

    fn try_deserialize(bytes: &[u8]) -> Result<Self, MvccError> {
        Lock::parse(bytes)
    }

    fn deserialize(bytes: &[u8]) -> Self {
        Lock::parse(bytes).unwrap()
    }
}

impl MvccDeserializable for Vec<u8> {
    open spec fn parsed(bytes: Seq<u8>) -> Result<Seq<u8>, MvccError> {
        Ok(bytes)
    }

    fn try_deserialize(bytes: &[u8]) -> Result<Self, MvccError> {
        Ok(vstd::slice::slice_to_vec(bytes))
    }

    fn deserialize(bytes: &[u8]) -> Self {
        vstd::slice::slice_to_vec(bytes)
    }
}

/// A versioned key with the value that was read from under it.
#[derive(Debug, PartialEq)]
pub struct MvccKv<T> {
    pub key: Key,
    pub value: T,
}

impl<T: View> View for MvccKv<T> {
    type V = (Seq<u8>, T::V);

    open spec fn view(&self) -> (Seq<u8>, T::V) {
        (self.key@, self.value@)
    }
}

/// What `kvs` holds.
pub open spec fn kv_views<T: View>(kvs: Seq<MvccKv<T>>) -> Seq<(Seq<u8>, T::V)> {
    Seq::new(kvs.len(), |i: int| kvs[i]@)
}

/// The encoded prefix that a key on the command line stands for.
pub open spec fn scan_prefix(key_prefix: Seq<char>, prefix_is_encoded: bool) -> Option<Seq<u8>> {
    match escape::unescaped(vstd::utf8::encode_utf8(key_prefix)) {
        None => None,
        Some(k) => Some(
            if prefix_is_encoded {
                k
            } else {
                codec::encoded_bytes(k)
            },
        ),
    }
}

/// The versions at the front of `rows`, up to the first key that does not start with `prefix`. Every
/// row that is looked at has to be readable, that one included.
pub open spec fn versions<T: MvccDeserializable>(
    rows: Seq<(Seq<u8>, Seq<u8>)>,
    prefix: Seq<u8>,
) -> Result<Seq<(Seq<u8>, T::V)>, CtlError>
    decreases rows.len(),
{
    if rows.len() == 0 {
        Ok(Seq::empty())
    } else if rows[0].0.len() == 0 || rows[0].0[0] != keys::DATA_PREFIX {
        Err(CtlError::Key(keys::KeyError::NotDataKey))
    } else {
        match T::parsed(rows[0].1) {
            Err(e) => Err(CtlError::Mvcc(e)),
            Ok(v) => if !prefix.is_prefix_of(rows[0].0.skip(1)) {
                Ok(Seq::empty())
            } else {
                match versions::<T>(rows.drop_first(), prefix) {
                    Err(e) => Err(e),
                    Ok(rest) => Ok(seq![(rows[0].0.skip(1), v)] + rest),
                }
            },
        }
    }
}

/// The versions that a search in a column family finds.
pub open spec fn found_versions<T: MvccDeserializable>(
    rows: Option<Seq<(Seq<u8>, Seq<u8>)>>,
    prefix: Option<Seq<u8>>,
) -> Result<Seq<(Seq<u8>, T::V)>, CtlError> {
    match prefix {
        None => Err(CtlError::BadEscape),
        Some(p) => match rows {
            None => Err(CtlError::UnknownCf),
            Some(r) => versions::<T>(store::seeked(r, keys::data_key_spec(p)), p),
        },
    }
}

/// The encoded prefix that a key on the command line stands for.
pub fn encoded_prefix(key_prefix: &str, prefix_is_encoded: bool) -> (r: Option<Vec<u8>>)
    ensures
        match r {
            None => scan_prefix(key_prefix@, prefix_is_encoded) is None,
            Some(p) => scan_prefix(key_prefix@, prefix_is_encoded) == Some(p@),
        },
{
    match escape::try_unescape(key_prefix) {
        None => None,
        Some(k) => if prefix_is_encoded {
            Some(k)
        } else {
            Some(codec::encode_bytes(k.as_slice()))
        },
    }
}

/// Collects the versions in `table` from the place `from` on, up to the first key that does not
/// start with `prefix`.
pub fn collect_versions<T: MvccDeserializable>(table: &Table, from: usize, prefix: &[u8]) -> (r:
    Result<Vec<MvccKv<T>>, CtlError>)
    requires
        from <= table@.len(),
    ensures
        match r {
            Ok(kvs) => versions::<T>(table@.skip(from as int), prefix@) == Ok::<
                Seq<(Seq<u8>, T::V)>,
                CtlError,
            >(kv_views(kvs@)),
            Err(e) => versions::<T>(table@.skip(from as int), prefix@) == Err::<
                Seq<(Seq<u8>, T::V)>,
                CtlError,
            >(e),
        },
{
    let mut out: Vec<MvccKv<T>> = Vec::new();
    let mut i: usize = from;
    let ghost all = versions::<T>(table@.skip(from as int), prefix@);
    assert(kv_views(out@) =~= Seq::empty());
    assert(forall|t: Seq<(Seq<u8>, T::V)>| #[trigger] (kv_views(out@) + t) =~= t);
    while i < table.len()
        invariant
            i <= table@.len(),
            all == versions::<T>(table@.skip(from as int), prefix@),
            all == match versions::<T>(table@.skip(i as int), prefix@) {
                Ok(t) => Ok(kv_views(out@) + t),
                Err(e) => Err(e),
            },
        decreases table@.len() - i,
    {
        let row = table.row(i);
        let ghost rest = table@.skip(i as int);
        let ghost prior = out@;
        assert(rest[0] == row@);
        assert(rest.drop_first() =~= table@.skip(i + 1));
        if row.key.len() == 0 || row.key[0] != keys::DATA_PREFIX {
            return Err(CtlError::Key(keys::KeyError::NotDataKey));
        }
        let key = keys::origin_key(row.key.as_slice());
        let value = match T::try_deserialize(row.value.as_slice()) {
            Err(e) => return Err(CtlError::Mvcc(e)),
            Ok(v) => v,
        };
        if !bytes::starts_with(key, prefix) {
            assert(kv_views(out@) + Seq::empty() =~= kv_views(out@));
            return Ok(out);
        }
        let kv = MvccKv { key: Key::from_encoded(vstd::slice::slice_to_vec(key)), value };
        let ghost entry = kv@;
        out.push(kv);
        assert(kv_views(out@) =~= kv_views(prior) + seq![entry]);
        proof {
            match versions::<T>(table@.skip(i + 1), prefix@) {
                Ok(t) => {
                    assert(kv_views(prior) + (seq![entry] + t) =~= kv_views(out@) + t);
                },
                Err(e) => {},
            }
        }
        i += 1;
    }
    assert(kv_views(out@) + Seq::empty() =~= kv_views(out@));
    Ok(out)
}

/// Finds the versions of the keys with a prefix, in the order of the column family.
pub fn try_gen_mvcc_iter<T: MvccDeserializable>(
    db: &Db,
    key_prefix: &str,
    prefix_is_encoded: bool,
    mvcc_type: &str,
) -> (r: Result<Vec<MvccKv<T>>, CtlError>)
    ensures
        match r {
            Ok(kvs) => found_versions::<T>(
                store::cf_rows(*db, mvcc_type@),
                scan_prefix(key_prefix@, prefix_is_encoded),
            ) == Ok::<Seq<(Seq<u8>, T::V)>, CtlError>(kv_views(kvs@)),
            Err(e) => found_versions::<T>(
                store::cf_rows(*db, mvcc_type@),
                scan_prefix(key_prefix@, prefix_is_encoded),
            ) == Err::<Seq<(Seq<u8>, T::V)>, CtlError>(e),
        },
{
    let prefix = match encoded_prefix(key_prefix, prefix_is_encoded) {
        None => return Err(CtlError::BadEscape),
        Some(p) => p,
    };
    let table = match db.table(mvcc_type) {
        None => return Err(CtlError::UnknownCf),
        Some(t) => t,
    };
    let from = table.seek(keys::data_key(prefix.as_slice()).as_slice());
    collect_versions(table, from, prefix.as_slice())
}

/// Finds the versions of the keys with a prefix, in the order of the column family, where all that
/// the search meets is readable.
pub fn gen_mvcc_iter<T: MvccDeserializable>(
    db: &Db,
    key_prefix: &str,
    prefix_is_encoded: bool,
    mvcc_type: &str,
) -> (r: Vec<MvccKv<T>>)
    requires
        found_versions::<T>(
            store::cf_rows(*db, mvcc_type@),
            scan_prefix(key_prefix@, prefix_is_encoded),
        ) is Ok,
    ensures
        found_versions::<T>(
            store::cf_rows(*db, mvcc_type@),
            scan_prefix(key_prefix@, prefix_is_encoded),
        ) == Ok::<Seq<(Seq<u8>, T::V)>, CtlError>(kv_views(r@)),
{
    match try_gen_mvcc_iter(db, key_prefix, prefix_is_encoded, mvcc_type) {
        Ok(kvs) => kvs,
        Err(_) => Vec::new(),
    }
}

/// Whether a filter lets a timestamp pass; no filter lets every timestamp pass.
pub open spec fn selects(filter: Option<u64>, ts: u64) -> bool {
    match filter {
        None => true,
        Some(t) => t == ts,
    }
}

/// Whether a filter lets a timestamp pass.
pub fn selected(filter: Option<u64>, ts: u64) -> (r: bool)
    ensures
        r == selects(filter, ts),
{
    match filter {
        None => true,
        Some(t) => t == ts,
    }
}

/// What is printed of one plain version.
pub open spec fn default_entry(key: Seq<u8>, value: Seq<u8>, ts: u64) -> Seq<char> {
    "Key: "@ + text::quoted(escape::escaped(key)) + "\nValue: "@ + text::quoted(
        escape::escaped(value),
    ) + "\nStart_ts: "@ + text::decimal(ts as nat) + "\n\n"@
}

/// What is printed of plain versions: those that start at the given timestamp.
pub open spec fn default_text(kvs: Seq<(Seq<u8>, Seq<u8>)>, start_ts: Option<u64>) -> Result<
    Seq<char>,
    CtlError,
>
    decreases kvs.len(),
{
    if kvs.len() == 0 {
        Ok(Seq::empty())
    } else {
        match (types::ts_of(kvs[0].0), types::without_ts(kvs[0].0)) {
            (Ok(ts), Ok(key)) => match default_text(kvs.drop_first(), start_ts) {
                Err(e) => Err(e),
                Ok(rest) => Ok(
                    if selects(start_ts, ts) {
                        default_entry(key, kvs[0].1, ts) + rest
                    } else {
                        rest
                    },
                ),
            },
            (Err(e), _) => Err(CtlError::Codec(e)),
            (_, Err(e)) => Err(CtlError::Codec(e)),
        }
    }
}

/// The name of a lock type.
pub open spec fn lock_type_name(t: LockType) -> Seq<char> {
    match t {
        LockType::Put => "Put"@,
        LockType::Delete => "Delete"@,
        LockType::Lock => "Lock"@,
    }
}

/// What is printed of one lock.
pub open spec fn lock_entry(key: Seq<u8>, lock: types::LockView) -> Seq<char> {
    "Key: "@ + text::quoted(escape::escaped(key)) + "\nPrimary: "@ + text::quoted(
        escape::escaped(lock.primary),
    ) + "\nType: "@ + lock_type_name(lock.lock_type) + "\nStart_ts: "@ + text::decimal(
        lock.ts as nat,
    ) + "\n\n"@
}

/// What is printed of locks: those that start at the given timestamp.
pub open spec fn lock_text(kvs: Seq<(Seq<u8>, types::LockView)>, start_ts: Option<u64>) -> Seq<
    char,
>
    decreases kvs.len(),
{
    if kvs.len() == 0 {
        Seq::empty()
    } else {
        let rest = lock_text(kvs.drop_first(), start_ts);
        if selects(start_ts, kvs[0].1.ts) {
            lock_entry(kvs[0].0, kvs[0].1) + rest
        } else {
            rest
        }
    }
}

/// The name of a write type.
pub open spec fn write_type_name(t: WriteType) -> Seq<char> {
    match t {
        WriteType::Put => "Put"@,
        WriteType::Delete => "Delete"@,
        WriteType::Lock => "Lock"@,
        WriteType::Rollback => "Rollback"@,
    }
}

/// What a debug print shows of a short value.
pub open spec fn short_value_text(v: Option<Seq<u8>>) -> Seq<char> {
    text::optional(
        match v {
            None => None,
            Some(s) => Some(text::byte_list(s)),
        },
    )
}

/// What is printed of one write record.
pub open spec fn write_entry(key: Seq<u8>, write: types::WriteView, commit_ts: u64) -> Seq<char> {
    "Key: "@ + text::quoted(escape::escaped(key)) + "\nType: "@ + write_type_name(write.write_type)
        + "\nStart_ts: "@ + text::decimal(write.start_ts as nat) + "\nCommit_ts: "@ + text::decimal(
        commit_ts as nat,
    ) + "\nShort value: "@ + short_value_text(write.short_value) + "\n\n"@
}

/// What is printed of write records: those that start and commit at the given timestamps.
pub open spec fn write_text(
    kvs: Seq<(Seq<u8>, types::WriteView)>,
    start_ts: Option<u64>,
    commit_ts: Option<u64>,
) -> Result<Seq<char>, CtlError>
    decreases kvs.len(),
{
    if kvs.len() == 0 {
        Ok(Seq::empty())
    } else {
        match (types::ts_of(kvs[0].0), types::without_ts(kvs[0].0)) {
            (Ok(ts), Ok(key)) => match write_text(kvs.drop_first(), start_ts, commit_ts) {
                Err(e) => Err(e),
                Ok(rest) => Ok(
                    if selects(start_ts, kvs[0].1.start_ts) && selects(commit_ts, ts) {
                        write_entry(key, kvs[0].1, ts) + rest
                    } else {
                        rest
                    },
                ),
            },
            (Err(e), _) => Err(CtlError::Codec(e)),
            (_, Err(e)) => Err(CtlError::Codec(e)),
        }
    }
}

fn push_default_entry(out: &mut String, key: &[u8], value: &[u8], ts: u64)
    ensures
        final(out)@ == old(out)@ + default_entry(key@, value@, ts),
{
    out.append("Key: ");
    escape::push_quoted_escaped(out, key);
    out.append("\nValue: ");
    escape::push_quoted_escaped(out, value);
    out.append("\nStart_ts: ");
    text::push_decimal(out, ts);
    out.append("\n\n");
    assert(out@ =~= old(out)@ + default_entry(key@, value@, ts));
}

fn push_lock_entry(out: &mut String, key: &[u8], lock: &Lock)
    ensures
        final(out)@ == old(out)@ + lock_entry(key@, lock@),
{
    out.append("Key: ");
    escape::push_quoted_escaped(out, key);
    out.append("\nPrimary: ");
    escape::push_quoted_escaped(out, lock.primary.as_slice());
    out.append("\nType: ");
    match lock.lock_type {
        LockType::Put => out.append("Put"),
        LockType::Delete => out.append("Delete"),
        LockType::Lock => out.append("Lock"),
    }
    out.append("\nStart_ts: ");
    text::push_decimal(out, lock.ts);
    out.append("\n\n");
    assert(out@ =~= old(out)@ + lock_entry(key@, lock@));
}

fn push_short_value_text(out: &mut String, v: &Option<Vec<u8>>)
    ensures
        final(out)@ == old(out)@ + short_value_text(types::opt_view(*v)),
{
    match v {
        None => text::push_optional(out, None),
        Some(s) => {
            let mut t = String::new();
            text::push_byte_list(&mut t, s.as_slice());
            assert(t@ =~= text::byte_list(s@));
            text::push_optional(out, Some(t.as_str()));
        },
    }
}

fn push_write_entry(out: &mut String, key: &[u8], write: &Write, commit_ts: u64)
    ensures
        final(out)@ == old(out)@ + write_entry(key@, write@, commit_ts),
{
    out.append("Key: ");
    escape::push_quoted_escaped(out, key);
    out.append("\nType: ");
    match write.write_type {
        WriteType::Put => out.append("Put"),
        WriteType::Delete => out.append("Delete"),
        WriteType::Lock => out.append("Lock"),
        WriteType::Rollback => out.append("Rollback"),
    }
    out.append("\nStart_ts: ");
    text::push_decimal(out, write.start_ts);
    out.append("\nCommit_ts: ");
    text::push_decimal(out, commit_ts);
    out.append("\nShort value: ");
    push_short_value_text(out, &write.short_value);
    out.append("\n\n");
    assert(out@ =~= old(out)@ + write_entry(key@, write@, commit_ts));
}

/// Prints plain versions.
pub fn print_default(kvs: &Vec<MvccKv<Vec<u8>>>, start_ts: Option<u64>) -> (r: Result<
    String,
    CtlError,
>)
    ensures
        match r {
            Ok(t) => default_text(kv_views(kvs@), start_ts) == Ok::<Seq<char>, CtlError>(t@),
            Err(e) => default_text(kv_views(kvs@), start_ts) == Err::<Seq<char>, CtlError>(e),
        },
{
    let mut out = String::new();
    let ghost all = kv_views(kvs@);
    let mut i: usize = 0;
    assert(all.skip(0) =~= all);
    assert(forall|t: Seq<char>| #[trigger] (out@ + t) =~= t);
    while i < kvs.len()
        invariant
            i <= kvs@.len(),
            all == kv_views(kvs@),
            default_text(all, start_ts) == match default_text(all.skip(i as int), start_ts) {
                Ok(t) => Ok(out@ + t),
                Err(e) => Err(e),
            },
        decreases kvs.len() - i,
    {
        let kv = &kvs[i];
        let ghost rest = all.skip(i as int);
        let ghost prior = out@;
        assert(rest[0] == kv@);
        assert(rest.drop_first() =~= all.skip(i + 1));
        let ts = match kv.key.decode_ts() {
            Err(e) => return Err(CtlError::Codec(e)),
            Ok(t) => t,
        };
        let key = match kv.key.truncate_ts() {
            Err(e) => return Err(CtlError::Codec(e)),
            Ok(k) => k,
        };
        if selected(start_ts, ts) {
            push_default_entry(&mut out, key.encoded().as_slice(), kv.value.as_slice(), ts);
            proof {
                let entry = default_entry(key@, kv.value@, ts);
                match default_text(all.skip(i + 1), start_ts) {
                    Ok(t) => {
                        assert(prior + (entry + t) =~= out@ + t);
                    },
                    Err(e) => {},
                }
            }
        }
        i += 1;
    }
    assert(out@ + Seq::<char>::empty() =~= out@);
    Ok(out)
}

/// Prints locks.
pub fn print_lock(kvs: &Vec<MvccKv<Lock>>, start_ts: Option<u64>) -> (r: String)
    ensures
        r@ == lock_text(kv_views(kvs@), start_ts),
{
    let mut out = String::new();
    let ghost all = kv_views(kvs@);
    let mut i: usize = 0;
    assert(all.skip(0) =~= all);
    assert(out@ + lock_text(all, start_ts) =~= lock_text(all, start_ts));
    while i < kvs.len()
        invariant
            i <= kvs@.len(),
            all == kv_views(kvs@),
            lock_text(all, start_ts) == out@ + lock_text(all.skip(i as int), start_ts),
        decreases kvs.len() - i,
    {
        let kv = &kvs[i];
        let ghost rest = all.skip(i as int);
        let ghost prior = out@;
        assert(rest[0] == kv@);
        assert(rest.drop_first() =~= all.skip(i + 1));
        let lock = &kv.value;
        if selected(start_ts, lock.ts) {
            push_lock_entry(&mut out, kv.key.encoded().as_slice(), lock);
            assert(prior + (lock_entry(kv.key@, lock@) + lock_text(all.skip(i + 1), start_ts))
                =~= out@ + lock_text(all.skip(i + 1), start_ts));
        }
        i += 1;
    }
    assert(out@ + Seq::<char>::empty() =~= out@);
    out
}

/// Prints write records.
pub fn print_write(
    kvs: &Vec<MvccKv<Write>>,
    start_ts: Option<u64>,
    commit_ts: Option<u64>,
) -> (r: Result<String, CtlError>)
    ensures
        match r {
            Ok(t) => write_text(kv_views(kvs@), start_ts, commit_ts) == Ok::<Seq<char>, CtlError>(
                t@,
            ),
            Err(e) => write_text(kv_views(kvs@), start_ts, commit_ts) == Err::<Seq<char>, CtlError>(
                e,
            ),
        },
{
    let mut out = String::new();
    let ghost all = kv_views(kvs@);
    let mut i: usize = 0;
    assert(all.skip(0) =~= all);
    assert(forall|t: Seq<char>| #[trigger] (out@ + t) =~= t);
    while i < kvs.len()
        invariant
            i <= kvs@.len(),
            all == kv_views(kvs@),
            write_text(all, start_ts, commit_ts) == match write_text(
                all.skip(i as int),
                start_ts,
                commit_ts,
            ) {
                Ok(t) => Ok(out@ + t),
                Err(e) => Err(e),
            },
        decreases kvs.len() - i,
    {
        let kv = &kvs[i];
        let ghost rest = all.skip(i as int);
        let ghost prior = out@;
        assert(rest[0] == kv@);
        assert(rest.drop_first() =~= all.skip(i + 1));
        let write = &kv.value;
        let ts = match kv.key.decode_ts() {
            Err(e) => return Err(CtlError::Codec(e)),
            Ok(t) => t,
        };
        let key = match kv.key.truncate_ts() {
            Err(e) => return Err(CtlError::Codec(e)),
            Ok(k) => k,
        };
        if selected(start_ts, write.start_ts) && selected(commit_ts, ts) {
            push_write_entry(&mut out, key.encoded().as_slice(), write, ts);
            proof {
                let entry = write_entry(key@, write@, ts);
                match write_text(all.skip(i + 1), start_ts, commit_ts) {
                    Ok(t) => {
                        assert(prior + (entry + t) =~= out@ + t);
                    },
                    Err(e) => {},
                }
            }
        }
        i += 1;
    }
    assert(out@ + Seq::<char>::empty() =~= out@);
    Ok(out)
}

/// What a search among the plain versions prints.
pub open spec fn default_dump(
    rows: Option<Seq<(Seq<u8>, Seq<u8>)>>,
    prefix: Option<Seq<u8>>,
    start_ts: Option<u64>,
) -> Result<Seq<char>, CtlError> {
    match found_versions::<Vec<u8>>(rows, prefix) {
        Err(e) => Err(e),
        Ok(kvs) => default_text(kvs, start_ts),
    }
}

/// What a search among the locks prints.
pub open spec fn lock_dump(
    rows: Option<Seq<(Seq<u8>, Seq<u8>)>>,
    prefix: Option<Seq<u8>>,
    start_ts: Option<u64>,
) -> Result<Seq<char>, CtlError> {
    match found_versions::<Lock>(rows, prefix) {
        Err(e) => Err(e),
        Ok(kvs) => Ok(lock_text(kvs, start_ts)),
    }
}

/// What a search among the write records prints.
pub open spec fn write_dump(
    rows: Option<Seq<(Seq<u8>, Seq<u8>)>>,
    prefix: Option<Seq<u8>>,
    start_ts: Option<u64>,
    commit_ts: Option<u64>,
) -> Result<Seq<char>, CtlError> {
    match found_versions::<Write>(rows, prefix) {
        Err(e) => Err(e),
        Ok(kvs) => write_text(kvs, start_ts, commit_ts),
    }
}

/// Finds the plain versions of a key and prints those that start at the given timestamp.
pub fn dump_mvcc_default(db: &Db, key: &str, encoded: bool, start_ts: Option<u64>) -> (r: Result<
    String,
    CtlError,
>)
    ensures
        match r {
            Ok(t) => default_dump(Some(db.default@), scan_prefix(key@, encoded), start_ts) == Ok::<
                Seq<char>,
                CtlError,
            >(t@),
            Err(e) => default_dump(Some(db.default@), scan_prefix(key@, encoded), start_ts)
                == Err::<Seq<char>, CtlError>(e),
        },
{
    match try_gen_mvcc_iter::<Vec<u8>>(db, key, encoded, store::CF_DEFAULT) {
        Err(e) => Err(e),
        Ok(kvs) => print_default(&kvs, start_ts),
    }
}

/// Finds the locks on a key and prints those that start at the given timestamp.
pub fn dump_mvcc_lock(db: &Db, key: &str, encoded: bool, start_ts: Option<u64>) -> (r: Result<
    String,
    CtlError,
>)
    ensures
        match r {
            Ok(t) => lock_dump(Some(db.lock@), scan_prefix(key@, encoded), start_ts) == Ok::<
                Seq<char>,
                CtlError,
            >(t@),
            Err(e) => lock_dump(Some(db.lock@), scan_prefix(key@, encoded), start_ts) == Err::<
                Seq<char>,
                CtlError,
            >(e),
        },
{
    proof {
        store::cf_names_differ();
    }
    match try_gen_mvcc_iter::<Lock>(db, key, encoded, store::CF_LOCK) {
        Err(e) => Err(e),
        Ok(kvs) => Ok(print_lock(&kvs, start_ts)),
    }
}

/// Finds the write records of a key and prints those that start and commit at the given timestamps.
pub fn dump_mvcc_write(
    db: &Db,
    key: &str,
    encoded: bool,
    start_ts: Option<u64>,
    commit_ts: Option<u64>,
) -> (r: Result<String, CtlError>)
    ensures
        match r {
            Ok(t) => write_dump(
                Some(db.write@),
                scan_prefix(key@, encoded),
                start_ts,
                commit_ts,
            ) == Ok::<Seq<char>, CtlError>(t@),
            Err(e) => write_dump(
                Some(db.write@),
                scan_prefix(key@, encoded),
                start_ts,
                commit_ts,
            ) == Err::<Seq<char>, CtlError>(e),
        },
{
    proof {
        store::cf_names_differ();
    }
    match try_gen_mvcc_iter::<Write>(db, key, encoded, store::CF_WRITE) {
        Err(e) => Err(e),
        Ok(kvs) => print_write(&kvs, start_ts, commit_ts),
    }
}

} // verus!
