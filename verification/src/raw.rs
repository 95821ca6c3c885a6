//! Single entries: a raw value, and one entry of a raft log.
use vstd::prelude::*;

use crate::error::CtlError;
use crate::escape;
use crate::keys;
use crate::store;
use crate::store::Db;
use crate::text;

verus! {

broadcast use vstd::string::group_string_axioms;

/// What is printed of the value under a key.
pub open spec fn raw_value_text(value: Option<Seq<u8>>) -> Seq<char> {
    "value: "@ + (match value {
        None => "None"@,
        Some(v) => escape::escaped(v),
    }) + "\n"@
}

/// Prints the value under a key.
pub fn print_raw_value(value: Option<&[u8]>) -> (r: String)
    ensures
        r@ == raw_value_text(
            match value {
                None => None,
                Some(v) => Some(v@),
            },
        ),
{
    let mut out = String::new();
    out.append("value: ");
    match value {
        None => out.append("None"),
        Some(v) => escape::push_escaped(&mut out, v),
    }
    out.append("\n");
    assert(out@ =~= raw_value_text(
        match value {
            None => None,
            Some(v) => Some(v@),
        },
    ));
    out
}

/// What is printed of the value under a key, in escaped form, of the column family of a name.
pub open spec fn raw_dump(db: Db, cf: Seq<char>, key: Seq<char>) -> Result<Seq<char>, CtlError> {
    match (escape::unescaped(vstd::utf8::encode_utf8(key)), store::cf_rows(db, cf)) {
        (None, _) => Err(CtlError::BadEscape),
        (_, None) => Err(CtlError::UnknownCf),
        (Some(k), Some(rows)) => Ok(raw_value_text(store::looked_up(rows, k))),
    }
}

/// Looks up a key of a column family and prints the value under it.
pub fn dump_raw_value(db: &Db, cf: &str, key: &str) -> (r: Result<String, CtlError>)
    ensures
        match r {
            Ok(t) => raw_dump(*db, cf@, key@) == Ok::<Seq<char>, CtlError>(t@),
            Err(e) => raw_dump(*db, cf@, key@) == Err::<Seq<char>, CtlError>(e),
        },
        match escape::unescaped(vstd::utf8::encode_utf8(key@)) {
            None => r == Err::<String, CtlError>(CtlError::BadEscape),
            Some(k) => match store::cf_rows(*db, cf@) {
                None => r == Err::<String, CtlError>(CtlError::UnknownCf),
                Some(rows) => r is Ok && r->Ok_0@ == raw_value_text(store::looked_up(rows, k)),
            },
        },
{
    let k = match escape::try_unescape(key) {
        None => return Err(CtlError::BadEscape),
        Some(k) => k,
    };
    match db.table(cf) {
        None => Err(CtlError::UnknownCf),
        Some(table) => Ok(print_raw_value(table.get(k.as_slice()))),
    }
}

/// The stored entry of a raft log under a key, which stands in the default column family of the raft
/// store.
pub fn log_entry_bytes<'a>(raft_db: &'a Db, idx_key: &[u8]) -> (r: Result<&'a [u8], CtlError>)
    ensures
        match keys::raft_log_parsed(idx_key@) {
            Err(e) => r == Err::<&[u8], CtlError>(CtlError::Key(e)),
            Ok(_) => match store::looked_up(raft_db.default@, idx_key@) {
                None => r == Err::<&[u8], CtlError>(CtlError::NoLogEntry),
                Some(v) => r is Ok && r->Ok_0@ == v,
            },
        },
{
    match keys::decode_raft_log_key(idx_key) {
        Err(e) => return Err(CtlError::Key(e)),
        Ok(_) => {},
    }
    match raft_db.default.get(idx_key) {
        None => Err(CtlError::NoLogEntry),
        Some(v) => Ok(v),
    }
}

/// What is printed of one entry of a raft log.
pub open spec fn raft_log_text(
    idx_key: Seq<u8>,
    region_id: u64,
    index: u64,
    entry: Seq<char>,
    data_len: nat,
    msg: Seq<char>,
) -> Seq<char> {
    "idx_key: "@ + escape::escaped(idx_key) + "\nregion: "@ + text::decimal(region_id as nat)
        + "\nlog index: "@ + text::decimal(index as nat) + "\nentry "@ + entry + "\nmsg len: "@
        + text::decimal(data_len) + "\n"@ + msg + "\n"@
}

/// Prints one entry of a raft log: the entry without its data, the length of the data, and the
/// request that the data stands for.
pub fn dump_raft_log_entry(idx_key: &[u8], entry: &str, data: &[u8], msg: &str) -> (r: Result<
    String,
    CtlError,
>)
    ensures
        match keys::raft_log_parsed(idx_key@) {
            Err(e) => r == Err::<String, CtlError>(CtlError::Key(e)),
            Ok((region_id, index)) => r is Ok && r->Ok_0@ == raft_log_text(
                idx_key@,
                region_id,
                index,
                entry@,
                data@.len(),
                msg@,
            ),
        },
{
    let (region_id, index) = match keys::decode_raft_log_key(idx_key) {
        Err(e) => return Err(CtlError::Key(e)),
        Ok(x) => x,
    };
    let mut out = String::new();
    out.append("idx_key: ");
    escape::push_escaped(&mut out, idx_key);
    out.append("\nregion: ");
    text::push_decimal(&mut out, region_id);
    out.append("\nlog index: ");
    text::push_decimal(&mut out, index);
    out.append("\nentry ");
    out.append(entry);
    out.append("\nmsg len: ");
    text::push_decimal(&mut out, data.len() as u64);
    out.append("\n");
    out.append(msg);
    out.append("\n");
    assert(out@ =~= raft_log_text(idx_key@, region_id, index, entry@, data@.len(), msg@));
    Ok(out)
}

} // verus!
