//! What a search for versions prints, in terms of the versions that are stored.
use vstd::prelude::*;

use crate::codec;
use crate::codec::CodecError;
use crate::command;
use crate::error::CtlError;
use crate::escape;
use crate::keys;
use crate::mvcc;
use crate::mvcc::MvccDeserializable;
use crate::mvcc_laws;
use crate::store;
use crate::store::Db;
use crate::text;
use crate::types;
use crate::types::{Lock, LockType, LockView, Write, WriteType, WriteView};

verus! {

broadcast use vstd::string::group_string_axioms;

/// Whether every row is one of user data whose value can be read.
pub open spec fn readable<T: MvccDeserializable>(rows: Seq<(Seq<u8>, Seq<u8>)>) -> bool {
    forall|i: int|
        0 <= i < rows.len() ==> {
            &&& (#[trigger] rows[i]).0.len() > 0
            &&& rows[i].0[0] == 0x7a
            &&& T::parsed(rows[i].1) is Ok
        }
}

proof fn readable_block<T: MvccDeserializable>(rows: Seq<(Seq<u8>, Seq<u8>)>, prefix: Seq<u8>)
    requires
        readable::<T>(rows),
    ensures
        mvcc::versions::<T>(rows, prefix) is Ok,
    decreases rows.len(),
{
    if rows.len() > 0 {
        let rest = rows.drop_first();
        assert forall|i: int| 0 <= i < rest.len() implies {
            &&& (#[trigger] rest[i]).0.len() > 0
            &&& rest[i].0[0] == 0x7a
            &&& T::parsed(rest[i].1) is Ok
        } by {
            assert(rest[i] == rows[i + 1]);
        }
        readable_block::<T>(rest, prefix);
        assert(rows[0].0[0] == 0x7a);
    }
}

/// A search among readable rows succeeds.
pub proof fn readable_rows_are_searched<T: MvccDeserializable>(
    rows: Seq<(Seq<u8>, Seq<u8>)>,
    prefix: Seq<u8>,
)
    requires
        readable::<T>(rows),
    ensures
        mvcc::found_versions::<T>(Some(rows), Some(prefix)) is Ok,
    decreases rows.len(),
{
    let d = keys::data_key_spec(prefix);
    if rows.len() > 0 && crate::bytes::less(rows[0].0, d) {
        let rest = rows.drop_first();
        assert forall|i: int| 0 <= i < rest.len() implies {
            &&& (#[trigger] rest[i]).0.len() > 0
            &&& rest[i].0[0] == 0x7a
            &&& T::parsed(rest[i].1) is Ok
        } by {
            assert(rest[i] == rows[i + 1]);
        }
        readable_rows_are_searched::<T>(rest, prefix);
    } else {
        readable_block::<T>(rows, prefix);
    }
}

/// A search with a prefix that is given in encoded form is one for that very prefix, and a search with
/// a key is one for the form of that key.
pub proof fn searched_prefix(p: Seq<u8>)
    ensures
        mvcc::scan_prefix(escape::escaped(p), true) == Some(p),
        mvcc::scan_prefix(escape::escaped(p), false) == Some(codec::encoded_bytes(p)),
{
    escape::unescape_undoes_escape(p);
}

/// The lines that show a key.
pub open spec fn key_line(key: Seq<u8>) -> Seq<char> {
    "Key: "@ + text::quoted(escape::escaped(key)) + "\n"@
}

/// One version alone is printed with its key, its value and its timestamp where the filter is left out
/// or is that timestamp, and not at all under any other filter.
pub proof fn one_plain_version(key: Seq<u8>, ts: u64, value: Seq<u8>, filter: Option<u64>)
    ensures
        mvcc::default_text(seq![(types::at_ts(key, ts), value)], filter) == Ok::<
            Seq<char>,
            CtlError,
        >(
            if filter is None || filter == Some(ts) {
                key_line(key) + "Value: "@ + text::quoted(escape::escaped(value)) + "\n"@
                    + "Start_ts: "@ + text::decimal(ts as nat) + "\n\n"@
            } else {
                Seq::empty()
            },
        ),
{
    reveal_strlit("\n");
    reveal_strlit("Value: ");
    reveal_strlit("\nValue: ");
    reveal_strlit("Start_ts: ");
    reveal_strlit("\nStart_ts: ");
    assert("\nValue: "@ =~= "\n"@ + "Value: "@);
    assert("\nStart_ts: "@ =~= "\n"@ + "Start_ts: "@);
    types::ts_round_trip(key, ts);
    let kvs = seq![(types::at_ts(key, ts), value)];
    assert(kvs.drop_first() =~= Seq::empty());
    assert(mvcc::default_text(kvs.drop_first(), filter) == Ok::<Seq<char>, CtlError>(Seq::empty()));
    let entry = key_line(key) + "Value: "@ + text::quoted(escape::escaped(value)) + "\n"@
        + "Start_ts: "@ + text::decimal(ts as nat) + "\n\n"@;
    assert(mvcc::default_entry(key, value, ts) + Seq::<char>::empty() =~= entry);
}

/// Plain versions one behind the other print what they print alone, one behind the other; the first of
/// them that has no timestamp is reported.
pub proof fn plain_versions_are_printed_in_turn(
    a: Seq<(Seq<u8>, Seq<u8>)>,
    b: Seq<(Seq<u8>, Seq<u8>)>,
    filter: Option<u64>,
)
    ensures
        mvcc::default_text(a + b, filter) == match (
            mvcc::default_text(a, filter),
            mvcc::default_text(b, filter),
        ) {
            (Err(e), _) => Err(e),
            (_, Err(e)) => Err(e),
            (Ok(s), Ok(t)) => Ok(s + t),
        },
    decreases a.len(),
{
    if a.len() == 0 {
        assert(a + b =~= b);
        if let Ok(t) = mvcc::default_text(b, filter) {
            assert(Seq::<char>::empty() + t =~= t);
        }
    } else {
        plain_versions_are_printed_in_turn(a.drop_first(), b, filter);
        assert((a + b).drop_first() =~= a.drop_first() + b);
        assert((a + b)[0] == a[0]);
        match (mvcc::default_text(a.drop_first(), filter), mvcc::default_text(b, filter)) {
            (Ok(s), Ok(t)) => {
                if let (Ok(ts), Ok(key)) = (types::ts_of(a[0].0), types::without_ts(a[0].0)) {
                    let entry = mvcc::default_entry(key, a[0].1, ts);
                    assert(entry + (s + t) =~= entry + s + t);
                }
            },
            _ => {},
        }
    }
}

/// A key that is too short for a timestamp is reported.
pub proof fn plain_version_without_timestamp(
    key: Seq<u8>,
    value: Seq<u8>,
    write: WriteView,
    filter: Option<u64>,
    commit: Option<u64>,
)
    requires
        key.len() < 8,
    ensures
        mvcc::default_text(seq![(key, value)], filter) == Err::<Seq<char>, CtlError>(
            CtlError::Codec(CodecError::KeyLength),
        ),
        mvcc::write_text(seq![(key, write)], filter, commit) == Err::<Seq<char>, CtlError>(
            CtlError::Codec(CodecError::KeyLength),
        ),
{
}

/// The name of a lock type.
pub open spec fn lock_name(t: LockType) -> Seq<char> {
    match t {
        LockType::Put => "Put"@,
        LockType::Delete => "Delete"@,
        LockType::Lock => "Lock"@,
    }
}

/// One lock alone is printed with its key, its primary key, its type and its timestamp where the filter
/// is left out or is that timestamp, and not at all under any other filter.
pub proof fn one_lock(key: Seq<u8>, lock: LockView, filter: Option<u64>)
    ensures
        mvcc::lock_text(seq![(key, lock)], filter) == (if filter is None || filter == Some(
            lock.ts,
        ) {
            key_line(key) + "Primary: "@ + text::quoted(escape::escaped(lock.primary)) + "\n"@
                + "Type: "@ + lock_name(lock.lock_type) + "\n"@ + "Start_ts: "@ + text::decimal(
                lock.ts as nat,
            ) + "\n\n"@
        } else {
            Seq::empty()
        }),
{
    reveal_strlit("\n");
    reveal_strlit("Primary: ");
    reveal_strlit("\nPrimary: ");
    reveal_strlit("Type: ");
    reveal_strlit("\nType: ");
    reveal_strlit("Start_ts: ");
    reveal_strlit("\nStart_ts: ");
    assert("\nPrimary: "@ =~= "\n"@ + "Primary: "@);
    assert("\nType: "@ =~= "\n"@ + "Type: "@);
    assert("\nStart_ts: "@ =~= "\n"@ + "Start_ts: "@);
    let kvs = seq![(key, lock)];
    assert(kvs.drop_first() =~= Seq::empty());
    assert(mvcc::lock_text(kvs.drop_first(), filter) =~= Seq::empty());
    let entry = key_line(key) + "Primary: "@ + text::quoted(escape::escaped(lock.primary)) + "\n"@
        + "Type: "@ + lock_name(lock.lock_type) + "\n"@ + "Start_ts: "@ + text::decimal(
        lock.ts as nat,
    ) + "\n\n"@;
    assert(mvcc::lock_entry(key, lock) + Seq::<char>::empty() =~= entry);
}

/// Locks one behind the other print what they print alone, one behind the other.
pub proof fn locks_are_printed_in_turn(
    a: Seq<(Seq<u8>, LockView)>,
    b: Seq<(Seq<u8>, LockView)>,
    filter: Option<u64>,
)
    ensures
        mvcc::lock_text(a + b, filter) == mvcc::lock_text(a, filter) + mvcc::lock_text(b, filter),
    decreases a.len(),
{
    if a.len() == 0 {
        assert(a + b =~= b);
        assert(Seq::<char>::empty() + mvcc::lock_text(b, filter) =~= mvcc::lock_text(b, filter));
    } else {
        locks_are_printed_in_turn(a.drop_first(), b, filter);
        assert((a + b).drop_first() =~= a.drop_first() + b);
        assert((a + b)[0] == a[0]);
        assert(mvcc::lock_text(a + b, filter) =~= mvcc::lock_text(a, filter) + mvcc::lock_text(
            b,
            filter,
        ));
    }
}

/// The name of a write type.
pub open spec fn write_name(t: WriteType) -> Seq<char> {
    match t {
        WriteType::Put => "Put"@,
        WriteType::Delete => "Delete"@,
        WriteType::Lock => "Lock"@,
        WriteType::Rollback => "Rollback"@,
    }
}

/// A short value as it is shown.
pub open spec fn short_value_shown(v: Option<Seq<u8>>) -> Seq<char> {
    match v {
        None => "None"@,
        Some(b) => "Some("@ + text::byte_list(b) + ")"@,
    }
}

/// One write record alone is printed with its key, its type, its timestamps and its short value where
/// each filter is left out or is the timestamp that it is for, and not at all otherwise.
pub proof fn one_write_record(
    key: Seq<u8>,
    ts: u64,
    write: WriteView,
    start: Option<u64>,
    commit: Option<u64>,
)
    ensures
        mvcc::write_text(seq![(types::at_ts(key, ts), write)], start, commit) == Ok::<
            Seq<char>,
            CtlError,
        >(
            if (start is None || start == Some(write.start_ts)) && (commit is None || commit
                == Some(ts)) {
                key_line(key) + "Type: "@ + write_name(write.write_type) + "\n"@ + "Start_ts: "@
                    + text::decimal(write.start_ts as nat) + "\n"@ + "Commit_ts: "@ + text::decimal(
                    ts as nat,
                ) + "\n"@ + "Short value: "@ + short_value_shown(write.short_value) + "\n\n"@
            } else {
                Seq::empty()
            },
        ),
{
    reveal_strlit("\n");
    reveal_strlit("Type: ");
    reveal_strlit("\nType: ");
    reveal_strlit("Start_ts: ");
    reveal_strlit("\nStart_ts: ");
    reveal_strlit("Commit_ts: ");
    reveal_strlit("\nCommit_ts: ");
    reveal_strlit("Short value: ");
    reveal_strlit("\nShort value: ");
    assert("\nType: "@ =~= "\n"@ + "Type: "@);
    assert("\nStart_ts: "@ =~= "\n"@ + "Start_ts: "@);
    assert("\nCommit_ts: "@ =~= "\n"@ + "Commit_ts: "@);
    assert("\nShort value: "@ =~= "\n"@ + "Short value: "@);
    types::ts_round_trip(key, ts);
    let kvs = seq![(types::at_ts(key, ts), write)];
    assert(kvs.drop_first() =~= Seq::empty());
    assert(mvcc::write_text(kvs.drop_first(), start, commit) == Ok::<Seq<char>, CtlError>(
        Seq::empty(),
    ));
    let entry = key_line(key) + "Type: "@ + write_name(write.write_type) + "\n"@ + "Start_ts: "@
        + text::decimal(write.start_ts as nat) + "\n"@ + "Commit_ts: "@ + text::decimal(ts as nat)
        + "\n"@ + "Short value: "@ + short_value_shown(write.short_value) + "\n\n"@;
    assert(mvcc::write_entry(key, write, ts) + Seq::<char>::empty() =~= entry);
}

/// Write records one behind the other print what they print alone, one behind the other; the first of
/// them that has no timestamp is reported.
pub proof fn write_records_are_printed_in_turn(
    a: Seq<(Seq<u8>, WriteView)>,
    b: Seq<(Seq<u8>, WriteView)>,
    start: Option<u64>,
    commit: Option<u64>,
)
    ensures
        mvcc::write_text(a + b, start, commit) == match (
            mvcc::write_text(a, start, commit),
            mvcc::write_text(b, start, commit),
        ) {
            (Err(e), _) => Err(e),
            (_, Err(e)) => Err(e),
            (Ok(s), Ok(t)) => Ok(s + t),
        },
    decreases a.len(),
{
    if a.len() == 0 {
        assert(a + b =~= b);
        if let Ok(t) = mvcc::write_text(b, start, commit) {
            assert(Seq::<char>::empty() + t =~= t);
        }
    } else {
        write_records_are_printed_in_turn(a.drop_first(), b, start, commit);
        assert((a + b).drop_first() =~= a.drop_first() + b);
        assert((a + b)[0] == a[0]);
        match (
            mvcc::write_text(a.drop_first(), start, commit),
            mvcc::write_text(b, start, commit),
        ) {
            (Ok(s), Ok(t)) => {
                if let (Ok(ts), Ok(key)) = (types::ts_of(a[0].0), types::without_ts(a[0].0)) {
                    let entry = mvcc::write_entry(key, a[0].1, ts);
                    assert(entry + (s + t) =~= entry + s + t);
                }
            },
            _ => {},
        }
    }
}

/// Whether a timestamp is the wanted one, where one is wanted.
pub open spec fn wanted(filter: Option<u64>, ts: u64) -> bool {
    filter is None || filter == Some(ts)
}

/// The versions that start at the wanted timestamp.
pub open spec fn starting(kvs: Seq<(Seq<u8>, Seq<u8>)>, filter: Option<u64>) -> Seq<
    (Seq<u8>, Seq<u8>),
> {
    kvs.filter(|kv: (Seq<u8>, Seq<u8>)| wanted(filter, types::ts_of(kv.0)->Ok_0))
}

/// The locks that start at the wanted timestamp.
pub open spec fn locks_starting(kvs: Seq<(Seq<u8>, LockView)>, filter: Option<u64>) -> Seq<
    (Seq<u8>, LockView),
> {
    kvs.filter(|kv: (Seq<u8>, LockView)| wanted(filter, kv.1.ts))
}

/// The write records that start and commit at the wanted timestamps.
pub open spec fn writes_between(
    kvs: Seq<(Seq<u8>, WriteView)>,
    start: Option<u64>,
    commit: Option<u64>,
) -> Seq<(Seq<u8>, WriteView)> {
    kvs.filter(
        |kv: (Seq<u8>, WriteView)|
            wanted(start, kv.1.start_ts) && wanted(commit, types::ts_of(kv.0)->Ok_0),
    )
}

proof fn plain_restricted(kvs: Seq<(Seq<u8>, Seq<u8>)>, filter: Option<u64>)
    requires
        mvcc::default_text(kvs, None) is Ok,
    ensures
        mvcc::default_text(kvs, filter) == mvcc::default_text(starting(kvs, filter), None),
        mvcc::default_text(kvs, filter) is Ok,
    decreases kvs.len(),
{
    let pred = |kv: (Seq<u8>, Seq<u8>)| wanted(filter, types::ts_of(kv.0)->Ok_0);
    if kvs.len() == 0 {
        mvcc_laws::filter_of_nothing(kvs, pred);
    } else {
        mvcc_laws::filter_step(kvs, pred);
        plain_restricted(kvs.drop_first(), filter);
    }
}

proof fn locks_restricted(kvs: Seq<(Seq<u8>, LockView)>, filter: Option<u64>)
    ensures
        mvcc::lock_text(kvs, filter) == mvcc::lock_text(locks_starting(kvs, filter), None),
    decreases kvs.len(),
{
    let pred = |kv: (Seq<u8>, LockView)| wanted(filter, kv.1.ts);
    if kvs.len() == 0 {
        mvcc_laws::filter_of_nothing(kvs, pred);
    } else {
        mvcc_laws::filter_step(kvs, pred);
        locks_restricted(kvs.drop_first(), filter);
    }
}

proof fn writes_restricted(
    kvs: Seq<(Seq<u8>, WriteView)>,
    start: Option<u64>,
    commit: Option<u64>,
)
    requires
        mvcc::write_text(kvs, None, None) is Ok,
    ensures
        mvcc::write_text(kvs, start, commit) == mvcc::write_text(
            writes_between(kvs, start, commit),
            None,
            None,
        ),
        mvcc::write_text(kvs, start, commit) is Ok,
    decreases kvs.len(),
{
    let pred = |kv: (Seq<u8>, WriteView)|
        wanted(start, kv.1.start_ts) && wanted(commit, types::ts_of(kv.0)->Ok_0);
    if kvs.len() == 0 {
        mvcc_laws::filter_of_nothing(kvs, pred);
    } else {
        mvcc_laws::filter_step(kvs, pred);
        writes_restricted(kvs.drop_first(), start, commit);
    }
}

/// The report of a search is the heading and then, for each family that is asked for, what the found
/// versions print that start and commit at the timestamps of the filters, and nothing else. The
/// default family is searched for versions of the key, the lock family for its locks and the write
/// family for its write records. A family without versions is refused, with help.
pub proof fn search_shows_the_wanted_versions(
    db: Db,
    name: Seq<char>,
    key: Seq<char>,
    bytes: Seq<u8>,
    encoded: bool,
    start: Option<u64>,
    commit: Option<u64>,
    plain: Seq<(Seq<u8>, Seq<u8>)>,
    locks: Seq<(Seq<u8>, LockView)>,
    writes: Seq<(Seq<u8>, WriteView)>,
)
    requires
        escape::unescaped(vstd::utf8::encode_utf8(key)) == Some(bytes),
        ({
            let p = if encoded {
                bytes
            } else {
                codec::encoded_bytes(bytes)
            };
            &&& mvcc::found_versions::<Vec<u8>>(Some(db.default@), Some(p)) == Ok::<
                Seq<(Seq<u8>, Seq<u8>)>,
                CtlError,
            >(plain)
            &&& mvcc::found_versions::<Lock>(Some(db.lock@), Some(p)) == Ok::<
                Seq<(Seq<u8>, LockView)>,
                CtlError,
            >(locks)
            &&& mvcc::found_versions::<Write>(Some(db.write@), Some(p)) == Ok::<
                Seq<(Seq<u8>, WriteView)>,
                CtlError,
            >(writes)
        }),
        mvcc::default_text(plain, None) is Ok,
        mvcc::write_text(writes, None, None) is Ok,
    ensures
        ({
            let heading = "You are searching Key "@ + key + ": \n"@;
            let d = mvcc::default_text(starting(plain, start), None);
            let l = mvcc::lock_text(locks_starting(locks, start), None);
            let w = mvcc::write_text(writes_between(writes, start, commit), None, None);
            let report = command::versions_report(db, name, key, encoded, start, commit);
            &&& d is Ok
            &&& w is Ok
            &&& report == Ok::<(Seq<char>, bool), CtlError>(
                if name == "default"@ {
                    (heading + d->Ok_0, false)
                } else if name == "lock"@ {
                    (heading + l, false)
                } else if name == "write"@ {
                    (heading + w->Ok_0, false)
                } else if name == "all"@ {
                    (heading + d->Ok_0 + l + w->Ok_0, false)
                } else {
                    (heading + "The cf: "@ + name + " cannot be dumped\n"@, true)
                },
            )
        }),
{
    store::cf_names_differ();
    plain_restricted(plain, start);
    locks_restricted(locks, start);
    writes_restricted(writes, start, commit);
}

/// A search for a key that is not well-formed fails in every family with versions.
pub proof fn ill_formed_keys_are_not_searched(
    db: Db,
    name: Seq<char>,
    key: Seq<char>,
    encoded: bool,
    start: Option<u64>,
    commit: Option<u64>,
)
    requires
        name == "default"@ || name == "lock"@ || name == "write"@ || name == "all"@,
        escape::unescaped(vstd::utf8::encode_utf8(key)) is None,
    ensures
        command::versions_report(db, name, key, encoded, start, commit) == Err::<
            (Seq<char>, bool),
            CtlError,
        >(CtlError::BadEscape),
{
    store::cf_names_differ();
}

/// A search that meets what it cannot read in the family that is asked for fails with that error.
pub proof fn unreadable_versions_are_reported(
    db: Db,
    p: Seq<u8>,
    start: Option<u64>,
    commit: Option<u64>,
    e: CtlError,
)
    ensures
        ({
            let report = |name: Seq<char>|
                command::versions_report(db, name, escape::escaped(p), true, start, commit);
            let failed = Err::<(Seq<char>, bool), CtlError>(e);
            &&& mvcc::found_versions::<Vec<u8>>(Some(db.default@), Some(p)) == Err::<
                Seq<(Seq<u8>, Seq<u8>)>,
                CtlError,
            >(e) ==> report("default"@) == failed && report("all"@) == failed
            &&& mvcc::found_versions::<Lock>(Some(db.lock@), Some(p)) == Err::<
                Seq<(Seq<u8>, LockView)>,
                CtlError,
            >(e) ==> report("lock"@) == failed && report("all"@) is Err
            &&& mvcc::found_versions::<Write>(Some(db.write@), Some(p)) == Err::<
                Seq<(Seq<u8>, WriteView)>,
                CtlError,
            >(e) ==> report("write"@) == failed && report("all"@) is Err
        }),
{
    store::cf_names_differ();
    reveal_strlit("all");
    reveal_strlit("default");
    reveal_strlit("lock");
    reveal_strlit("write");
    assert("all"@.len() == 3 && "default"@.len() == 7 && "lock"@.len() == 4 && "write"@.len() == 5);
    searched_prefix(p);
}

} // verus!
