//! What a command line that is accepted asks for, in terms of what stands on it.
use vstd::prelude::*;

use crate::bytes;
use crate::command;
use crate::command::{Action, Argument, OpeningView, Subcommand, UsageError};
use crate::error::CtlError;
use crate::escape;
use crate::hex;
use crate::number;
use crate::text;

verus! {

broadcast use vstd::string::group_string_axioms;

/// Whether `arg` is the number `n` as it is printed, or is left out where `n` is.
pub open spec fn writes(arg: Option<&str>, n: Option<u64>) -> bool {
    match (arg, n) {
        (None, None) => true,
        (Some(s), Some(v)) => s@ == text::decimal(v as nat),
        _ => false,
    }
}

/// Whether `name` is the column family that `cf` names, or the default one where it names none.
pub open spec fn names(name: &str, cf: Option<&str>) -> bool {
    match cf {
        None => name@ == "default"@,
        Some(c) => name == c,
    }
}

proof fn written_number(arg: Option<&str>, n: Option<u64>)
    requires
        writes(arg, n),
    ensures
        arg matches Some(s) ==> number::number_of(s@) == n,
{
    if let Some(v) = n {
        number::parse_undoes_print(v);
    }
}

/// A request for a raw value looks up the very key that is given in the very family that is named, in
/// the default family where none is, and is refused where no key is given.
pub proof fn raw_value_is_of_the_named_family(cf: Option<&str>, key: Option<&str>)
    ensures
        match (command::planned(Subcommand::Print { cf, key }), key) {
            (Ok(Action::RawValue { cf: name, key: k }), Some(given)) => k == given && names(
                name,
                cf,
            ),
            (Err(e), None) => e == UsageError::Missing(Argument::Key),
            _ => false,
        },
{
}

/// Two requests for raw values ask for the same only where they give the same key, and families of
/// the same name.
pub proof fn raw_value_requests_are_told_apart(cf1: &str, key1: &str, cf2: &str, key2: &str)
    requires
        command::planned(Subcommand::Print { cf: Some(cf1), key: Some(key1) }) == command::planned(
            Subcommand::Print { cf: Some(cf2), key: Some(key2) },
        ),
    ensures
        cf1 == cf2,
        key1 == key2,
{
    raw_value_is_of_the_named_family(Some(cf1), Some(key1));
    raw_value_is_of_the_named_family(Some(cf2), Some(key2));
}

/// A request for an entry of a raft log by its place asks for the entry with that region and that
/// index. Without a region or an index there is no such request.
pub proof fn log_entry_is_that_of_the_place(
    region: Option<&str>,
    index: Option<&str>,
    r: Option<u64>,
    i: Option<u64>,
)
    requires
        writes(region, r),
        writes(index, i),
    ensures
        match (command::planned(Subcommand::RaftLog { region, index, key: None }), r, i) {
            (Ok(Action::LogEntry { region_id, index: at }), Some(wanted), Some(place)) => region_id
                == wanted && at == place,
            (Err(e), None, _) => e == UsageError::Missing(Argument::Region),
            (Err(e), Some(_), None) => e == UsageError::Missing(Argument::Index),
            _ => false,
        },
{
    written_number(region, r);
    written_number(index, i);
}

/// A key of a raft log is taken as it is given, whatever else is.
pub proof fn log_key_is_taken_as_given(region: Option<&str>, index: Option<&str>, key: &str)
    ensures
        command::planned(Subcommand::RaftLog { region, index, key: Some(key) }) matches Ok(
            Action::LogEntryAt { key: k },
        ) && k == key,
{
}

/// A request for states or sizes of regions is for the region with the given number, or for all
/// where none is given, and keeps the flag and the family as they are given.
pub proof fn region_requests_keep_their_arguments(
    region: Option<&str>,
    r: Option<u64>,
    skip: bool,
    cf: Option<&str>,
)
    requires
        writes(region, r),
    ensures
        command::planned(Subcommand::RaftRegion { region, skip_tombstone: skip }) matches Ok(
            Action::RegionInfo { region_id, skip_tombstone },
        ) && region_id == r && skip_tombstone == skip,
        command::planned(Subcommand::Size { region, cf }) matches Ok(
            Action::RegionSize { region_id, cf: name },
        ) && region_id == r && name == cf,
{
    written_number(region, r);
}

/// A request for a range keeps its bounds, its limit, its filters and its family as they are given. It
/// is refused exactly where there is no start, or where the end is not behind the start.
pub proof fn range_requests_keep_their_arguments(
    from: Option<&str>,
    to: Option<&str>,
    limit: Option<&str>,
    start_ts: Option<&str>,
    commit_ts: Option<&str>,
    cf: Option<&str>,
    n: Option<u64>,
    s: Option<u64>,
    c: Option<u64>,
)
    requires
        writes(limit, n),
        writes(start_ts, s),
        writes(commit_ts, c),
    ensures
        ({
            let early = from is Some && to is Some && !bytes::less(
                vstd::utf8::encode_utf8(from->0@),
                vstd::utf8::encode_utf8(to->0@),
            );
            match command::planned(Subcommand::Scan { from, to, limit, start_ts, commit_ts, cf }) {
                Ok(Action::Range { from: f, to: t, limit: m, cf: name, start_ts: x, commit_ts: y }) =>
                    from == Some(f) && t == to && m == n && x == s && y == c && names(name, cf)
                        && !early,
                Ok(_) => false,
                Err(UsageError::Missing(arg)) => from is None && arg == Argument::From,
                Err(UsageError::EndNotAfterStart) => early,
                Err(_) => false,
            }
        }),
{
    written_number(limit, n);
    written_number(start_ts, s);
    written_number(commit_ts, c);
}

/// A request for versions keeps its key, its filters, its family and the flag as they are given, and is
/// refused where no key is given.
pub proof fn version_requests_keep_their_arguments(
    cf: Option<&str>,
    key: Option<&str>,
    encoded: bool,
    start_ts: Option<&str>,
    commit_ts: Option<&str>,
    s: Option<u64>,
    c: Option<u64>,
)
    requires
        writes(start_ts, s),
        writes(commit_ts, c),
    ensures
        match command::planned(Subcommand::Mvcc { cf, key, encoded, start_ts, commit_ts }) {
            Ok(Action::Versions { cf: name, key: k, encoded: e, start_ts: x, commit_ts: y }) => key
                == Some(k) && e == encoded && x == s && y == c && names(name, cf),
            Ok(_) => false,
            Err(e) => key is None && e == UsageError::Missing(Argument::Key),
        },
{
    written_number(start_ts, s);
    written_number(commit_ts, c);
}

/// A request for a comparison keeps its region and the path of the other store.
pub proof fn comparison_requests_keep_their_arguments(
    to: Option<&str>,
    region: Option<&str>,
    r: Option<u64>,
)
    requires
        writes(region, r),
    ensures
        match command::planned(Subcommand::Diff { to, region }) {
            Ok(Action::Compare { region_id, to: path }) => r == Some(region_id) && to == Some(path),
            Ok(_) => false,
            Err(UsageError::Missing(Argument::Region)) => r is None,
            Err(UsageError::Missing(Argument::To)) => r is Some && to is None,
            Err(_) => false,
        },
{
    written_number(region, r);
}

/// Without a subcommand help is printed, and a raft command of another name is refused.
pub proof fn other_commands()
    ensures
        command::planned(Subcommand::Nothing) == Ok::<Action<'_>, UsageError>(Action::Help),
        command::planned(Subcommand::RaftOther) == Err::<Action<'_>, UsageError>(
            UsageError::UnknownRaftCommand,
        ),
{
}

/// A text that is no number is refused wherever a number is asked for, with the name of the argument.
pub proof fn bad_numbers_are_refused(bad: &str, good: &str, skip: bool)
    requires
        number::number_of(bad@) is None,
    ensures
        command::planned(
            Subcommand::RaftLog { region: Some(bad), index: Some(good), key: None },
        ) == Err::<Action<'_>, UsageError>(UsageError::NotANumber(Argument::Region)),
        number::number_of(good@) is Some ==> command::planned(
            Subcommand::RaftLog { region: Some(good), index: Some(bad), key: None },
        ) == Err::<Action<'_>, UsageError>(UsageError::NotANumber(Argument::Index)),
        command::planned(Subcommand::RaftRegion { region: Some(bad), skip_tombstone: skip })
            == Err::<Action<'_>, UsageError>(UsageError::NotANumber(Argument::Region)),
        command::planned(Subcommand::Size { region: Some(bad), cf: Some(good) }) == Err::<
            Action<'_>,
            UsageError,
        >(UsageError::NotANumber(Argument::Region)),
        command::planned(Subcommand::Diff { to: Some(good), region: Some(bad) }) == Err::<
            Action<'_>,
            UsageError,
        >(UsageError::NotANumber(Argument::Region)),
        command::planned(
            Subcommand::Mvcc {
                cf: None,
                key: Some(good),
                encoded: skip,
                start_ts: Some(bad),
                commit_ts: None,
            },
        ) == Err::<Action<'_>, UsageError>(UsageError::NotANumber(Argument::StartTs)),
        command::planned(
            Subcommand::Mvcc {
                cf: None,
                key: Some(good),
                encoded: skip,
                start_ts: None,
                commit_ts: Some(bad),
            },
        ) == Err::<Action<'_>, UsageError>(UsageError::NotANumber(Argument::CommitTs)),
{
}

/// A number with one more digit is ten times the number and the digit, where that fits, and no number
/// where it does not.
pub proof fn digits_are_read_from_the_left(s: Seq<char>, n: u64, d: int)
    requires
        number::number_of(s) == Some(n),
        0 <= d < 10,
    ensures
        number::number_of(s.push(text::digit(d))) == (if 10 * n + d <= u64::MAX {
            Some((10 * n + d) as u64)
        } else {
            None
        }),
{
    let c = text::digit(d);
    let b = vstd::utf8::encode_utf8(s);
    let e = vstd::utf8::encode_utf8(s.push(c));
    hex::encoded_with_one_more(s, (48 + d) as u8);
    assert(c == ((48 + d) as u8) as char);
    assert(e =~= b.push((48 + d) as u8));
    let x = number::unsigned(b);
    let y = number::unsigned(e);
    assert(y =~= x.push((48 + d) as u8));
    assert(y.drop_last() =~= x);
}

/// Only digits, and one plus sign in front of them, make a number; nothing at all makes none.
pub proof fn numbers_hold_digits_only(s: Seq<char>)
    requires
        number::number_of(s) is Some,
    ensures
        ({
            let b = vstd::utf8::encode_utf8(s);
            &&& b.len() > 0
            &&& b.last() != 43
            &&& forall|i: int|
                0 <= i < b.len() ==> 48 <= #[trigger] b[i] <= 57 || (i == 0 && b[i] == 43)
        }),
{
    let b = vstd::utf8::encode_utf8(s);
    let x = number::unsigned(b);
    all_digits(x);
    assert forall|i: int| 0 <= i < b.len() implies 48 <= #[trigger] b[i] <= 57 || (i == 0 && b[i]
        == 43) by {
        if b[0] == 43 {
            if i > 0 {
                assert(b[i] == x[i - 1]);
            }
        } else {
            assert(b[i] == x[i]);
        }
    }
    assert(b.last() == x.last());
    assert(x.last() == x[x.len() - 1]);
}

proof fn all_digits(b: Seq<u8>)
    requires
        number::digits_value(b) is Some,
    ensures
        forall|i: int| 0 <= i < b.len() ==> 48 <= #[trigger] b[i] <= 57,
    decreases b.len(),
{
    if b.len() > 0 {
        all_digits(b.drop_last());
        assert forall|i: int| 0 <= i < b.len() implies 48 <= #[trigger] b[i] <= 57 by {
            if i < b.len() - 1 {
                assert(b[i] == b.drop_last()[i]);
            }
        }
    }
}

/// A key in hexadecimal notation is printed in a form that stands for the same bytes, on a line of its
/// own, and no store is opened.
pub proof fn hex_keys_are_converted(h: &str, db: Option<&str>, raftdb: Option<&str>, key: Seq<u8>)
    requires
        h@ == hex::uppercase(hex::hex_text(key)) || h@ == hex::hex_text(key),
    ensures
        match command::opened(Some(h), None, db, raftdb) {
            Ok(OpeningView::Converted(t)) => t.len() > 0 && t.last() == '\n' && escape::unescaped(
                vstd::utf8::encode_utf8(t.drop_last()),
            ) == Some(key),
            _ => false,
        },
{
    reveal_strlit("\n");
    hex::from_hex_undoes_to_hex(key);
    escape::unescape_undoes_escape(key);
    assert((escape::escaped(key) + "\n"@).drop_last() =~= escape::escaped(key));
}

/// A key in escaped notation is printed in a form that stands for the same bytes, without lower case
/// letters and on a line of its own, and no store is opened.
pub proof fn escaped_keys_are_converted(
    x: &str,
    db: Option<&str>,
    raftdb: Option<&str>,
    key: Seq<u8>,
)
    requires
        x@ == escape::escaped(key),
        key.len() <= usize::MAX / 4,
    ensures
        match command::opened(None, Some(x), db, raftdb) {
            Ok(OpeningView::Converted(t)) => {
                &&& t.len() == 2 * key.len() + 1
                &&& t.last() == '\n'
                &&& hex::hex_decoded(t.drop_last()) == Ok::<Seq<u8>, hex::HexError>(key)
                &&& forall|i: int| 0 <= i < t.len() ==> !('a' <= #[trigger] t[i] <= 'z')
            },
            _ => false,
        },
{
    reveal_strlit("\n");
    let s = hex::uppercase(hex::hex_text(key));
    hex::from_hex_undoes_to_hex(key);
    hex::hex_text_is_ascii(key);
    escape::unescape_undoes_escape(key);
    assert((s + "\n"@).drop_last() =~= s);
}

/// Two keys to convert are refused, and so is a command line without a path and without a key to
/// convert.
pub proof fn openings_that_are_refused(
    h: &str,
    x: &str,
    db: Option<&str>,
    raftdb: Option<&str>,
)
    ensures
        command::opened(Some(h), Some(x), db, raftdb) == Err::<OpeningView, UsageError>(
            UsageError::HexAndEscaped,
        ),
        command::opened(None, None, None, raftdb) == Err::<OpeningView, UsageError>(
            UsageError::Missing(Argument::Db),
        ),
        hex::hex_decoded(h@) is Err ==> command::opened(Some(h), None, db, raftdb) is Err,
        escape::unescaped(vstd::utf8::encode_utf8(x@)) is None ==> command::opened(
            None,
            Some(x),
            db,
            raftdb,
        ) == Err::<OpeningView, UsageError>(UsageError::Key(CtlError::BadEscape)),
{
}

/// The store at the given path is opened, and the raft store at its own path or beside it.
pub proof fn stores_are_opened_at_their_paths(path: &str, raftdb: Option<&str>)
    ensures
        match command::opened(None, None, Some(path), raftdb) {
            Ok(OpeningView::Stores { db, raft }) => {
                &&& db == path@
                &&& raftdb matches Some(r) ==> raft == r@
                &&& raftdb is None ==> raft == path@ + "../raft"@
            },
            _ => false,
        },
{
}

} // verus!
