//! What the command line asks for.
use vstd::prelude::*;

use crate::bytes;
use crate::diff;
use crate::error::CtlError;
use crate::escape;
use crate::hex;
use crate::keys;
use crate::mvcc;
use crate::number;
use crate::store;
use crate::store::Db;
use crate::text;

verus! {

broadcast use vstd::string::group_string_axioms;

/// An argument of the command line.
#[derive(Clone, Copy, Debug, PartialEq, Eq, Structural)]
pub enum Argument {
    Db,
    Key,
    Region,
    Index,
    From,
    To,
    Limit,
    StartTs,
    CommitTs,
}

/// Why a command line is refused.
#[derive(Clone, Copy, Debug, PartialEq, Eq, Structural)]
pub enum UsageError {
    /// Both conversions were asked for.
    HexAndEscaped,
    /// An argument is missing.
    Missing(Argument),
    /// An argument is no number.
    NotANumber(Argument),
    /// The end of a range does not come after its start.
    EndNotAfterStart,
    /// The raft command is neither of the two that there are.
    UnknownRaftCommand,
    /// A key cannot be read.
    Key(CtlError),
}

/// What is done before any subcommand.
pub enum Opening {
    /// A converted key is printed, and that is all.
    Converted(String),
    /// Two stores are opened.
    Stores { db: String, raft: String },
}

/// The model of an opening.
pub enum OpeningView {
    Converted(Seq<char>),
    Stores { db: Seq<char>, raft: Seq<char> },
}

impl View for Opening {
    type V = OpeningView;

    open spec fn view(&self) -> OpeningView {
        match self {
            Opening::Converted(s) => OpeningView::Converted(s@),
            Opening::Stores { db, raft } => OpeningView::Stores { db: db@, raft: raft@ },
        }
    }
}

/// The stores that are opened: the raft store lies beside the data where no path is given for it.
pub open spec fn opened_stores(db: Option<&str>, raftdb: Option<&str>) -> Result<
    OpeningView,
    UsageError,
> {
    match db {
        None => Err(UsageError::Missing(Argument::Db)),
        Some(path) => Ok(
            OpeningView::Stores {
                db: path@,
                raft: match raftdb {
                    Some(raft) => raft@,
                    None => path@ + "../raft"@,
                },
            },
        ),
    }
}

/// What is done before any subcommand: a conversion where one key is given for it, else the stores
/// are opened.
pub open spec fn opened(
    hex_key: Option<&str>,
    escaped_key: Option<&str>,
    db: Option<&str>,
    raftdb: Option<&str>,
) -> Result<OpeningView, UsageError> {
    match (hex_key, escaped_key) {
        (Some(_), Some(_)) => Err(UsageError::HexAndEscaped),
        (Some(h), None) => match hex::hex_decoded(h@) {
            Err(e) => Err(UsageError::Key(CtlError::Hex(e))),
            Ok(v) => Ok(OpeningView::Converted(escape::escaped(v) + "\n"@)),
        },
        (None, Some(x)) => match escape::unescaped(vstd::utf8::encode_utf8(x@)) {
            None => Err(UsageError::Key(CtlError::BadEscape)),
            Some(v) => if v.len() > usize::MAX / 4 {
                Err(UsageError::Key(CtlError::KeyTooLong))
            } else {
                Ok(OpeningView::Converted(hex::uppercase(hex::hex_text(v)) + "\n"@))
            },
        },
        (None, None) => opened_stores(db, raftdb),
    }
}

/// Decides what is done before any subcommand.
pub fn open(
    hex_key: Option<&str>,
    escaped_key: Option<&str>,
    db: Option<&str>,
    raftdb: Option<&str>,
) -> (r: Result<Opening, UsageError>)
    ensures
        match r {
            Ok(o) => opened(hex_key, escaped_key, db, raftdb) == Ok::<OpeningView, UsageError>(o@),
            Err(e) => opened(hex_key, escaped_key, db, raftdb) == Err::<OpeningView, UsageError>(e),
        },
{
    let converted = match (hex_key, escaped_key) {
        (Some(_), Some(_)) => return Err(UsageError::HexAndEscaped),
        (Some(h), None) => hex::hex_to_escaped(h),
        (None, Some(x)) => hex::escaped_to_hex(x),
        (None, None) => {
            let path = match db {
                None => return Err(UsageError::Missing(Argument::Db)),
                Some(path) => path,
            };
            let raft = match raftdb {
                Some(raft) => raft.to_owned(),
                None => path.to_owned().concat("../raft"),
            };
            return Ok(Opening::Stores { db: path.to_owned(), raft });
        },
    };
    match converted {
        Err(e) => Err(UsageError::Key(e)),
        Ok(s) => Ok(Opening::Converted(s.concat("\n"))),
    }
}

/// A subcommand with its arguments, as they stand on the command line.
#[derive(Clone, Copy)]
pub enum Subcommand<'a> {
    Print { cf: Option<&'a str>, key: Option<&'a str> },
    RaftLog { region: Option<&'a str>, index: Option<&'a str>, key: Option<&'a str> },
    RaftRegion { region: Option<&'a str>, skip_tombstone: bool },
    RaftOther,
    Size { region: Option<&'a str>, cf: Option<&'a str> },
    Scan {
        from: Option<&'a str>,
        to: Option<&'a str>,
        limit: Option<&'a str>,
        start_ts: Option<&'a str>,
        commit_ts: Option<&'a str>,
        cf: Option<&'a str>,
    },
    Mvcc {
        cf: Option<&'a str>,
        key: Option<&'a str>,
        encoded: bool,
        start_ts: Option<&'a str>,
        commit_ts: Option<&'a str>,
    },
    Diff { to: Option<&'a str>, region: Option<&'a str> },
    Nothing,
}

/// What a subcommand asks for.
#[allow(inconsistent_fields)]
#[derive(Clone, Copy)]
pub enum Action<'a> {
    /// Print a raw value.
    RawValue { cf: &'a str, key: &'a str },
    /// Print the entry of a raft log with that place.
    LogEntry { region_id: u64, index: u64 },
    /// Print the entry of a raft log under that key, in escaped form.
    LogEntryAt { key: &'a str },
    /// Print the states of a region, or of all.
    RegionInfo { region_id: Option<u64>, skip_tombstone: bool },
    /// Print the size of a region, or of all.
    RegionSize { region_id: Option<u64>, cf: Option<&'a str> },
    /// Print a range of a column family.
    Range {
        from: &'a str,
        to: Option<&'a str>,
        limit: Option<u64>,
        cf: &'a str,
        start_ts: Option<u64>,
        commit_ts: Option<u64>,
    },
    /// Print the versions of a key.
    Versions {
        cf: &'a str,
        key: &'a str,
        encoded: bool,
        start_ts: Option<u64>,
        commit_ts: Option<u64>,
    },
    /// Compare a region with that of another store.
    Compare { region_id: u64, to: &'a str },
    /// Print the help text.
    Help,
}

/// An argument that has to be there.
pub open spec fn needed(value: Option<&str>, arg: Argument) -> Result<&str, UsageError> {
    match value {
        None => Err(UsageError::Missing(arg)),
        Some(s) => Ok(s),
    }
}

/// A number that has to be there.
pub open spec fn needed_number(value: Option<&str>, arg: Argument) -> Result<u64, UsageError> {
    match value {
        None => Err(UsageError::Missing(arg)),
        Some(s) => match number::number_of(s@) {
            None => Err(UsageError::NotANumber(arg)),
            Some(n) => Ok(n),
        },
    }
}

/// A number that may be left out.
pub open spec fn optional_number(value: Option<&str>, arg: Argument) -> Result<
    Option<u64>,
    UsageError,
> {
    match value {
        None => Ok(None),
        Some(s) => match number::number_of(s@) {
            None => Err(UsageError::NotANumber(arg)),
            Some(n) => Ok(Some(n)),
        },
    }
}

/// The column family that is meant where none is named.
pub open spec fn named_cf(cf: Option<&str>) -> &str {
    match cf {
        None => store::CF_DEFAULT,
        Some(name) => name,
    }
}

/// Whether the end of a range is there and does not come after its start, both as they are written.
pub open spec fn ends_early(from: &str, to: Option<&str>) -> bool {
    match to {
        None => false,
        Some(end) => !bytes::less(
            vstd::utf8::encode_utf8(from@),
            vstd::utf8::encode_utf8(end@),
        ),
    }
}

/// What a request for the entry of a raft log asks for. The key counts before the place.
pub open spec fn planned_log<'a>(
    region: Option<&'a str>,
    index: Option<&'a str>,
    key: Option<&'a str>,
) -> Result<Action<'a>, UsageError> {
    match (key, region, index) {
        (Some(k), _, _) => Ok(Action::LogEntryAt { key: k }),
        (None, None, _) => Err(UsageError::Missing(Argument::Region)),
        (None, _, None) => Err(UsageError::Missing(Argument::Index)),
        (None, _, _) => match (
            needed_number(region, Argument::Region),
            needed_number(index, Argument::Index),
        ) {
            (Err(e), _) => Err(e),
            (_, Err(e)) => Err(e),
            (Ok(region_id), Ok(index)) => Ok(Action::LogEntry { region_id, index }),
        },
    }
}

/// What a request for a range asks for.
pub open spec fn planned_range<'a>(
    from: Option<&'a str>,
    to: Option<&'a str>,
    limit: Option<&'a str>,
    start_ts: Option<&'a str>,
    commit_ts: Option<&'a str>,
    cf: Option<&'a str>,
) -> Result<Action<'a>, UsageError> {
    match (
        needed(from, Argument::From),
        optional_number(limit, Argument::Limit),
        optional_number(start_ts, Argument::StartTs),
        optional_number(commit_ts, Argument::CommitTs),
    ) {
        (Err(e), _, _, _) => Err(e),
        (_, Err(e), _, _) => Err(e),
        (_, _, Err(e), _) => Err(e),
        (_, _, _, Err(e)) => Err(e),
        (Ok(from), Ok(limit), Ok(start_ts), Ok(commit_ts)) => if ends_early(from, to) {
            Err(UsageError::EndNotAfterStart)
        } else {
            Ok(Action::Range { from, to, limit, cf: named_cf(cf), start_ts, commit_ts })
        },
    }
}

/// What a request for the versions of a key asks for.
pub open spec fn planned_versions<'a>(
    cf: Option<&'a str>,
    key: Option<&'a str>,
    encoded: bool,
    start_ts: Option<&'a str>,
    commit_ts: Option<&'a str>,
) -> Result<Action<'a>, UsageError> {
    match (
        needed(key, Argument::Key),
        optional_number(start_ts, Argument::StartTs),
        optional_number(commit_ts, Argument::CommitTs),
    ) {
        (Err(e), _, _) => Err(e),
        (_, Err(e), _) => Err(e),
        (_, _, Err(e)) => Err(e),
        (Ok(key), Ok(start_ts), Ok(commit_ts)) => Ok(
            Action::Versions { cf: named_cf(cf), key, encoded, start_ts, commit_ts },
        ),
    }
}

/// What a subcommand asks for. Of several faults the first in the order of the arguments counts.
pub open spec fn planned(command: Subcommand<'_>) -> Result<Action<'_>, UsageError> {
    match command {
        Subcommand::Print { cf, key } => match needed(key, Argument::Key) {
            Err(e) => Err(e),
            Ok(key) => Ok(Action::RawValue { cf: named_cf(cf), key }),
        },
        Subcommand::RaftLog { region, index, key } => planned_log(region, index, key),
        Subcommand::RaftRegion { region, skip_tombstone } => match optional_number(
            region,
            Argument::Region,
        ) {
            Err(e) => Err(e),
            Ok(region_id) => Ok(Action::RegionInfo { region_id, skip_tombstone }),
        },
        Subcommand::RaftOther => Err(UsageError::UnknownRaftCommand),
        Subcommand::Size { region, cf } => match optional_number(region, Argument::Region) {
            Err(e) => Err(e),
            Ok(region_id) => Ok(Action::RegionSize { region_id, cf }),
        },
        Subcommand::Scan { from, to, limit, start_ts, commit_ts, cf } => planned_range(
            from,
            to,
            limit,
            start_ts,
            commit_ts,
            cf,
        ),
        Subcommand::Mvcc { cf, key, encoded, start_ts, commit_ts } => planned_versions(
            cf,
            key,
            encoded,
            start_ts,
            commit_ts,
        ),
        Subcommand::Diff { to, region } => match (
            needed_number(region, Argument::Region),
            needed(to, Argument::To),
        ) {
            (Err(e), _) => Err(e),
            (_, Err(e)) => Err(e),
            (Ok(region_id), Ok(to)) => Ok(Action::Compare { region_id, to }),
        },
        Subcommand::Nothing => Ok(Action::Help),
    }
}

fn need(value: Option<&str>, arg: Argument) -> (r: Result<&str, UsageError>)
    ensures
        r == needed(value, arg),
{
    match value {
        None => Err(UsageError::Missing(arg)),
        Some(s) => Ok(s),
    }
}

fn read_optional(value: Option<&str>, arg: Argument) -> (r: Result<Option<u64>, UsageError>)
    ensures
        r == optional_number(value, arg),
{
    match value {
        None => Ok(None),
        Some(s) => match number::parse_u64(s) {
            None => Err(UsageError::NotANumber(arg)),
            Some(n) => Ok(Some(n)),
        },
    }
}

fn read_number(value: Option<&str>, arg: Argument) -> (r: Result<u64, UsageError>)
    ensures
        r == needed_number(value, arg),
{
    match value {
        None => Err(UsageError::Missing(arg)),
        Some(s) => match number::parse_u64(s) {
            None => Err(UsageError::NotANumber(arg)),
            Some(n) => Ok(n),
        },
    }
}

fn cf_or_default<'a>(cf: Option<&'a str>) -> (r: &'a str)
    ensures
        r == named_cf(cf),
{
    match cf {
        None => store::CF_DEFAULT,
        Some(name) => name,
    }
}

fn plan_log<'a>(region: Option<&'a str>, index: Option<&'a str>, key: Option<&'a str>) -> (r: Result<
    Action<'a>,
    UsageError,
>)
    ensures
        r == planned_log(region, index, key),
{
    match key {
        Some(k) => return Ok(Action::LogEntryAt { key: k }),
        None => {},
    }
    match (region, index) {
        (None, _) => return Err(UsageError::Missing(Argument::Region)),
        (_, None) => return Err(UsageError::Missing(Argument::Index)),
        _ => {},
    }
    match (read_number(region, Argument::Region), read_number(index, Argument::Index)) {
        (Err(e), _) => Err(e),
        (_, Err(e)) => Err(e),
        (Ok(region_id), Ok(index)) => Ok(Action::LogEntry { region_id, index }),
    }
}

fn plan_range<'a>(
    from: Option<&'a str>,
    to: Option<&'a str>,
    limit: Option<&'a str>,
    start_ts: Option<&'a str>,
    commit_ts: Option<&'a str>,
    cf: Option<&'a str>,
) -> (r: Result<Action<'a>, UsageError>)
    ensures
        r == planned_range(from, to, limit, start_ts, commit_ts, cf),
{
    let from = match need(from, Argument::From) {
        Err(e) => return Err(e),
        Ok(x) => x,
    };
    let limit = match read_optional(limit, Argument::Limit) {
        Err(e) => return Err(e),
        Ok(x) => x,
    };
    let start_ts = match read_optional(start_ts, Argument::StartTs) {
        Err(e) => return Err(e),
        Ok(x) => x,
    };
    let commit_ts = match read_optional(commit_ts, Argument::CommitTs) {
        Err(e) => return Err(e),
        Ok(x) => x,
    };
    match to {
        None => {},
        Some(end) => {
            if !bytes::is_less(from.as_bytes(), end.as_bytes()) {
                return Err(UsageError::EndNotAfterStart);
            }
        },
    }
    Ok(Action::Range { from, to, limit, cf: cf_or_default(cf), start_ts, commit_ts })
}

fn plan_versions<'a>(
    cf: Option<&'a str>,
    key: Option<&'a str>,
    encoded: bool,
    start_ts: Option<&'a str>,
    commit_ts: Option<&'a str>,
) -> (r: Result<Action<'a>, UsageError>)
    ensures
        r == planned_versions(cf, key, encoded, start_ts, commit_ts),
{
    let key = match need(key, Argument::Key) {
        Err(e) => return Err(e),
        Ok(x) => x,
    };
    let start_ts = match read_optional(start_ts, Argument::StartTs) {
        Err(e) => return Err(e),
        Ok(x) => x,
    };
    let commit_ts = match read_optional(commit_ts, Argument::CommitTs) {
        Err(e) => return Err(e),
        Ok(x) => x,
    };
    Ok(Action::Versions { cf: cf_or_default(cf), key, encoded, start_ts, commit_ts })
}

/// Decides what a subcommand asks for.
pub fn plan<'a>(command: Subcommand<'a>) -> (r: Result<Action<'a>, UsageError>)
    ensures
        r == planned(command),
{
    match command {
        Subcommand::Print { cf, key } => match need(key, Argument::Key) {
            Err(e) => Err(e),
            Ok(key) => Ok(Action::RawValue { cf: cf_or_default(cf), key }),
        },
        Subcommand::RaftLog { region, index, key } => plan_log(region, index, key),
        Subcommand::RaftRegion { region, skip_tombstone } => match read_optional(
            region,
            Argument::Region,
        ) {
            Err(e) => Err(e),
            Ok(region_id) => Ok(Action::RegionInfo { region_id, skip_tombstone }),
        },
        Subcommand::RaftOther => Err(UsageError::UnknownRaftCommand),
        Subcommand::Size { region, cf } => match read_optional(region, Argument::Region) {
            Err(e) => Err(e),
            Ok(region_id) => Ok(Action::RegionSize { region_id, cf }),
        },
        Subcommand::Scan { from, to, limit, start_ts, commit_ts, cf } => plan_range(
            from,
            to,
            limit,
            start_ts,
            commit_ts,
            cf,
        ),
        Subcommand::Mvcc { cf, key, encoded, start_ts, commit_ts } => plan_versions(
            cf,
            key,
            encoded,
            start_ts,
            commit_ts,
        ),
        Subcommand::Diff { to, region } => {
            let region_id = match read_number(region, Argument::Region) {
                Err(e) => return Err(e),
                Ok(n) => n,
            };
            match need(to, Argument::To) {
                Err(e) => Err(e),
                Ok(to) => Ok(Action::Compare { region_id, to }),
            }
        },
        Subcommand::Nothing => Ok(Action::Help),
    }
}

/// The name that stands for all column families with versions.
pub const ALL_FAMILIES: &'static str = "all";

/// What is printed of the versions of a key: a heading, then those of the column family that is
/// named, or of all. The flag says that the name was refused, so that help is due.
pub open spec fn versions_report(
    db: Db,
    cf: Seq<char>,
    key: Seq<char>,
    encoded: bool,
    start_ts: Option<u64>,
    commit_ts: Option<u64>,
) -> Result<(Seq<char>, bool), CtlError> {
    let prefix = mvcc::scan_prefix(key, encoded);
    let heading: Result<Seq<char>, CtlError> = Ok("You are searching Key "@ + key + ": \n"@);
    let of_default = mvcc::default_dump(Some(db.default@), prefix, start_ts);
    let of_lock = mvcc::lock_dump(Some(db.lock@), prefix, start_ts);
    let of_write = mvcc::write_dump(Some(db.write@), prefix, start_ts, commit_ts);
    let printed = if cf == store::CF_DEFAULT@ {
        diff::joined(heading, of_default)
    } else if cf == store::CF_LOCK@ {
        diff::joined(heading, of_lock)
    } else if cf == store::CF_WRITE@ {
        diff::joined(heading, of_write)
    } else if cf == ALL_FAMILIES@ {
        diff::joined(diff::joined(diff::joined(heading, of_default), of_lock), of_write)
    } else {
        Ok(heading->Ok_0 + "The cf: "@ + cf + " cannot be dumped\n"@)
    };
    match printed {
        Err(e) => Err(e),
        Ok(t) => Ok((t, !knows_versions_of(cf))),
    }
}

/// Whether a name is that of a column family with versions, or stands for all of them.
pub open spec fn knows_versions_of(cf: Seq<char>) -> bool {
    cf == store::CF_DEFAULT@ || cf == store::CF_LOCK@ || cf == store::CF_WRITE@ || cf
        == ALL_FAMILIES@
}

/// Prints the versions of a key that a search in the named column families finds.
pub fn dump_versions(
    db: &Db,
    cf: &str,
    key: &str,
    encoded: bool,
    start_ts: Option<u64>,
    commit_ts: Option<u64>,
) -> (r: Result<(String, bool), CtlError>)
    ensures
        match r {
            Ok((t, help)) => versions_report(*db, cf@, key@, encoded, start_ts, commit_ts) == Ok::<
                (Seq<char>, bool),
                CtlError,
            >((t@, help)),
            Err(e) => versions_report(*db, cf@, key@, encoded, start_ts, commit_ts) == Err::<
                (Seq<char>, bool),
                CtlError,
            >(e),
        },
{
    let mut out = String::new();
    out.append("You are searching Key ");
    out.append(key);
    out.append(": \n");
    assert(out@ =~= "You are searching Key "@ + key@ + ": \n"@);
    let in_default = text::same_text(cf, store::CF_DEFAULT);
    let in_lock = text::same_text(cf, store::CF_LOCK);
    let in_write = text::same_text(cf, store::CF_WRITE);
    let in_all = text::same_text(cf, ALL_FAMILIES);
    proof {
        store::cf_names_differ();
        reveal_strlit("all");
        reveal_strlit("default");
        reveal_strlit("lock");
        reveal_strlit("write");
        assert(ALL_FAMILIES@.len() == 3);
    }
    if in_default || in_all {
        match mvcc::dump_mvcc_default(db, key, encoded, start_ts) {
            Err(e) => return Err(e),
            Ok(t) => out.append(t.as_str()),
        }
    }
    if in_lock || in_all {
        match mvcc::dump_mvcc_lock(db, key, encoded, start_ts) {
            Err(e) => return Err(e),
            Ok(t) => out.append(t.as_str()),
        }
    }
    if in_write || in_all {
        match mvcc::dump_mvcc_write(db, key, encoded, start_ts, commit_ts) {
            Err(e) => return Err(e),
            Ok(t) => out.append(t.as_str()),
        }
    }
    let known = in_default || in_lock || in_write || in_all;
    if !known {
        out.append("The cf: ");
        out.append(cf);
        out.append(" cannot be dumped\n");
    }
    Ok((out, !known))
}

/// The key of the entry of a raft log that is asked for.
pub fn log_key(action: Action<'_>) -> (r: Result<Vec<u8>, CtlError>)
    requires
        action is LogEntry || action is LogEntryAt,
    ensures
        match action {
            Action::LogEntryAt { key } => match escape::unescaped(vstd::utf8::encode_utf8(key@)) {
                None => r == Err::<Vec<u8>, CtlError>(CtlError::BadEscape),
                Some(k) => r is Ok && r->Ok_0@ == k,
            },
            Action::LogEntry { region_id, index } => r is Ok && r->Ok_0@ == keys::raft_log_spec(
                region_id,
                index,
            ),
            _ => true,
        },
{
    match action {
        Action::LogEntryAt { key } => match escape::try_unescape(key) {
            None => Err(CtlError::BadEscape),
            Some(k) => Ok(k),
        },
        Action::LogEntry { region_id, index } => Ok(keys::raft_log_key(region_id, index)),
        _ => Ok(Vec::new()),
    }
}

/// A range that is scanned never ends before its start or there, as both are written.
pub proof fn planned_ranges_are_ordered(command: Subcommand<'_>)
    requires
        planned(command) matches Ok(Action::Range { to: Some(_), .. }),
    ensures
        planned(command) matches Ok(Action::Range { from, to: Some(end), .. }) && bytes::less(
            vstd::utf8::encode_utf8(from@),
            vstd::utf8::encode_utf8(end@),
        ),
{
}

/// A search in all column families prints what searches in each of them print, in turn, under one
/// heading.
pub proof fn all_families_are_searched_in_turn(
    db: Db,
    key: Seq<char>,
    encoded: bool,
    start_ts: Option<u64>,
    commit_ts: Option<u64>,
)
    ensures
        ({
            let heading = "You are searching Key "@ + key + ": \n"@;
            let report = |cf: Seq<char>|
                versions_report(db, cf, key, encoded, start_ts, commit_ts);
            let (d, l, w) = (
                report(store::CF_DEFAULT@),
                report(store::CF_LOCK@),
                report(store::CF_WRITE@),
            );
            match report(ALL_FAMILIES@) {
                Err(e) => d == Err::<(Seq<char>, bool), CtlError>(e) || l == Err::<
                    (Seq<char>, bool),
                    CtlError,
                >(e) || w == Err::<(Seq<char>, bool), CtlError>(e),
                Ok((t, _)) => d is Ok && l is Ok && w is Ok && t == d->Ok_0.0 + l->Ok_0.0.skip(
                    heading.len() as int,
                ) + w->Ok_0.0.skip(heading.len() as int),
            }
        }),
{
    store::cf_names_differ();
    reveal_strlit("all");
    reveal_strlit("default");
    reveal_strlit("lock");
    reveal_strlit("write");
    assert(ALL_FAMILIES@.len() == 3);
    let prefix = mvcc::scan_prefix(key, encoded);
    let heading = "You are searching Key "@ + key + ": \n"@;
    match (
        mvcc::default_dump(Some(db.default@), prefix, start_ts),
        mvcc::lock_dump(Some(db.lock@), prefix, start_ts),
        mvcc::write_dump(Some(db.write@), prefix, start_ts, commit_ts),
    ) {
        (Ok(d), Ok(l), Ok(w)) => {
            assert((heading + l).skip(heading.len() as int) =~= l);
            assert((heading + w).skip(heading.len() as int) =~= w);
        },
        _ => {},
    }
}

} // verus!
