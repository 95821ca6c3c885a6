//! What command lines ask for.
use tikv_ctl::command::{log_key, open, plan, Action, Argument, Opening, Subcommand, UsageError};
use tikv_ctl::error::CtlError;
use tikv_ctl::hex::HexError;
use tikv_ctl::keys;

fn converted(o: Result<Opening, UsageError>) -> String {
    match o {
        Ok(Opening::Converted(s)) => s,
        _ => panic!("no conversion"),
    }
}

fn stores(o: Result<Opening, UsageError>) -> (String, String) {
    match o {
        Ok(Opening::Stores { db, raft }) => (db, raft),
        _ => panic!("no stores"),
    }
}

#[test]
fn conversions_come_before_everything() {
    assert_eq!(converted(open(Some("7aff"), None, None, None)), "z\\377\n");
    assert_eq!(converted(open(Some("0x7aff"), None, None, None)), "z\\377\n");
    assert_eq!(converted(open(None, Some("z\\377"), Some("db"), None)), "7AFF\n");
    assert_eq!(
        open(Some("7a"), Some("z"), None, None).err(),
        Some(UsageError::HexAndEscaped)
    );
    assert_eq!(
        open(Some("7"), None, None, None).err(),
        Some(UsageError::Key(CtlError::Hex(HexError::InvalidLength)))
    );
    assert_eq!(
        open(None, Some("\\"), None, None).err(),
        Some(UsageError::Key(CtlError::BadEscape))
    );
}

#[test]
fn the_raft_store_lies_beside_the_data() {
    assert_eq!(
        stores(open(None, None, Some("/data/db/"), None)),
        ("/data/db/".to_owned(), "/data/db/../raft".to_owned())
    );
    assert_eq!(
        stores(open(None, None, Some("/data/db"), Some("/r"))),
        ("/data/db".to_owned(), "/r".to_owned())
    );
    assert_eq!(
        open(None, None, None, Some("/r")).err(),
        Some(UsageError::Missing(Argument::Db))
    );
}

#[test]
fn raw_values() {
    match plan(Subcommand::Print { cf: None, key: Some("k") }) {
        Ok(Action::RawValue { cf, key }) => assert_eq!((cf, key), ("default", "k")),
        _ => panic!("another action"),
    }
    assert_eq!(
        plan(Subcommand::Print { cf: Some("lock"), key: None }).err(),
        Some(UsageError::Missing(Argument::Key))
    );
}

#[test]
fn log_entries() {
    let by_place = plan(Subcommand::RaftLog { region: Some("3"), index: Some("4"), key: None });
    assert_eq!(log_key(by_place.unwrap_or(Action::Help)), Ok(keys::raft_log_key(3, 4)));
    let by_key = plan(Subcommand::RaftLog { region: Some("x"), index: None, key: Some("\\001") });
    assert_eq!(log_key(by_key.unwrap_or(Action::Help)), Ok(vec![1]));
    let broken = plan(Subcommand::RaftLog { region: None, index: None, key: Some("\\") });
    assert_eq!(log_key(broken.unwrap_or(Action::Help)), Err(CtlError::BadEscape));
    let missing = |region, index| plan(Subcommand::RaftLog { region, index, key: None }).err();
    assert_eq!(missing(None, None), Some(UsageError::Missing(Argument::Region)));
    assert_eq!(missing(Some("x"), None), Some(UsageError::Missing(Argument::Index)));
    assert_eq!(missing(Some("x"), Some("y")), Some(UsageError::NotANumber(Argument::Region)));
    assert_eq!(missing(Some("1"), Some("y")), Some(UsageError::NotANumber(Argument::Index)));
}

#[test]
fn regions() {
    match plan(Subcommand::RaftRegion { region: None, skip_tombstone: true }) {
        Ok(Action::RegionInfo { region_id: None, skip_tombstone: true }) => {}
        _ => panic!("another action"),
    }
    match plan(Subcommand::RaftRegion { region: Some("8"), skip_tombstone: false }) {
        Ok(Action::RegionInfo { region_id: Some(8), skip_tombstone: false }) => {}
        _ => panic!("another action"),
    }
    match plan(Subcommand::Size { region: Some("8"), cf: Some("lock") }) {
        Ok(Action::RegionSize { region_id: Some(8), cf: Some("lock") }) => {}
        _ => panic!("another action"),
    }
    match plan(Subcommand::Size { region: None, cf: None }) {
        Ok(Action::RegionSize { region_id: None, cf: None }) => {}
        _ => panic!("another action"),
    }
    assert_eq!(
        plan(Subcommand::Size { region: Some("all"), cf: None }).err(),
        Some(UsageError::NotANumber(Argument::Region))
    );
    assert_eq!(plan(Subcommand::RaftOther).err(), Some(UsageError::UnknownRaftCommand));
}

fn scan<'a>(from: Option<&'a str>, to: Option<&'a str>, numbers: [&'a str; 3]) -> Subcommand<'a> {
    Subcommand::Scan {
        from,
        to,
        limit: Some(numbers[0]),
        start_ts: Some(numbers[1]),
        commit_ts: Some(numbers[2]),
        cf: None,
    }
}

#[test]
fn ranges() {
    match plan(scan(Some("a"), Some("b"), ["1", "2", "3"])) {
        Ok(Action::Range { from, to, limit, cf, start_ts, commit_ts }) => {
            assert_eq!((from, to, cf), ("a", Some("b"), "default"));
            assert_eq!((limit, start_ts, commit_ts), (Some(1), Some(2), Some(3)));
        }
        _ => panic!("another action"),
    }
    let fault = |from, to, numbers| plan(scan(from, to, numbers)).err();
    assert_eq!(fault(None, None, ["", "", ""]), Some(UsageError::Missing(Argument::From)));
    assert_eq!(
        fault(Some("b"), Some("a"), ["", "", ""]),
        Some(UsageError::NotANumber(Argument::Limit))
    );
    assert_eq!(
        fault(Some("b"), Some("a"), ["1", "", ""]),
        Some(UsageError::NotANumber(Argument::StartTs))
    );
    assert_eq!(
        fault(Some("b"), Some("a"), ["1", "1", ""]),
        Some(UsageError::NotANumber(Argument::CommitTs))
    );
    assert_eq!(fault(Some("b"), Some("a"), ["1", "1", "1"]), Some(UsageError::EndNotAfterStart));
    assert_eq!(fault(Some("b"), Some("b"), ["1", "1", "1"]), Some(UsageError::EndNotAfterStart));
    assert_eq!(fault(Some("b"), None, ["1", "1", "1"]), None);
}

/// Bounds are compared as they are written, not as the keys that they stand for.
#[test]
fn bounds_are_compared_as_written() {
    assert_eq!(
        plan(scan(Some("a"), Some("\\377"), ["1", "1", "1"])).err(),
        Some(UsageError::EndNotAfterStart)
    );
}

#[test]
fn versions_and_comparisons() {
    match plan(Subcommand::Mvcc {
        cf: Some("all"),
        key: Some("k"),
        encoded: true,
        start_ts: None,
        commit_ts: Some("9"),
    }) {
        Ok(Action::Versions { cf, key, encoded, start_ts, commit_ts }) => {
            assert_eq!((cf, key, encoded), ("all", "k", true));
            assert_eq!((start_ts, commit_ts), (None, Some(9)));
        }
        _ => panic!("another action"),
    }
    assert_eq!(
        plan(Subcommand::Mvcc {
            cf: None,
            key: None,
            encoded: false,
            start_ts: Some("x"),
            commit_ts: None
        })
        .err(),
        Some(UsageError::Missing(Argument::Key))
    );
    match plan(Subcommand::Diff { to: Some("/other"), region: Some("2") }) {
        Ok(Action::Compare { region_id, to }) => assert_eq!((region_id, to), (2, "/other")),
        _ => panic!("another action"),
    }
    let fault = |to, region| plan(Subcommand::Diff { to, region }).err();
    assert_eq!(fault(None, None), Some(UsageError::Missing(Argument::Region)));
    assert_eq!(fault(None, Some("x")), Some(UsageError::NotANumber(Argument::Region)));
    assert_eq!(fault(None, Some("1")), Some(UsageError::Missing(Argument::To)));
    match plan(Subcommand::Nothing) {
        Ok(Action::Help) => {}
        _ => panic!("another action"),
    }
}
