//! Examining stores: ranges, regions, sizes and differences.
use tikv_ctl::codec::CodecError;
use tikv_ctl::diff::{dump_diff, push_left, Advance, DiffWalk, Side};
use tikv_ctl::error::CtlError;
use tikv_ctl::escape::escape;
use tikv_ctl::keys;
use tikv_ctl::keys::KeyError;
use tikv_ctl::range::{dump_range, parse_ts_key_from_key, RangeScan};
use tikv_ctl::raw::{dump_raft_log_entry, dump_raw_value, log_entry_bytes, print_raw_value};
use tikv_ctl::region::{
    add_region_size, apply_state_bytes, dump_all_region_info, dump_all_region_size,
    dump_region_info, dump_region_size, get_all_region_ids, get_region_size, print_all_sizes,
    raft_state_bytes, region_state_bytes, RegionInfo, RegionLocalState,
};
use tikv_ctl::store::{Db, Row, Table};
use tikv_ctl::types::{Key, Lock, LockType, MvccError, Write, WriteType};

type Rows<'a> = Vec<(&'a [u8], &'a [u8])>;

fn table(mut rows: Rows) -> Table {
    rows.sort();
    let rows = rows
        .into_iter()
        .map(|(k, v)| Row { key: k.to_vec(), value: v.to_vec() })
        .collect();
    Table::new(rows).unwrap()
}

fn db(default: Rows, lock: Rows, write: Rows, raft: Rows) -> Db {
    Db { default: table(default), lock: table(lock), write: table(write), raft: table(raft) }
}

fn region(tombstone: bool, start: &[u8], end: &[u8], text: &str) -> RegionLocalState {
    RegionLocalState {
        tombstone,
        start_key: start.to_vec(),
        end_key: end.to_vec(),
        text: text.to_owned(),
    }
}

#[test]
fn tables_are_ascending() {
    let row = |k: &[u8]| Row { key: k.to_vec(), value: vec![] };
    assert!(Table::new(vec![]).is_some());
    assert!(Table::new(vec![row(b"a"), row(b"b")]).is_some());
    assert!(Table::new(vec![row(b"b"), row(b"a")]).is_none());
    assert!(Table::new(vec![row(b"a"), row(b"a")]).is_none());
}

#[test]
fn tables_are_searched() {
    let t = table(vec![(b"a", b"1"), (b"c", b"2"), (b"e", b"3")]);
    assert_eq!(t.seek(b"a"), 0);
    assert_eq!(t.seek(b"b"), 1);
    assert_eq!(t.seek(b"f"), 3);
    assert_eq!(t.scan(b"b", b"e"), (1, 2));
    assert_eq!(t.scan(b"a", b"z"), (0, 3));
    assert_eq!(t.get(b"c"), Some(&b"2"[..]));
    assert_eq!(t.get(b"d"), None);
}

#[test]
fn raw_values_are_printed() {
    let db = db(vec![(b"k\xff", b"v\x00")], vec![], vec![], vec![(b"k", b"r")]);
    assert_eq!(dump_raw_value(&db, "default", "k\\377"), Ok("value: v\\000\n".to_owned()));
    assert_eq!(dump_raw_value(&db, "raft", "k"), Ok("value: r\n".to_owned()));
    assert_eq!(dump_raw_value(&db, "write", "k"), Ok("value: None\n".to_owned()));
    assert_eq!(dump_raw_value(&db, "nope", "k"), Err(CtlError::UnknownCf));
    assert_eq!(dump_raw_value(&db, "write", "\\"), Err(CtlError::BadEscape));
    assert_eq!(print_raw_value(Some(b"")), "value: \n");
}

#[test]
fn raft_log_entries_are_printed() {
    let key = keys::raft_log_key(2, 300);
    assert_eq!(
        dump_raft_log_entry(&key, "index: 300", b"data", "header {}"),
        Ok(format!(
            "idx_key: {}\nregion: 2\nlog index: 300\nentry index: 300\nmsg len: 4\nheader {{}}\n",
            escape(&key)
        ))
    );
    assert_eq!(
        dump_raft_log_entry(b"k", "", b"", ""),
        Err(CtlError::Key(KeyError::NotRaftLogKey))
    );
}

#[test]
fn ranges_without_timestamps() {
    let db = db(vec![], vec![], vec![], vec![(b"a", b"1"), (b"b", b"22"), (b"c", b"\x00")]);
    let a = "key: a, value len: 1\n1\n";
    let b = "key: b, value len: 2\n22\n";
    let c = "key: c, value len: 1\n\\000\n";
    let dump = |from, to, limit| dump_range(&db, from, to, limit, "raft", Some(1), Some(1));
    assert_eq!(dump("a", None, None).unwrap(), format!("{}{}{}", a, b, c));
    assert_eq!(dump("a", Some("c"), None).unwrap(), format!("{}{}", a, b));
    assert_eq!(dump("aa", None, None).unwrap(), format!("{}{}", b, c));
    assert_eq!(dump("a", None, Some(1)).unwrap(), a);
    assert_eq!(dump("a", None, Some(0)).unwrap(), "");
    assert_eq!(dump("\\", None, Some(0)), Err(CtlError::BadEscape));
    assert_eq!(dump("a", Some("\\"), Some(0)), Err(CtlError::BadEscape));
    assert_eq!(
        dump_range(&db, "a", None, Some(0), "nope", None, None),
        Ok(String::new())
    );
    assert_eq!(
        dump_range(&db, "a", None, None, "nope", None, None),
        Err(CtlError::UnknownCf)
    );
}

fn version(raw: &[u8], ts: u64) -> Vec<u8> {
    keys::data_key(Key::from_raw(raw).append_ts(ts).encoded())
}

#[test]
fn ranges_with_filters() {
    let (ts, key) = parse_ts_key_from_key(version(b"k", 20)).unwrap();
    assert_eq!((ts, key), (20, keys::data_key(Key::from_raw(b"k").encoded())));
    assert_eq!(parse_ts_key_from_key(b"ABC".to_vec()), Err(CodecError::KeyLength));

    let (old, new) = (version(b"k", 20), version(b"k", 30));
    let write = Write::new(WriteType::Lock, 15, None).to_bytes();
    let lock = Lock::new(LockType::Put, b"p".to_vec(), 6, 0, None).to_bytes();
    let db = db(
        vec![(&old, b"v"), (&new, b"w")],
        vec![(b"zl", &lock)],
        vec![(&old, &write)],
        vec![],
    );
    let old_line = format!("key: {}, value len: 1\nv\n", escape(&old));
    let new_line = format!("key: {}, value len: 1\nw\n", escape(&new));
    let plain = |s, c| dump_range(&db, "z", None, None, "default", s, c).unwrap();
    assert_eq!(plain(Some(20), None), old_line);
    assert_eq!(plain(Some(30), Some(1)), new_line);
    assert_eq!(plain(None, Some(1)), format!("{}{}", new_line, old_line));
    assert_eq!(plain(Some(21), None), "");
    let write_line = format!("key: {}, value len: 2\n{}\n", escape(&old), escape(&write));
    let writes = |s, c| dump_range(&db, "z", None, None, "write", s, c).unwrap();
    assert_eq!(writes(Some(15), Some(20)), write_line);
    assert_eq!(writes(None, None), write_line);
    assert_eq!(writes(Some(15), Some(21)), "");
    assert_eq!(writes(Some(16), Some(20)), "");
    let locks = |s| dump_range(&db, "z", None, None, "lock", s, None).unwrap();
    assert_eq!(locks(Some(6)), format!("key: zl, value len: {}\n{}\n", lock.len(), escape(&lock)));
    assert_eq!(locks(Some(5)), "");
}

#[test]
fn ranges_report_what_they_cannot_read() {
    let db = db(vec![], vec![(b"a", b"")], vec![(b"a", b"")], vec![]);
    let dump = |cf| dump_range(&db, "a", None, None, cf, None, None);
    assert_eq!(dump("lock"), Err(CtlError::Mvcc(MvccError::BadFormatLock)));
    assert_eq!(dump("write"), Err(CtlError::Mvcc(MvccError::BadFormatWrite)));
}

#[test]
fn keys_without_a_timestamp_pass_where_no_filter_asks_for_one() {
    let write = Write::new(WriteType::Put, 1, None).to_bytes();
    let db = db(vec![(b"\0\0", b"1")], vec![], vec![(b"\0\0", &write)], vec![]);
    let dump = |cf, s, c| dump_range(&db, "", None, None, cf, s, c).unwrap();
    let line = "key: \\000\\000, value len: 1\n1\n";
    assert_eq!(dump("default", None, None), line);
    assert_eq!(dump("default", None, Some(5)), line);
    assert_eq!(dump("default", Some(5), None), "");
    let line = format!("key: \\000\\000, value len: 2\n{}\n", escape(&write));
    assert_eq!(dump("write", None, None), line);
    assert_eq!(dump("write", Some(1), None), line);
    assert_eq!(dump("write", Some(1), Some(5)), "");
}

#[test]
fn states_and_entries_are_looked_up_where_they_are_stored() {
    let (state, apply) = (keys::region_state_key(4), keys::apply_state_key(4));
    let (raft, entry) = (keys::raft_state_key(4), keys::raft_log_key(4, 9));
    let rows = |k1, v1, k2, v2| -> Rows { vec![(k1, v1), (k2, v2)] };
    let data = db(
        rows(&state, b"wrong", &apply, b"wrong"),
        vec![],
        vec![],
        rows(&state, b"state", &apply, b"apply"),
    );
    assert_eq!(region_state_bytes(&data, 4), Some(&b"state"[..]));
    assert_eq!(apply_state_bytes(&data, 4), Some(&b"apply"[..]));
    assert_eq!(region_state_bytes(&data, 5), None);
    assert_eq!(apply_state_bytes(&data, 5), None);
    let logs = db(
        rows(&raft, b"raft", &entry, b"entry"),
        vec![],
        vec![],
        rows(&raft, b"wrong", &entry, b"wrong"),
    );
    assert_eq!(raft_state_bytes(&logs, 4), Some(&b"raft"[..]));
    assert_eq!(raft_state_bytes(&logs, 5), None);
    assert_eq!(log_entry_bytes(&logs, &entry), Ok(&b"entry"[..]));
    assert_eq!(log_entry_bytes(&logs, &keys::raft_log_key(4, 8)), Err(CtlError::NoLogEntry));
    assert_eq!(
        log_entry_bytes(&logs, b"k"),
        Err(CtlError::Key(KeyError::NotRaftLogKey))
    );
}

#[test]
fn values_do_not_matter_for_differences() {
    let with = |v: &[u8]| db(vec![], vec![(b"z1", v), (b"z2", v)], vec![], vec![(b"z", v)]);
    let other = db(vec![], vec![(b"z2", b""), (b"z3", b"")], vec![], vec![]);
    let r = region(false, b"", b"", "");
    assert_eq!(
        dump_diff(&with(b"a"), &other, 1, &r, &r, "", ""),
        dump_diff(&with(b"bb"), &other, 1, &r, &r, "", "")
    );
}

#[test]
fn a_scan_of_rows_stops_at_its_limit() {
    let mut scan = RangeScan::new("raft", Some(2), None, None);
    let mut out = String::new();
    assert!(scan.goes_on());
    assert_eq!(scan.visit(&mut out, b"a", b""), Ok(true));
    assert_eq!(scan.visit(&mut out, b"b", b""), Ok(false));
    assert!(!scan.goes_on());
    assert_eq!(out, "key: a, value len: 0\n\nkey: b, value len: 0\n\n");
}

#[test]
fn regions_are_listed() {
    let mut rows: Vec<Vec<u8>> = vec![keys::region_state_key(9), keys::region_state_key(2)];
    rows.push(vec![1, 3, 0, 0, 0, 0, 0, 0, 0, 5, 2]);
    rows.push(keys::apply_state_key(7));
    let with = |rows: &Vec<Vec<u8>>| {
        db(vec![], vec![], vec![], rows.iter().map(|k| (&k[..], &b""[..])).collect())
    };
    assert_eq!(get_all_region_ids(&with(&rows)), Ok(vec![2, 9]));
    rows.push(vec![1, 3, 0]);
    assert_eq!(get_all_region_ids(&with(&rows)), Err(CtlError::Key(KeyError::MetaLength)));
}

fn sized() -> Db {
    let metas: Vec<Vec<u8>> = (1..4).map(keys::region_state_key).collect();
    let mut raft: Rows = vec![(b"za", b"1234567")];
    raft.extend(metas.iter().map(|k| (&k[..], &b"?"[..])));
    db(
        vec![(b"za", b"12345"), (b"zb", b"123"), (b"{x", b"1")],
        vec![(b"za", b"1")],
        vec![(b"zaa", b"12")],
        raft,
    )
}

#[test]
fn sizes_of_regions() {
    let db = sized();
    let r = region(false, b"a", b"b", "");
    assert_eq!(get_region_size(&db, &r, None), Ok(8));
    assert_eq!(get_region_size(&db, &r, Some("default")), Ok(5));
    assert_eq!(get_region_size(&db, &r, Some("write")), Ok(2));
    assert_eq!(get_region_size(&db, &r, Some("lock")), Ok(1));
    assert_eq!(get_region_size(&db, &r, Some("raft")), Ok(7));
    assert_eq!(get_region_size(&db, &region(false, b"", b"", ""), None), Ok(11));
    assert_eq!(get_region_size(&db, &r, Some("x")), Err(CtlError::UnknownCf));
    assert_eq!(
        dump_region_size(&db, 4, &r, None),
        Ok("region id: 4\nregion size: 8\n".to_owned())
    );
    assert_eq!(
        dump_region_size(&db, 4, &r, Some("lock")),
        Ok("region id: 4\ncf_name: lock\nregion size: 1\n".to_owned())
    );
}

fn copy(r: &(u64, RegionLocalState)) -> (u64, RegionLocalState) {
    (r.0, region(r.1.tombstone, &r.1.start_key, &r.1.end_key, &r.1.text))
}

#[test]
fn the_largest_region_comes_first() {
    let regions = vec![
        (1, region(false, b"b", b"c", "")),
        (2, region(false, b"a", b"b", "")),
        (3, region(false, b"b", b"c", "")),
    ];
    assert_eq!(
        dump_all_region_size(&sized(), &regions, None),
        Ok(
            "total region number: 3\ntotal region size: 14\n\
             region_id: 2\nregion size: 8\n\
             region_id: 3\nregion size: 3\n\
             region_id: 1\nregion size: 3\n"
                .to_owned()
        )
    );
    assert_eq!(
        dump_all_region_size(&sized(), &regions, Some("x")),
        Err(CtlError::UnknownCf)
    );
    assert_eq!(
        dump_all_region_size(&sized(), &regions[..2].iter().map(copy).collect(), None),
        Err(CtlError::NoRegionState(3))
    );
    let mut sizes = vec![(9, 9)];
    assert_eq!(add_region_size(&mut sizes, &sized(), 2, &regions, None), Ok(()));
    assert_eq!(
        add_region_size(&mut sizes, &sized(), 7, &regions, None),
        Err(CtlError::NoRegionState(7))
    );
    assert_eq!(sizes, vec![(9, 9), (8, 2)]);
    assert_eq!(print_all_sizes(vec![(u64::MAX, 1), (1, 2)]), Err(CtlError::SizeOverflow));
    assert_eq!(
        print_all_sizes(vec![]),
        Ok("total region number: 0\ntotal region size: 0\n".to_owned())
    );
}

#[test]
fn states_of_regions() {
    let gone = RegionInfo {
        region_id: 1,
        region_state: Some(region(true, b"", b"", "state: Tombstone")),
        raft_state: None,
        apply_state: None,
    };
    let here = RegionInfo {
        region_id: 2,
        region_state: Some(region(false, b"", b"", "region {}")),
        raft_state: Some("last_index: 3".to_owned()),
        apply_state: Some("applied_index: 4".to_owned()),
    };
    let unknown =
        RegionInfo { region_id: 3, region_state: None, raft_state: None, apply_state: None };
    let text = |id: u64, state: &str, raft: &str, apply: &str| {
        format!(
            "region state key: {}\nregion state: {}\nraft state key: {}\nraft state: {}\n\
             apply state key: {}\napply state: {}\n",
            escape(&keys::region_state_key(id)),
            state,
            escape(&keys::raft_state_key(id)),
            raft,
            escape(&keys::apply_state_key(id)),
            apply
        )
    };
    let gone_text = text(1, "Some(state: Tombstone)", "None", "None");
    let here_text =
        text(2, "Some(region {})", "Some(last_index: 3)", "Some(applied_index: 4)");
    let unknown_text = text(3, "None", "None", "None");
    assert_eq!(dump_region_info(&gone, false), gone_text);
    assert_eq!(dump_region_info(&gone, true), "");
    assert_eq!(dump_region_info(&here, true), here_text);
    assert_eq!(dump_region_info(&unknown, true), unknown_text);
    let infos = vec![here, gone];
    assert_eq!(
        dump_all_region_info(&sized(), &infos, false),
        Ok(format!("{}{}{}", gone_text, here_text, unknown_text))
    );
    assert_eq!(
        dump_all_region_info(&sized(), &infos, true),
        Ok(format!("{}{}", here_text, unknown_text))
    );
    let broken = db(vec![], vec![], vec![], vec![(b"\x01\x03", b"")]);
    assert_eq!(
        dump_all_region_info(&broken, &infos, true),
        Err(CtlError::Key(KeyError::MetaLength))
    );
}

const TS: &[u8] = b"\xff\xff\xff\xff\xff\xff\xff\xfe";

fn at(key: &[u8]) -> Vec<u8> {
    let mut k = key.to_vec();
    k.extend_from_slice(TS);
    k
}

#[test]
fn differences_between_stores() {
    let (a, b, c) = (at(b"za"), at(b"zb"), at(b"zc"));
    let db1 = db(
        vec![(&a, b"1"), (&b, b"1"), (&c, b"1")],
        vec![(b"z1", b""), (b"z3", b"")],
        vec![],
        vec![],
    );
    let db2 = db(vec![(&a, b"2"), (&c, b"2")], vec![(b"z2", b"")], vec![], vec![]);
    let header = "region id: 1\ndb1 region state: r1\ndb2 region state: r2\n\
                  db1 apply state: a1\ndb2 apply state: a2\n";
    let r1 = region(false, b"", b"", "r1");
    let r2 = region(false, b"x", b"y", "r2");
    assert_eq!(
        dump_diff(&db1, &db2, 1, &r1, &r2, "a1", "a2").unwrap(),
        format!(
            "{}cf: default\nonly db1 has : {}\ntimestamp: 1\nhead have 1 same keys\n\
             cf: lock\nonly db1 has : z1\nonly db2 has : z2\nhead have 0 same keys\n\
             iter2 invalid but iter1 valid!\nonly db1 has : \"z3\"\n\
             cf: write\nhead have 0 same keys\ncf: raft\nhead have 0 same keys\n",
            header,
            escape(&b)
        )
    );
    assert_eq!(
        dump_diff(&db1, &db1, 1, &r1, &r2, "a1", "a2").unwrap(),
        format!(
            "{}cf: default\nhead have 3 same keys\ncf: lock\nhead have 2 same keys\n\
             cf: write\nhead have 0 same keys\ncf: raft\nhead have 0 same keys\n",
            header
        )
    );
}

#[test]
fn a_difference_without_a_timestamp_is_an_error() {
    let db1 = db(vec![(b"z", b"")], vec![], vec![], vec![]);
    let db2 = db(vec![(b"za", b"")], vec![], vec![], vec![]);
    let r = region(false, b"", b"", "");
    assert_eq!(
        dump_diff(&db1, &db2, 1, &r, &r, "", ""),
        Err(CtlError::Codec(CodecError::KeyLength))
    );
}

#[test]
fn what_is_left_of_the_second_store() {
    let db1 = db(vec![], vec![(b"z1", b"")], vec![], vec![]);
    let db2 = db(vec![], vec![(b"z1", b""), (b"z2", b""), (b"z\x00", b"")], vec![], vec![]);
    let r = region(false, b"", b"", "");
    let text = dump_diff(&db1, &db2, 1, &r, &r, "", "").unwrap();
    assert!(text.contains(
        "cf: lock\nonly db2 has : z\\000\nhead have 0 same keys\n\
         iter1 invalid but iter2 valid!\nonly db2 has : \"z2\"\n"
    ));
    assert_eq!(db1, db1);
}

#[test]
fn two_walks_advance_together() {
    let mut walk = DiffWalk::new("lock");
    let mut out = String::new();
    assert_eq!(walk.step(&mut out, b"a", b"a"), Ok(Advance::Both));
    assert_eq!(walk.step(&mut out, b"b", b"c"), Ok(Advance::First));
    assert_eq!(walk.step(&mut out, b"d", b"c"), Ok(Advance::Second));
    assert_eq!(walk.step(&mut out, b"d", b"d"), Ok(Advance::Both));
    walk.end(&mut out, true, false);
    push_left(&mut out, Side::First, b"e\n");
    assert_eq!(
        out,
        "only db1 has : b\nonly db2 has : c\nhead have 1 same keys\n\
         iter2 invalid but iter1 valid!\nonly db1 has : \"e\\\\n\"\n"
    );
}

#[test]
fn differences_are_the_same_from_both_sides() {
    let db1 = db(vec![], vec![(b"z1", b""), (b"z2", b""), (b"z5", b"")], vec![], vec![]);
    let db2 = db(vec![], vec![(b"z1", b""), (b"z3", b""), (b"z4", b"")], vec![], vec![]);
    let r = region(false, b"", b"", "");
    let there = dump_diff(&db1, &db2, 1, &r, &r, "", "").unwrap();
    let back = dump_diff(&db2, &db1, 1, &r, &r, "", "").unwrap();
    assert!(there.contains("only db1 has : z2\nonly db2 has : z3\nonly db2 has : z4\n"));
    assert!(back.contains("only db2 has : z2\nonly db1 has : z3\nonly db1 has : z4\n"));
    assert!(there.contains("head have 1 same keys\niter2 invalid but iter1 valid!\n"));
    assert!(back.contains("head have 1 same keys\niter1 invalid but iter2 valid!\n"));
}

#[test]
fn the_order_of_regions_does_not_matter_for_their_sizes() {
    let report = print_all_sizes(vec![(5, 1), (7, 2), (5, 3)]);
    assert_eq!(report, print_all_sizes(vec![(5, 3), (5, 1), (7, 2)]));
}

#[test]
fn a_smaller_limit_shows_the_beginning() {
    let db = db(vec![], vec![], vec![], vec![(b"a", b"1"), (b"b", b"2"), (b"c", b"3")]);
    let dump = |limit| dump_range(&db, "a", None, Some(limit), "raft", None, None).unwrap();
    for limit in 0..3 {
        assert!(dump(limit + 1).starts_with(&dump(limit)));
        assert!(dump(limit + 1).len() > dump(limit).len());
    }
    assert_eq!(dump(4), dump(3));
}
