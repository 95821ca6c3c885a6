//! Searching for the versions of keys.
use tikv_ctl::codec::{encode_bytes, encode_u64_desc};
use tikv_ctl::command::dump_versions;
use tikv_ctl::error::CtlError;
use tikv_ctl::escape::escape;
use tikv_ctl::keys;
use tikv_ctl::keys::KeyError;
use tikv_ctl::mvcc::{
    dump_mvcc_default, dump_mvcc_lock, dump_mvcc_write, gen_mvcc_iter, try_gen_mvcc_iter,
    MvccDeserializable, MvccKv,
};
use tikv_ctl::store::{Db, Row, Table, CF_DEFAULT, CF_LOCK, CF_WRITE};
use tikv_ctl::types::{Key, Lock, LockType, MvccError, Write, WriteType};

const PREFIX: &'static [u8] = b"k";

fn table(mut rows: Vec<(Vec<u8>, Vec<u8>)>) -> Table {
    rows.sort();
    Table::new(rows.into_iter().map(|(key, value)| Row { key, value }).collect()).unwrap()
}

fn db(
    default: Vec<(Vec<u8>, Vec<u8>)>,
    lock: Vec<(Vec<u8>, Vec<u8>)>,
    write: Vec<(Vec<u8>, Vec<u8>)>,
) -> Db {
    Db { default: table(default), lock: table(lock), write: table(write), raft: table(vec![]) }
}

#[test]
fn test_ctl_mvcc() {
    let test_data = vec![(PREFIX, b"v", 5), (PREFIX, b"x", 10), (PREFIX, b"y", 15)];
    let default_rows: Vec<_> = test_data
        .iter()
        .map(|&(k, v, ts)| {
            let key = keys::data_key(Key::from_raw(k).append_ts(ts).encoded().as_slice());
            (key, v.to_vec())
        })
        .collect();
    let test_data_lock = vec![
        (b"kv", LockType::Put, b"v", 5),
        (b"kx", LockType::Lock, b"x", 10),
        (b"kz", LockType::Delete, b"y", 15),
    ];
    let lock_keys: Vec<_> = test_data_lock
        .iter()
        .map(|data| {
            let encoded = encode_bytes(&data.0[..]);
            keys::data_key(encoded.as_slice())
        })
        .collect();
    let lock_value: Vec<_> = test_data_lock
        .iter()
        .map(|data| Lock::new(data.1, data.2.to_vec(), data.3, 0, None).to_bytes())
        .collect();
    let test_data_write = vec![
        (PREFIX, WriteType::Delete, 5, 10),
        (PREFIX, WriteType::Lock, 15, 20),
        (PREFIX, WriteType::Put, 25, 30),
        (PREFIX, WriteType::Rollback, 35, 40),
    ];
    let write_keys: Vec<_> = test_data_write
        .iter()
        .map(|data| {
            let encoded = encode_bytes(&data.0[..]);
            let mut d = keys::data_key(encoded.as_slice());
            encode_u64_desc(&mut d, data.3);
            d
        })
        .collect();
    let write_value: Vec<_> = test_data_write
        .iter()
        .map(|data| Write::new(data.1, data.2, None).to_bytes())
        .collect();
    let db = db(
        default_rows,
        lock_keys.into_iter().zip(lock_value).collect(),
        write_keys.into_iter().zip(write_value).collect(),
    );

    let kvs_gen: Vec<MvccKv<Vec<u8>>> = gen_mvcc_iter(&db, "k", false, CF_DEFAULT);
    assert_eq!(kvs_gen, gen_mvcc_iter(&db, &escape(&encode_bytes(b"k")), true, CF_DEFAULT));
    let mut test_iter = test_data.clone();
    assert_eq!(test_iter.len(), kvs_gen.len());
    for kv in kvs_gen {
        let ts = kv.key.decode_ts().unwrap();
        let key = kv.key.truncate_ts().unwrap().raw().unwrap();
        let value = kv.value.as_slice();
        test_iter
            .retain(|&s| !(&s.0[..] == key.as_slice() && &s.1[..] == value && s.2 == ts));
    }
    assert_eq!(test_iter.len(), 0);

    // Test MVCC Lock
    fn assert_iter(kvs_gen: &[MvccKv<Lock>], test_data: (&[u8; 2], LockType, &[u8; 1], u64)) {
        assert_eq!(kvs_gen.len(), 1);
        let kv = &kvs_gen[0];
        let lock = &kv.value;
        let key = kv.key.raw().unwrap();
        assert!(
            &key[..] == test_data.0
                && test_data.1 == lock.lock_type
                && test_data.2 == lock.primary.as_slice()
                && test_data.3 == lock.ts
        );
    }
    assert_iter(&gen_mvcc_iter(&db, "kv", false, CF_LOCK), test_data_lock[0]);
    assert_iter(&gen_mvcc_iter(&db, "kx", false, CF_LOCK), test_data_lock[1]);
    assert_iter(&gen_mvcc_iter(&db, "kz", false, CF_LOCK), test_data_lock[2]);

    // Test MVCC Write
    let kvs_gen: Vec<MvccKv<Write>> = gen_mvcc_iter(&db, "k", false, CF_WRITE);
    assert_eq!(kvs_gen, gen_mvcc_iter(&db, &escape(&encode_bytes(b"k")), true, CF_WRITE));
    let mut test_iter = test_data_write.clone();
    assert_eq!(test_iter.len(), kvs_gen.len());
    for kv in kvs_gen {
        let write = &kv.value;
        let ts = kv.key.decode_ts().unwrap();
        let key = kv.key.truncate_ts().unwrap().raw().unwrap();
        test_iter.retain(|&s| {
            !(&s.0[..] == key.as_slice()
                && s.1 == write.write_type
                && s.2 == write.start_ts
                && s.3 == ts)
        });
    }
    assert_eq!(test_iter.len(), 0);
}

fn stored(raw: &[u8], ts: u64) -> Vec<u8> {
    keys::data_key(Key::from_raw(raw).append_ts(ts).encoded())
}

fn small() -> Db {
    db(
        vec![
            (stored(b"a", 7), b"zero".to_vec()),
            (stored(b"k", 5), b"one".to_vec()),
            (stored(b"k", 9), b"t\x00o".to_vec()),
            (stored(b"ka", 5), b"other".to_vec()),
        ],
        vec![(
            keys::data_key(&encode_bytes(b"k")),
            Lock::new(LockType::Delete, b"pk".to_vec(), 11, 3, Some(b"s".to_vec())).to_bytes(),
        )],
        vec![
            (stored(b"k", 6), Write::new(WriteType::Put, 5, Some(b"hi".to_vec())).to_bytes()),
            (stored(b"k", 12), Write::new(WriteType::Rollback, 12, None).to_bytes()),
        ],
    )
}

#[test]
fn versions_come_newest_first_and_of_one_key_only() {
    let kvs: Vec<MvccKv<Vec<u8>>> = gen_mvcc_iter(&small(), "k", false, CF_DEFAULT);
    let found: Vec<(u64, Vec<u8>)> =
        kvs.into_iter().map(|kv| (kv.key.decode_ts().unwrap(), kv.value)).collect();
    assert_eq!(found, vec![(9, b"t\x00o".to_vec()), (5, b"one".to_vec())]);
}

#[test]
fn a_search_that_finds_nothing_is_empty() {
    let kvs: Vec<MvccKv<Vec<u8>>> = gen_mvcc_iter(&small(), "zz", false, CF_DEFAULT);
    assert_eq!(kvs.len(), 0);
    let kvs: Vec<MvccKv<Vec<u8>>> = gen_mvcc_iter(&small(), "b", false, CF_DEFAULT);
    assert_eq!(kvs.len(), 0);
}

#[test]
fn an_encoded_prefix_may_be_cut_short() {
    let kvs: Vec<MvccKv<Vec<u8>>> = gen_mvcc_iter(&small(), "k", true, CF_DEFAULT);
    assert_eq!(kvs.len(), 3);
}

const K_ESCAPED: &str = "k\\\\000\\\\000\\\\000\\\\000\\\\000\\\\000\\\\000\\\\370";

#[test]
fn plain_versions_are_printed() {
    let all = dump_mvcc_default(&small(), "k", false, None).unwrap();
    let newer = format!("Key: \"{}\"\nValue: \"t\\\\000o\"\nStart_ts: 9\n\n", K_ESCAPED);
    let older = format!("Key: \"{}\"\nValue: \"one\"\nStart_ts: 5\n\n", K_ESCAPED);
    assert_eq!(all, format!("{}{}", newer, older));
    assert_eq!(dump_mvcc_default(&small(), "k", false, Some(5)).unwrap(), older);
    assert_eq!(dump_mvcc_default(&small(), "k", false, Some(6)).unwrap(), "");
}

#[test]
fn locks_are_printed() {
    let text = format!("Key: \"{}\"\nPrimary: \"pk\"\nType: Delete\nStart_ts: 11\n\n", K_ESCAPED);
    assert_eq!(dump_mvcc_lock(&small(), "k", false, None).unwrap(), text);
    assert_eq!(dump_mvcc_lock(&small(), "k", false, Some(11)).unwrap(), text);
    assert_eq!(dump_mvcc_lock(&small(), "k", false, Some(12)).unwrap(), "");
}

#[test]
fn writes_are_printed() {
    let put = format!(
        "Key: \"{}\"\nType: Put\nStart_ts: 5\nCommit_ts: 6\nShort value: {:?}\n\n",
        K_ESCAPED,
        Some(b"hi".to_vec())
    );
    let back = format!(
        "Key: \"{}\"\nType: Rollback\nStart_ts: 12\nCommit_ts: 12\nShort value: {:?}\n\n",
        K_ESCAPED,
        None::<Vec<u8>>
    );
    let db = small();
    assert_eq!(
        dump_mvcc_write(&db, "k", false, None, None).unwrap(),
        format!("{}{}", back, put)
    );
    assert_eq!(dump_mvcc_write(&db, "k", false, Some(5), None).unwrap(), put);
    assert_eq!(dump_mvcc_write(&db, "k", false, None, Some(12)).unwrap(), back);
    assert_eq!(dump_mvcc_write(&db, "k", false, Some(5), Some(12)).unwrap(), "");
}

#[test]
fn all_families_under_one_heading() {
    let db = small();
    let (d, _) = dump_versions(&db, "default", "k", false, None, None).unwrap();
    let (l, _) = dump_versions(&db, "lock", "k", false, None, None).unwrap();
    let (w, _) = dump_versions(&db, "write", "k", false, None, None).unwrap();
    let heading = "You are searching Key k: \n";
    assert!(d.starts_with(heading) && l.starts_with(heading) && w.starts_with(heading));
    assert_eq!(
        dump_versions(&db, "all", "k", false, None, None).unwrap(),
        (format!("{}{}{}", d, &l[heading.len()..], &w[heading.len()..]), false)
    );
    assert_eq!(
        dump_versions(&db, "raft", "k", false, None, None).unwrap(),
        ("You are searching Key k: \nThe cf: raft cannot be dumped\n".to_owned(), true)
    );
}

#[test]
fn searches_report_what_they_cannot_read() {
    let found: Result<Vec<MvccKv<Vec<u8>>>, _> =
        try_gen_mvcc_iter(&small(), "k\\", false, CF_DEFAULT);
    assert_eq!(found, Err(CtlError::BadEscape));
    let found: Result<Vec<MvccKv<Vec<u8>>>, _> = try_gen_mvcc_iter(&small(), "k", false, "more");
    assert_eq!(found, Err(CtlError::UnknownCf));
    let broken = db(
        vec![(b"{".to_vec(), b"1".to_vec())],
        vec![(keys::data_key(&encode_bytes(b"k")), b"?".to_vec())],
        vec![(keys::data_key(&encode_bytes(b"k")), vec![])],
    );
    let found: Result<Vec<MvccKv<Vec<u8>>>, _> = try_gen_mvcc_iter(&broken, "k", false, CF_DEFAULT);
    assert_eq!(found, Err(CtlError::Key(KeyError::NotDataKey)));
    let found: Result<Vec<MvccKv<Lock>>, _> = try_gen_mvcc_iter(&broken, "k", false, CF_LOCK);
    assert_eq!(found, Err(CtlError::Mvcc(MvccError::BadFormatLock)));
    let found: Result<Vec<MvccKv<Write>>, _> = try_gen_mvcc_iter(&broken, "k", false, CF_WRITE);
    assert_eq!(found, Err(CtlError::Mvcc(MvccError::BadFormatWrite)));
}

/// The first record behind the last with the prefix is read too.
#[test]
fn a_search_reads_one_record_too_many() {
    let db = db(
        vec![],
        vec![
            (
                keys::data_key(&encode_bytes(b"k")),
                Lock::new(LockType::Put, b"p".to_vec(), 1, 0, None).to_bytes(),
            ),
            (keys::data_key(&encode_bytes(b"z")), vec![]),
        ],
        vec![],
    );
    let found: Result<Vec<MvccKv<Lock>>, _> = try_gen_mvcc_iter(&db, "k", false, CF_LOCK);
    assert_eq!(found, Err(CtlError::Mvcc(MvccError::BadFormatLock)));
}

#[test]
fn values_are_read_from_bytes() {
    let w = Write::new(WriteType::Put, 300, Some(b"v".to_vec()));
    assert_eq!(w.to_bytes(), vec![b'P', 0xac, 0x02, b'v', 1, b'v']);
    assert_eq!(Write::deserialize(&w.to_bytes()), w);
    let l = Lock::new(LockType::Lock, b"pk".to_vec(), 1, 128, None);
    assert_eq!(l.to_bytes(), vec![b'L', 4, b'p', b'k', 1, 0x80, 0x01]);
    assert_eq!(Lock::deserialize(&l.to_bytes()), l);
    assert_eq!(Vec::<u8>::deserialize(b"raw"), b"raw".to_vec());
    assert_eq!(Write::try_deserialize(b"X\x01"), Err(MvccError::BadFormatWrite));
    assert_eq!(Lock::try_deserialize(b"X\x01"), Err(MvccError::BadFormatLock));
    assert_eq!(Write::try_deserialize(b"P\x01v\x05a"), Err(MvccError::BadShortValue));
}
