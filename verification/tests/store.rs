use kvs::codec::{encode, Command};
use kvs::dir::LogDir;
use kvs::error::KvsError;
use kvs::store::{load, value_of, KvStore};
use kvs::index::{CommandPos, Index};
use kvs::writer::COMPACTION_THRESHOLD;

fn s(text: &str) -> String {
    text.to_string()
}

fn put(key: &str, value: &str) -> Vec<u8> {
    encode(&Command::Put { key: s(key), value: s(value) }).unwrap()
}

fn rm(key: &str) -> Vec<u8> {
    encode(&Command::Remove { key: s(key) }).unwrap()
}

fn dir_of(logs: &[(u64, &[u8])]) -> LogDir {
    let mut dir = LogDir::new();
    for (gen, data) in logs {
        dir.create_log(*gen);
        dir.append(*gen, data);
    }
    dir
}

fn total_size(store: &KvStore) -> usize {
    let dir = store.dir();
    (0..dir.len()).map(|i| dir.data_at(i).len()).sum()
}

fn reopen(store: KvStore) -> KvStore {
    KvStore::open(store.into_dir()).unwrap()
}

#[test]
fn a_value_that_was_set_is_found() {
    let mut store = KvStore::open(LogDir::new()).unwrap();
    store.set(s("key1"), s("value1")).unwrap();
    assert_eq!(store.get(s("key1")).unwrap(), Some(s("value1")));
    assert_eq!(store.get(s("missing")).unwrap(), None);
}

#[test]
fn the_last_value_wins_and_a_removed_key_is_gone() {
    let mut store = KvStore::new();
    store.set(s("k"), s("v1")).unwrap();
    store.set(s("k"), s("v2")).unwrap();
    assert_eq!(store.get(s("k")).unwrap(), Some(s("v2")));
    store.remove(s("k")).unwrap();
    assert_eq!(store.get(s("k")).unwrap(), None);
    assert!(matches!(store.remove(s("k")), Err(KvsError::KeyNotFound)));
    assert_eq!(store.get(s("k")).unwrap(), None);
}

#[test]
fn a_second_remove_fails_and_changes_nothing() {
    let mut store = KvStore::new();
    store.set(s("a"), s("1")).unwrap();
    store.set(s("b"), s("2")).unwrap();
    store.remove(s("a")).unwrap();
    let size = total_size(&store);
    let stale = store.uncompacted();
    assert!(matches!(store.remove(s("a")), Err(KvsError::KeyNotFound)));
    assert_eq!(total_size(&store), size);
    assert_eq!(store.uncompacted(), stale);
    assert_eq!(store.get(s("b")).unwrap(), Some(s("2")));
    let mut store = reopen(store);
    assert_eq!(store.get(s("a")).unwrap(), None);
    assert_eq!(store.get(s("b")).unwrap(), Some(s("2")));
}

#[test]
fn removing_from_an_empty_store_writes_nothing() {
    let mut store = KvStore::new();
    assert!(matches!(store.remove(s("k")), Err(KvsError::KeyNotFound)));
    assert_eq!(total_size(&store), 0);
}

#[test]
fn a_new_store_appends_to_generation_one() {
    let store = KvStore::new();
    assert_eq!(store.current_gen(), 1);
    assert_eq!(store.safe_point(), 0);
    assert_eq!(store.uncompacted(), 0);
    assert_eq!(store.dir().generations(), vec![1]);
    assert_eq!(total_size(&store), 0);
}

#[test]
fn records_are_appended_to_the_current_log() {
    let mut store = KvStore::new();
    store.set(s("k"), s("v1")).unwrap();
    store.set(s("j"), s("")).unwrap();
    store.remove(s("k")).unwrap();
    let mut expected = put("k", "v1");
    expected.extend(put("j", ""));
    expected.extend(rm("k"));
    assert_eq!(store.dir().data_at(0), &expected[..]);
    assert_eq!(store.dir().generations(), vec![1]);
}

#[test]
fn stale_bytes_are_counted() {
    let mut store = KvStore::new();
    store.set(s("k"), s("v1")).unwrap();
    assert_eq!(store.uncompacted(), 0);
    store.set(s("other"), s("x")).unwrap();
    assert_eq!(store.uncompacted(), 0);
    store.set(s("k"), s("v2")).unwrap();
    assert_eq!(store.uncompacted(), 32);
    store.set(s("k"), s("longer")).unwrap();
    assert_eq!(store.uncompacted(), 64);
    store.remove(s("k")).unwrap();
    assert_eq!(store.uncompacted(), 64 + 36 + 22);
    store.set(s("k"), s("back")).unwrap();
    assert_eq!(store.uncompacted(), 64 + 36 + 22);
}

#[test]
fn every_byte_is_live_or_stale() {
    let mut store = KvStore::new();
    let mut model: std::collections::BTreeMap<String, String> = std::collections::BTreeMap::new();
    let live = |model: &std::collections::BTreeMap<String, String>| -> u64 {
        model.iter().map(|(k, v)| put(k, v).len() as u64).sum()
    };
    for step in 0..500u32 {
        let key = format!("k{}", (step * 7) % 13);
        if step % 4 == 3 {
            if store.remove(key.clone()).is_ok() {
                model.remove(&key);
            }
        } else {
            let value = "v".repeat((step % 50) as usize);
            store.set(key.clone(), value.clone()).unwrap();
            model.insert(key, value);
        }
        assert_eq!(total_size(&store) as u64, live(&model) + store.uncompacted());
        if step % 100 == 99 {
            assert!(store.compact());
            assert_eq!(store.uncompacted(), 0);
            assert_eq!(total_size(&store) as u64, live(&model));
            store = reopen(store);
            assert_eq!(total_size(&store) as u64, live(&model));
        }
    }
}

#[test]
fn opening_counts_the_same_stale_bytes() {
    let mut store = KvStore::new();
    store.set(s("k"), s("v1")).unwrap();
    store.set(s("k"), s("v2")).unwrap();
    store.remove(s("k")).unwrap();
    store.set(s("j"), s("1")).unwrap();
    let stale = store.uncompacted();
    assert_eq!(stale, 32 + 32 + 22);
    let mut store = reopen(store);
    assert_eq!(store.uncompacted(), stale);
    store.set(s("j"), s("2")).unwrap();
    assert_eq!(store.uncompacted(), stale + 31);
    let store = reopen(store);
    assert_eq!(store.uncompacted(), stale + 31);
}

#[test]
fn opening_creates_the_next_generation() {
    let dir = dir_of(&[(3, b""), (7, b"")]);
    let store = KvStore::open(dir).unwrap();
    assert_eq!(store.current_gen(), 8);
    assert_eq!(store.dir().generations(), vec![3, 7, 8]);
    assert_eq!(store.safe_point(), 0);
    let store = reopen(store);
    assert_eq!(store.current_gen(), 9);
    assert_eq!(store.dir().generations(), vec![3, 7, 8, 9]);
}

#[test]
fn opening_fails_when_no_generation_is_left() {
    let dir = dir_of(&[(1, b""), (u64::MAX, b"")]);
    match KvStore::open(dir) {
        Err(KvsError::IoErr(_)) => {}
        other => panic!("{:?}", other.map(|_| ())),
    }
    let dir = dir_of(&[(u64::MAX - 1, b"")]);
    assert_eq!(KvStore::open(dir).unwrap().current_gen(), u64::MAX);
}

#[test]
fn opening_reads_the_logs_oldest_first() {
    let mut newer = put("a", "new");
    newer.extend(rm("b"));
    let mut older = put("a", "old");
    older.extend(put("b", "old"));
    older.extend(put("c", "old"));
    let dir = dir_of(&[(5, &newer), (2, &older)]);
    let mut store = KvStore::open(dir).unwrap();
    assert_eq!(store.get(s("a")).unwrap(), Some(s("new")));
    assert_eq!(store.get(s("b")).unwrap(), None);
    assert_eq!(store.get(s("c")).unwrap(), Some(s("old")));
}

#[test]
fn opening_opens_the_logs_it_read() {
    let dir = dir_of(&[(1, &put("a", "1")), (2, &put("b", "2"))]);
    let store = KvStore::open(dir).unwrap();
    assert!(store.reader_has_open(1));
    assert!(store.reader_has_open(2));
    assert!(!store.reader_has_open(3));
}

#[test]
fn white_space_between_records_is_passed_over() {
    let mut log = b"\n".to_vec();
    log.extend(put("a", "1"));
    log.extend(b" \r\n\t");
    log.extend(put("b", "2"));
    log.extend(b"\n");
    let mut store = KvStore::open(dir_of(&[(1, &log)])).unwrap();
    assert_eq!(store.get(s("a")).unwrap(), Some(s("1")));
    assert_eq!(store.get(s("b")).unwrap(), Some(s("2")));
}

#[test]
fn reading_a_log_stops_at_what_is_no_record() {
    let mut log = put("a", "1");
    log.extend(b"garbage");
    log.extend(put("b", "2"));
    let mut store = KvStore::open(dir_of(&[(1, &log), (2, &put("c", "3"))])).unwrap();
    assert_eq!(store.get(s("a")).unwrap(), Some(s("1")));
    assert_eq!(store.get(s("b")).unwrap(), None);
    assert_eq!(store.get(s("c")).unwrap(), Some(s("3")));
}

#[test]
fn a_truncated_log_recovers_its_whole_records() {
    let records = vec![put("a", "1"), put("b", "2"), rm("a"), put("c", "3"), put("b", "4")];
    let log: Vec<u8> = records.concat();
    let mut ends = Vec::new();
    let mut end = 0;
    for record in &records {
        end += record.len();
        ends.push(end);
    }
    for cut in 0..=log.len() {
        let whole = ends.iter().filter(|end| **end <= cut).count();
        let mut store = KvStore::open(dir_of(&[(1, &log[..cut])])).unwrap();
        let a = if whole >= 1 && whole < 3 { Some(s("1")) } else { None };
        let b = if whole >= 5 {
            Some(s("4"))
        } else if whole >= 2 {
            Some(s("2"))
        } else {
            None
        };
        let c = if whole >= 4 { Some(s("3")) } else { None };
        assert_eq!(store.get(s("a")).unwrap(), a, "cut at {}", cut);
        assert_eq!(store.get(s("b")).unwrap(), b, "cut at {}", cut);
        assert_eq!(store.get(s("c")).unwrap(), c, "cut at {}", cut);
        store.set(s("d"), s("5")).unwrap();
        let mut store = reopen(store);
        assert_eq!(store.get(s("b")).unwrap(), b, "cut at {}", cut);
        assert_eq!(store.get(s("d")).unwrap(), Some(s("5")), "cut at {}", cut);
    }
}

#[test]
fn load_reads_one_log_into_the_index() {
    let mut log = put("a", "1");
    let first = log.len() as u64;
    log.extend(put("b", "22"));
    let second = log.len() as u64;
    log.extend(put("a", "333"));
    let third = log.len() as u64;
    log.extend(rm("b"));
    let fourth = log.len() as u64;
    log.extend(b"{\"Set\"");
    let mut index = Index::new();
    index.insert(s("z"), CommandPos { gen: 1, pos: 0, len: 5 });
    let stale = load(4, &log, &mut index);
    assert_eq!(stale, first + (second - first) + (fourth - third));
    assert_eq!(index.get("a"), Some(CommandPos { gen: 4, pos: second, len: third - second }));
    assert_eq!(index.get("b"), None);
    assert_eq!(index.get("z"), Some(CommandPos { gen: 1, pos: 0, len: 5 }));
    assert_eq!(load(5, b"", &mut index), 0);
    assert_eq!(load(5, &rm("z"), &mut index), 5 + 22);
    assert_eq!(index.get("z"), None);
}

#[test]
fn values_with_special_characters_come_back() {
    let mut store = KvStore::new();
    let values = [
        "",
        "\"",
        "\\",
        "\"\\\"",
        "line\nfeed",
        "\u{0}\u{1}\u{1f}\u{7f}",
        "tab\tcr\r",
        "}}{\"Set\":",
        "ünïcödé 🦀 値",
    ];
    for (i, value) in values.iter().enumerate() {
        store.set(format!("key{}", i), s(value)).unwrap();
        store.set(s(value), format!("value{}", i)).unwrap();
    }
    for round in 0..2 {
        for (i, value) in values.iter().enumerate() {
            assert_eq!(store.get(format!("key{}", i)).unwrap(), Some(s(value)), "{}", round);
            assert_eq!(store.get(s(value)).unwrap(), Some(format!("value{}", i)), "{}", round);
        }
        store = reopen(store);
    }
}

#[test]
fn compaction_keeps_the_live_records_only() {
    let mut store = KvStore::new();
    store.set(s("a"), s("1")).unwrap();
    store.set(s("b"), s("2")).unwrap();
    store.set(s("a"), s("3")).unwrap();
    store.set(s("c"), s("4")).unwrap();
    store.remove(s("b")).unwrap();
    assert!(store.compact());
    assert_eq!(store.dir().generations(), vec![2, 3]);
    assert_eq!(store.current_gen(), 3);
    assert_eq!(store.safe_point(), 2);
    assert_eq!(store.uncompacted(), 0);
    let mut live = put("a", "3");
    live.extend(put("c", "4"));
    assert_eq!(store.dir().data_at(0), &live[..]);
    assert_eq!(store.dir().data_at(1), b"");
    assert_eq!(store.get(s("a")).unwrap(), Some(s("3")));
    assert_eq!(store.get(s("b")).unwrap(), None);
    assert_eq!(store.get(s("c")).unwrap(), Some(s("4")));
    store.set(s("b"), s("5")).unwrap();
    assert_eq!(store.dir().data_at(0), &live[..]);
    assert_eq!(store.dir().data_at(1), &put("b", "5")[..]);
}

#[test]
fn compaction_between_operations_changes_no_answer() {
    let mut plain = KvStore::new();
    let mut compacting = KvStore::new();
    let keys = ["a", "b", "c", "d"];
    for step in 0..200u32 {
        let key = s(keys[(step as usize * 7 + 3) % keys.len()]);
        match step % 5 {
            0 | 1 | 3 => {
                let value = format!("value-{}", step);
                assert_eq!(
                    plain.set(key.clone(), value.clone()).is_ok(),
                    compacting.set(key, value).is_ok()
                );
            }
            2 => {
                let a = plain.remove(key.clone());
                let b = compacting.remove(key);
                assert_eq!(a.is_ok(), b.is_ok());
                assert_eq!(
                    matches!(a, Err(KvsError::KeyNotFound)),
                    matches!(b, Err(KvsError::KeyNotFound))
                );
            }
            _ => {}
        }
        assert!(compacting.compact());
        for key in keys {
            assert_eq!(plain.get(s(key)).unwrap(), compacting.get(s(key)).unwrap());
        }
    }
    assert_eq!(compacting.current_gen(), 1 + 2 * 200);
    assert_eq!(compacting.safe_point(), 2 * 200);
    assert_eq!(compacting.dir().generations(), vec![2 * 200, 2 * 200 + 1]);
}

#[test]
fn compaction_of_an_empty_store_leaves_two_empty_logs() {
    let mut store = KvStore::new();
    assert!(store.compact());
    assert_eq!(store.dir().generations(), vec![2, 3]);
    assert_eq!(total_size(&store), 0);
    assert_eq!(store.get(s("k")).unwrap(), None);
}

#[test]
fn compaction_is_passed_over_when_no_generation_is_left() {
    let log = put("k", "v");
    let dir = dir_of(&[(u64::MAX - 2, &log)]);
    let mut store = KvStore::open(dir).unwrap();
    assert_eq!(store.current_gen(), u64::MAX - 1);
    assert!(!store.compact());
    assert_eq!(store.dir().generations(), vec![u64::MAX - 2, u64::MAX - 1]);
    assert_eq!(store.safe_point(), 0);
    assert_eq!(store.get(s("k")).unwrap(), Some(s("v")));
    let dir = dir_of(&[(u64::MAX - 3, &log)]);
    let mut store = KvStore::open(dir).unwrap();
    assert!(store.compact());
    assert_eq!(store.dir().generations(), vec![u64::MAX - 1, u64::MAX]);
    assert_eq!(store.get(s("k")).unwrap(), Some(s("v")));
}

#[test]
fn the_store_compacts_above_the_threshold() {
    assert_eq!(COMPACTION_THRESHOLD, 1024 * 1024);
    let value = "x".repeat(1000);
    let record = put("key", &value).len() as u64;
    assert_eq!(record, 1032);
    let mut store = KvStore::new();
    let mut sets = 0u64;
    while store.current_gen() == 1 {
        let stale = store.uncompacted();
        assert_eq!(stale, sets.saturating_sub(1) * record);
        assert!(stale <= COMPACTION_THRESHOLD);
        store.set(s("key"), value.clone()).unwrap();
        sets += 1;
    }
    assert_eq!((sets - 2) * record, 1016 * record);
    assert!((sets - 1) * record > COMPACTION_THRESHOLD);
    assert_eq!(store.current_gen(), 3);
    assert_eq!(store.safe_point(), 2);
    assert_eq!(store.uncompacted(), 0);
    assert_eq!(store.dir().generations(), vec![2, 3]);
    assert_eq!(total_size(&store) as u64, record);
    assert_eq!(store.get(s("key")).unwrap(), Some(value));
}

#[test]
fn a_remove_can_bring_the_store_to_compact() {
    let value = "x".repeat(COMPACTION_THRESHOLD as usize);
    let mut store = KvStore::new();
    store.set(s("big"), value).unwrap();
    store.set(s("small"), s("1")).unwrap();
    assert_eq!(store.current_gen(), 1);
    store.remove(s("big")).unwrap();
    assert_eq!(store.current_gen(), 3);
    assert_eq!(store.uncompacted(), 0);
    assert_eq!(store.dir().data_at(0), &put("small", "1")[..]);
    assert_eq!(store.get(s("big")).unwrap(), None);
    assert_eq!(store.get(s("small")).unwrap(), Some(s("1")));
}

#[test]
fn the_reader_closes_the_logs_below_the_safe_point() {
    let dir = dir_of(&[(1, &put("a", "1")), (2, &put("b", "2"))]);
    let mut store = KvStore::open(dir).unwrap();
    assert_eq!(store.get(s("a")).unwrap(), Some(s("1")));
    assert!(store.reader_has_open(1));
    assert!(store.compact());
    assert_eq!(store.safe_point(), 4);
    assert!(store.reader_has_open(1));
    assert!(store.reader_has_open(2));
    assert_eq!(store.get(s("missing")).unwrap(), None);
    assert!(store.reader_has_open(1));
    assert_eq!(store.get(s("a")).unwrap(), Some(s("1")));
    assert!(!store.reader_has_open(1));
    assert!(!store.reader_has_open(2));
    assert!(store.reader_has_open(4));
    assert!(!store.reader_has_open(5));
    store.set(s("c"), s("3")).unwrap();
    assert_eq!(store.get(s("c")).unwrap(), Some(s("3")));
    assert!(store.reader_has_open(5));
}

#[test]
fn readers_of_their_own_read_the_same_values() {
    let dir = dir_of(&[(1, &put("a", "1")), (2, &put("b", "2"))]);
    let mut store = KvStore::open(dir).unwrap();
    store.set(s("c"), s("3")).unwrap();
    let mut one = store.reader();
    let mut other = store.reader();
    assert!(!one.has_open(1));
    assert_eq!(store.get_with(&mut one, s("a")).unwrap(), Some(s("1")));
    assert_eq!(store.get_with(&mut other, s("c")).unwrap(), Some(s("3")));
    assert_eq!(store.get_with(&mut other, s("missing")).unwrap(), None);
    assert!(one.has_open(1));
    assert!(!one.has_open(3));
    assert!(other.has_open(3));
    assert!(!other.has_open(1));
    assert!(store.compact());
    for key in ["a", "b", "c", "d"] {
        let through_one = store.get_with(&mut one, s(key)).unwrap();
        assert_eq!(through_one, store.get_with(&mut other, s(key)).unwrap());
        assert_eq!(through_one, store.get(s(key)).unwrap());
    }
    assert!(!one.has_open(1));
    assert!(one.has_open(4));
    assert!(!other.has_open(3));
}

#[test]
fn eight_readers_follow_one_writer() {
    let mut store = KvStore::new();
    let mut readers: Vec<_> = (0..8).map(|_| store.reader()).collect();
    let mut model: std::collections::HashMap<String, String> = std::collections::HashMap::new();
    let mut seed: u64 = 0x2545_f491_4f6c_dd1d;
    let mut next = move || {
        seed ^= seed << 13;
        seed ^= seed >> 7;
        seed ^= seed << 17;
        seed
    };
    let filler = "y".repeat(2000);
    for step in 0..10_000u32 {
        let key = format!("key{}", next() % 100);
        match next() % 3 {
            0 => {
                let value = format!("{}-{}", step, filler);
                store.set(key.clone(), value.clone()).unwrap();
                model.insert(key, value);
            }
            1 => {
                let value = format!("short-{}", step);
                store.set(key.clone(), value.clone()).unwrap();
                model.insert(key, value);
            }
            _ => match store.remove(key.clone()) {
                Ok(()) => assert!(model.remove(&key).is_some()),
                Err(KvsError::KeyNotFound) => assert!(!model.contains_key(&key)),
                Err(e) => panic!("{:?}", e),
            },
        }
        for reader in readers.iter_mut() {
            let key = format!("key{}", next() % 100);
            assert_eq!(store.get_with(reader, key.clone()).unwrap(), model.get(&key).cloned());
        }
    }
    assert!(store.current_gen() > 1);
    let safe_point = store.safe_point();
    assert_eq!(store.dir().generations(), vec![safe_point, safe_point + 1]);
    for reader in readers.iter_mut() {
        for key in model.keys() {
            assert_eq!(store.get_with(reader, key.clone()).unwrap(), model.get(key).cloned());
        }
        for gen in 0..safe_point {
            assert!(!reader.has_open(gen));
        }
    }
}

#[test]
fn ten_thousand_keys_survive_a_reopen() {
    let mut store = KvStore::new();
    let value = |i: u32| format!("{:0100}", i);
    for i in 0..10_000u32 {
        store.set(format!("key{}", i), value(i)).unwrap();
    }
    let mut store = reopen(store);
    for i in 0..10_000u32 {
        assert_eq!(store.get(format!("key{}", i)).unwrap(), Some(value(i)));
    }
    assert!(total_size(&store) >= 1024 * 1024);
    assert_eq!(store.uncompacted(), 0);
}

#[test]
fn one_key_written_again_and_again_stays_small() {
    let mut store = KvStore::new();
    let mut largest = 0;
    for i in 0..100_000u32 {
        store.set(s("key"), format!("value-{}", i)).unwrap();
        largest = largest.max(total_size(&store));
    }
    assert_eq!(store.get(s("key")).unwrap(), Some(s("value-99999")));
    assert!(store.current_gen() > 1);
    assert!(largest as u64 <= COMPACTION_THRESHOLD + 2 * 64);
    assert!(total_size(&store) as u64 <= COMPACTION_THRESHOLD + 2 * 64);
    let mut store = reopen(store);
    assert_eq!(store.get(s("key")).unwrap(), Some(s("value-99999")));
}

#[test]
fn the_value_of_a_put_is_its_value() {
    assert_eq!(value_of(Command::Put { key: s("k"), value: s("v") }).unwrap(), "v");
    assert!(matches!(
        value_of(Command::Remove { key: s("k") }),
        Err(KvsError::UnexpectedCommandErr)
    ));
}

#[test]
fn errors_describe_themselves() {
    assert_eq!(KvsError::KeyNotFound.message(), "Key not found");
    assert_eq!(KvsError::UnexpectedCommandErr.message(), "Unexpected command");
    assert_eq!(KvsError::Utf8Err.message(), "utf8 conversion error");
    assert_eq!(KvsError::SledErr(s("io")).message(), "Sled err");
    assert_eq!(KvsError::IoErr(s("no such file")).message(), "no such file");
    assert_eq!(KvsError::SerdeErr(s("EOF while parsing")).message(), "EOF while parsing");
}
