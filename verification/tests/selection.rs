use kvs::dir::{FileOp, LogDir};
use kvs::error::KvsError;
use kvs::selection::{engine_name, marker_name, parse_engine, select_engine, Engine};
use kvs::store::KvStore;

#[test]
fn engines_go_by_their_names() {
    assert_eq!(marker_name(), "engine");
    assert_eq!(engine_name(Engine::Kvs), "kvs");
    assert_eq!(engine_name(Engine::Sled), "sled");
    assert_eq!(parse_engine("kvs"), Some(Engine::Kvs));
    assert_eq!(parse_engine("sled"), Some(Engine::Sled));
    for text in ["", "KVS", "kvs ", " sled", "sled\n", "rocks", "kv"] {
        assert_eq!(parse_engine(text), None, "{:?}", text);
    }
}

#[test]
fn a_directory_is_opened_with_the_engine_that_wrote_it() {
    assert_eq!(select_engine(None, None).unwrap(), Engine::Kvs);
    assert_eq!(select_engine(None, Some(Engine::Sled)).unwrap(), Engine::Sled);
    assert_eq!(select_engine(None, Some(Engine::Kvs)).unwrap(), Engine::Kvs);
    assert_eq!(select_engine(Some(Engine::Sled), None).unwrap(), Engine::Sled);
    assert_eq!(select_engine(Some(Engine::Kvs), None).unwrap(), Engine::Kvs);
    assert_eq!(select_engine(Some(Engine::Kvs), Some(Engine::Kvs)).unwrap(), Engine::Kvs);
    assert_eq!(select_engine(Some(Engine::Sled), Some(Engine::Sled)).unwrap(), Engine::Sled);
}

#[test]
fn another_engine_than_the_directory_s_is_refused() {
    assert!(matches!(
        select_engine(Some(Engine::Kvs), Some(Engine::Sled)),
        Err(KvsError::EngineMismatch)
    ));
    assert!(matches!(
        select_engine(Some(Engine::Sled), Some(Engine::Kvs)),
        Err(KvsError::EngineMismatch)
    ));
    assert_eq!(KvsError::EngineMismatch.message(), "Engine mismatch");
}

fn replay(disk: &mut LogDir, ops: Vec<FileOp>) {
    for op in ops {
        match op {
            FileOp::Create { gen } => {
                disk.create_log(gen);
            }
            FileOp::Append { gen, bytes } => {
                assert!(disk.append(gen, &bytes));
            }
            FileOp::Delete { gen } => {
                assert!(disk.delete_log(gen));
            }
        }
    }
}

fn same(a: &LogDir, b: &LogDir) -> bool {
    a.generations() == b.generations() && (0..a.len()).all(|i| a.data_at(i) == b.data_at(i))
}

#[test]
fn a_directory_without_a_journal_notes_nothing() {
    let mut dir = LogDir::new();
    dir.create_log(1);
    dir.append(1, b"abc");
    dir.delete_log(1);
    assert_eq!(dir.take_journal(), Vec::<FileOp>::new());
}

#[test]
fn the_journal_tells_the_changes_in_their_order() {
    let mut dir = LogDir::new();
    dir.create_log(1);
    dir.append(1, b"old");
    dir.start_journal();
    dir.create_log(2);
    dir.create_log(1);
    dir.append(2, b"abc");
    dir.append(9, b"lost");
    dir.append(1, b"");
    dir.create_log(5);
    dir.delete_log(7);
    dir.delete_below(3);
    dir.delete_log(5);
    assert_eq!(
        dir.take_journal(),
        vec![
            FileOp::Create { gen: 2 },
            FileOp::Create { gen: 1 },
            FileOp::Append { gen: 2, bytes: b"abc".to_vec() },
            FileOp::Append { gen: 1, bytes: Vec::new() },
            FileOp::Create { gen: 5 },
            FileOp::Delete { gen: 1 },
            FileOp::Delete { gen: 2 },
            FileOp::Delete { gen: 5 },
        ]
    );
    assert_eq!(dir.take_journal(), Vec::<FileOp>::new());
    dir.create_log(4);
    assert_eq!(dir.take_journal(), vec![FileOp::Create { gen: 4 }]);
}

#[test]
fn the_journal_of_a_store_rebuilds_its_directory() {
    let mut disk = LogDir::new();
    disk.create_log(3);
    disk.append(3, b"{\"Set\":{\"key\":\"a\",\"value\":\"on disk\"}}");
    let mut dir = LogDir::new();
    dir.create_log(3);
    dir.append(3, disk.data_at(0));
    dir.start_journal();
    let mut store = KvStore::open(dir).unwrap();
    replay(&mut disk, store.take_journal());
    assert!(same(&disk, store.dir()));
    assert_eq!(disk.generations(), vec![3, 4]);
    let big = "x".repeat(300_000);
    for step in 0..40u32 {
        let key = format!("key{}", step % 7);
        if step % 5 == 4 {
            let _ = store.remove(key);
        } else if step % 3 == 0 {
            store.set(key, big.clone()).unwrap();
        } else {
            store.set(key, format!("value{}", step)).unwrap();
        }
        if step % 4 == 1 {
            let _ = store.get(format!("key{}", step % 3)).unwrap();
        }
        if step == 17 {
            assert!(store.compact());
        }
        replay(&mut disk, store.take_journal());
        assert!(same(&disk, store.dir()), "after step {}", step);
    }
    assert!(store.current_gen() > 6);
    assert_eq!(store.take_journal(), Vec::<FileOp>::new());
    let mut reopened = KvStore::open(disk).unwrap();
    for i in 0..7 {
        let key = format!("key{}", i);
        assert_eq!(reopened.get(key.clone()).unwrap(), store.get(key).unwrap());
    }
    assert_eq!(reopened.get("a".to_string()).unwrap(), Some("on disk".to_string()));
}
