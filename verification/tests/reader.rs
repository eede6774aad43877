use kvs::codec::{encode, same_command, Command};
use kvs::dir::LogDir;
use kvs::error::KvsError;
use kvs::index::CommandPos;
use kvs::reader::{decode_one, KvStoreReader};

fn put(key: &str, value: &str) -> Command {
    Command::Put { key: key.to_string(), value: value.to_string() }
}

fn dir_with(gens: &[u64]) -> (LogDir, Vec<u8>) {
    let record = encode(&put("k", "v")).unwrap();
    let mut dir = LogDir::new();
    for gen in gens {
        dir.create_log(*gen);
        dir.append(*gen, b"  ");
        dir.append(*gen, &record);
    }
    (dir, record)
}

#[test]
fn a_new_reader_has_nothing_open() {
    let reader = KvStoreReader::new();
    for gen in [0, 1, 2, u64::MAX] {
        assert!(!reader.has_open(gen));
    }
}

#[test]
fn reading_opens_the_log() {
    let (dir, record) = dir_with(&[1, 2, 3]);
    let mut reader = KvStoreReader::new();
    let at = CommandPos { gen: 2, pos: 2, len: record.len() as u64 };
    assert_eq!(reader.read_and(&dir, 0, at).unwrap(), &record[..]);
    assert!(reader.has_open(2));
    assert!(!reader.has_open(1));
    assert!(!reader.has_open(3));
    let cmd = reader.read_command(&dir, 0, CommandPos { gen: 3, pos: 0, len: at.len + 2 }).unwrap();
    assert!(same_command(&cmd, &put("k", "v")));
    assert!(reader.has_open(2));
    assert!(reader.has_open(3));
}

#[test]
fn stale_logs_are_closed_before_a_read() {
    let (dir, record) = dir_with(&[1, 2, 3, 4]);
    let mut reader = KvStoreReader::new();
    for gen in [3, 1, 4, 2] {
        reader.open_log(gen);
    }
    let at = CommandPos { gen: 4, pos: 2, len: record.len() as u64 };
    reader.read_command(&dir, 3, at).unwrap();
    assert!(!reader.has_open(1));
    assert!(!reader.has_open(2));
    assert!(reader.has_open(3));
    assert!(reader.has_open(4));
}

#[test]
fn a_read_below_the_safe_point_opens_the_log_again() {
    let (dir, record) = dir_with(&[1, 2]);
    let mut reader = KvStoreReader::new();
    reader.open_log(1);
    let at = CommandPos { gen: 1, pos: 2, len: record.len() as u64 };
    reader.read_command(&dir, 2, at).unwrap();
    assert!(reader.has_open(1));
    reader.close_stale_handlers(2);
    assert!(!reader.has_open(1));
}

#[test]
fn close_stale_handlers_keeps_the_safe_point_itself() {
    let mut reader = KvStoreReader::new();
    for gen in [5, 6, 7] {
        reader.open_log(gen);
    }
    reader.close_stale_handlers(6);
    assert!(!reader.has_open(5));
    assert!(reader.has_open(6));
    assert!(reader.has_open(7));
    reader.close_stale_handlers(0);
    assert!(reader.has_open(6));
    reader.close_stale_handlers(u64::MAX);
    assert!(!reader.has_open(6));
    assert!(!reader.has_open(7));
}

#[test]
fn a_missing_log_is_an_io_error() {
    let (dir, record) = dir_with(&[1]);
    let mut reader = KvStoreReader::new();
    reader.open_log(1);
    let at = CommandPos { gen: 9, pos: 0, len: record.len() as u64 };
    assert!(matches!(reader.read_command(&dir, 0, at), Err(KvsError::IoErr(_))));
    assert!(matches!(reader.read_and(&dir, 0, at), Err(KvsError::IoErr(_))));
    assert!(!reader.has_open(9));
    assert!(reader.has_open(1));
}

#[test]
fn bytes_that_are_no_record_are_a_codec_error() {
    let (dir, record) = dir_with(&[1]);
    let mut reader = KvStoreReader::new();
    let len = record.len() as u64;
    for at in [
        CommandPos { gen: 1, pos: 3, len },
        CommandPos { gen: 1, pos: 2, len: len - 1 },
        CommandPos { gen: 1, pos: 2, len: 0 },
        CommandPos { gen: 1, pos: 500, len },
    ] {
        assert!(matches!(reader.read_command(&dir, 0, at), Err(KvsError::SerdeErr(_))));
    }
    assert!(reader.has_open(1));
}

#[test]
fn one_record_may_stand_in_white_space() {
    let record = encode(&put("k", "v")).unwrap();
    let mut bytes = b" \n".to_vec();
    bytes.extend(&record);
    bytes.extend(b"\t \r\n");
    assert!(same_command(&decode_one(&bytes).unwrap(), &put("k", "v")));
    bytes.extend(&record);
    assert!(matches!(decode_one(&bytes), Err(KvsError::SerdeErr(_))));
    assert!(matches!(decode_one(b""), Err(KvsError::SerdeErr(_))));
}

#[test]
fn a_cloned_reader_has_nothing_open() {
    let mut reader = KvStoreReader::new();
    reader.open_log(1);
    reader.open_log(2);
    let other = reader.clone();
    assert!(!other.has_open(1));
    assert!(!other.has_open(2));
    assert!(reader.has_open(1));
}
