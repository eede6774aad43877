use kvs::bufio::{new_log_file, BufReaderWithPos};
use kvs::dir::LogDir;
use kvs::error::KvsError;
use kvs::index::{CommandPos, Index};

#[test]
fn a_new_directory_holds_no_log() {
    let dir = LogDir::new();
    assert_eq!(dir.len(), 0);
    assert_eq!(dir.generations(), Vec::<u64>::new());
    assert_eq!(dir.find(1), None);
    assert_eq!(dir.file_len(1), None);
    assert!(dir.read_at(1, 0, 10).is_none());
}

#[test]
fn logs_are_kept_in_ascending_order() {
    let mut dir = LogDir::new();
    assert_eq!(dir.create_log(5), 0);
    assert_eq!(dir.create_log(2), 0);
    assert_eq!(dir.create_log(9), 0);
    assert_eq!(dir.create_log(3), 0);
    assert_eq!(dir.generations(), vec![2, 3, 5, 9]);
    assert_eq!(dir.find(5), Some(2));
    assert_eq!(dir.gen_of(3), 9);
    assert_eq!(dir.len(), 4);
}

#[test]
fn creating_a_log_that_exists_keeps_its_bytes() {
    let mut dir = LogDir::new();
    dir.create_log(1);
    assert!(dir.append(1, b"abc"));
    assert_eq!(dir.create_log(1), 3);
    assert_eq!(dir.generations(), vec![1]);
    assert_eq!(dir.data_at(0), b"abc");
}

#[test]
fn append_writes_at_the_end_of_the_log() {
    let mut dir = LogDir::new();
    dir.create_log(1);
    dir.create_log(2);
    assert!(dir.append(2, b"hello"));
    assert!(dir.append(2, b" world"));
    assert!(dir.append(1, b""));
    assert!(!dir.append(3, b"lost"));
    assert_eq!(dir.file_len(1), Some(0));
    assert_eq!(dir.file_len(2), Some(11));
    assert_eq!(dir.data_at(1), b"hello world");
}

#[test]
fn reads_are_cut_at_the_end_of_the_log() {
    let mut dir = LogDir::new();
    dir.create_log(4);
    dir.append(4, b"0123456789");
    assert_eq!(dir.read_at(4, 0, 10), Some(&b"0123456789"[..]));
    assert_eq!(dir.read_at(4, 3, 4), Some(&b"3456"[..]));
    assert_eq!(dir.read_at(4, 8, 5), Some(&b"89"[..]));
    assert_eq!(dir.read_at(4, 10, 5), Some(&b""[..]));
    assert_eq!(dir.read_at(4, 25, 5), Some(&b""[..]));
    assert_eq!(dir.read_at(4, 2, 0), Some(&b""[..]));
    assert_eq!(dir.read_at(4, 1, u64::MAX), Some(&b"123456789"[..]));
    assert_eq!(dir.read_at(4, u64::MAX, u64::MAX), Some(&b""[..]));
    assert_eq!(dir.read_at(5, 0, 1), None);
}

#[test]
fn delete_log_removes_one_log() {
    let mut dir = LogDir::new();
    dir.create_log(1);
    dir.create_log(2);
    dir.create_log(3);
    assert!(dir.delete_log(2));
    assert!(!dir.delete_log(2));
    assert_eq!(dir.generations(), vec![1, 3]);
}

#[test]
fn delete_below_removes_the_older_logs() {
    let mut dir = LogDir::new();
    for gen in [1, 2, 5, 8] {
        dir.create_log(gen);
    }
    dir.append(5, b"kept");
    assert_eq!(dir.delete_below(5), 2);
    assert_eq!(dir.generations(), vec![5, 8]);
    assert_eq!(dir.data_at(0), b"kept");
    assert_eq!(dir.delete_below(0), 0);
    assert_eq!(dir.delete_below(100), 2);
    assert_eq!(dir.len(), 0);
}

#[test]
fn a_writer_stands_at_the_end_of_its_log() {
    let mut dir = LogDir::new();
    let mut writer = new_log_file(&mut dir, 3);
    assert_eq!(writer.gen(), 3);
    assert_eq!(writer.pos(), 0);
    assert_eq!(writer.write(&mut dir, b"abc").unwrap(), 3);
    assert_eq!(writer.pos(), 3);
    assert_eq!(writer.write(&mut dir, b"").unwrap(), 0);
    assert_eq!(writer.write(&mut dir, b"defg").unwrap(), 4);
    assert_eq!(writer.pos(), 7);
    assert_eq!(dir.data_at(0), b"abcdefg");
    let again = new_log_file(&mut dir, 3);
    assert_eq!(again.pos(), 7);
}

#[test]
fn a_writer_without_its_log_fails_and_stays() {
    let mut dir = LogDir::new();
    let mut writer = new_log_file(&mut dir, 1);
    writer.write(&mut dir, b"abc").unwrap();
    dir.delete_log(1);
    assert!(matches!(writer.write(&mut dir, b"x"), Err(KvsError::IoErr(_))));
    assert_eq!(writer.pos(), 3);
    assert_eq!(dir.len(), 0);
}

#[test]
fn a_reader_moves_behind_what_it_reads() {
    let mut dir = LogDir::new();
    dir.create_log(2);
    dir.append(2, b"0123456789");
    let mut reader = BufReaderWithPos::new(2);
    assert_eq!(reader.gen(), 2);
    assert_eq!(reader.pos(), 0);
    assert_eq!(reader.read(&dir, 4).unwrap(), b"0123");
    assert_eq!(reader.pos(), 4);
    assert_eq!(reader.seek(8), 8);
    assert_eq!(reader.read(&dir, 4).unwrap(), b"89");
    assert_eq!(reader.pos(), 10);
    assert_eq!(reader.read(&dir, 4).unwrap(), b"");
    assert_eq!(reader.pos(), 10);
    assert_eq!(reader.seek(100), 100);
    assert_eq!(reader.read(&dir, 4).unwrap(), b"");
    assert_eq!(reader.pos(), 100);
}

#[test]
fn a_reader_without_its_log_fails_and_stays() {
    let dir = LogDir::new();
    let mut reader = BufReaderWithPos::new(2);
    reader.seek(5);
    assert!(matches!(reader.read(&dir, 4), Err(KvsError::IoErr(_))));
    assert_eq!(reader.pos(), 5);
}

#[test]
fn a_position_is_made_of_a_range() {
    assert_eq!(CommandPos::new(3, 10, 25), CommandPos { gen: 3, pos: 10, len: 15 });
    assert_eq!(CommandPos::new(0, 7, 7), CommandPos { gen: 0, pos: 7, len: 0 });
}

#[test]
fn the_index_binds_keys_to_positions() {
    let mut index = Index::new();
    let a = CommandPos { gen: 1, pos: 0, len: 10 };
    let b = CommandPos { gen: 1, pos: 10, len: 12 };
    let c = CommandPos { gen: 2, pos: 0, len: 9 };
    assert_eq!(index.get("k"), None);
    assert!(!index.contains_key("k"));
    index.insert("k".to_string(), a);
    index.insert("j".to_string(), b);
    assert_eq!(index.get("k"), Some(a));
    assert_eq!(index.get("j"), Some(b));
    index.insert("k".to_string(), c);
    assert_eq!(index.get("k"), Some(c));
    assert!(index.contains_key("k"));
    assert_eq!(index.remove("k"), Some(c));
    assert_eq!(index.remove("k"), None);
    assert_eq!(index.get("k"), None);
    assert_eq!(index.get("j"), Some(b));
}

#[test]
fn the_index_lists_every_key_once() {
    let mut index = Index::new();
    assert_eq!(index.keys(), Vec::<String>::new());
    let at = CommandPos { gen: 1, pos: 0, len: 1 };
    for key in ["pear", "apple", "fig", "apple", "", "zebra", "fig"] {
        index.insert(key.to_string(), at);
    }
    index.remove("zebra");
    assert_eq!(index.keys(), vec!["", "apple", "fig", "pear"]);
}
