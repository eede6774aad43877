use kvs::names::{log_name, log_path, parse_log_name, sorted_gen_list};

#[test]
fn log_names_spell_the_generation() {
    assert_eq!(log_name(0), "0.log");
    assert_eq!(log_name(7), "7.log");
    assert_eq!(log_name(10), "10.log");
    assert_eq!(log_name(1234567890), "1234567890.log");
    assert_eq!(log_name(u64::MAX), "18446744073709551615.log");
}

#[test]
fn log_paths_lie_in_the_directory() {
    assert_eq!(log_path("data", 3), "data/3.log");
    assert_eq!(log_path("/var/lib/kvs", 120), "/var/lib/kvs/120.log");
    assert_eq!(log_path("", 1), "/1.log");
}

#[test]
fn names_of_logs_tell_their_generation() {
    assert_eq!(parse_log_name("1.log"), Some(1));
    assert_eq!(parse_log_name("0.log"), Some(0));
    assert_eq!(parse_log_name("007.log"), Some(7));
    assert_eq!(parse_log_name("18446744073709551615.log"), Some(u64::MAX));
    assert_eq!(parse_log_name("00000000000000000000000000000000000000012.log"), Some(12));
}

#[test]
fn other_names_tell_none() {
    for name in [
        "",
        ".log",
        "log",
        "1",
        "1.",
        "1.lo",
        "1.logs",
        "1.log ",
        " 1.log",
        "+1.log",
        "-1.log",
        "1.LOG",
        "a.log",
        "1a.log",
        "1.5.log",
        "1.log.log",
        "engine",
        "١.log",
        "18446744073709551616.log",
        "99999999999999999999999.log",
        "1844674407370955161x.log",
    ] {
        assert_eq!(parse_log_name(name), None, "{:?}", name);
    }
}

#[test]
fn the_name_of_a_log_tells_its_generation() {
    for gen in [0, 1, 9, 10, 11, 99, 100, 4096, u64::MAX - 1, u64::MAX] {
        assert_eq!(parse_log_name(&log_name(gen)), Some(gen));
    }
}

#[test]
fn generations_are_listed_in_ascending_order() {
    let names: Vec<String> = ["10.log", "2.log", "engine", "33.log", "1.log", "x.log", "2.txt"]
        .iter()
        .map(|s| s.to_string())
        .collect();
    assert_eq!(sorted_gen_list(&names), vec![1, 2, 10, 33]);
}

#[test]
fn a_generation_named_twice_is_listed_twice() {
    let names: Vec<String> =
        ["7.log", "3.log", "07.log", "3.log"].iter().map(|s| s.to_string()).collect();
    assert_eq!(sorted_gen_list(&names), vec![3, 3, 7, 7]);
}

#[test]
fn no_names_no_generations() {
    assert_eq!(sorted_gen_list(&Vec::new()), Vec::<u64>::new());
    assert_eq!(sorted_gen_list(&vec!["readme".to_string()]), Vec::<u64>::new());
}
