use spacermake::utils::table::{find, position};
use spacermake::utils::text::{decimal_string, same_text, split};

#[test]
fn split_yields_one_more_piece_than_separators() {
    assert_eq!(split("tele/drill/MARGINS", '/'), vec!["tele", "drill", "MARGINS"]);
    assert_eq!(split("drill;alice;booked", ';'), vec!["drill", "alice", "booked"]);
    assert_eq!(split("", ';'), vec![""]);
    assert_eq!(split(";", ';'), vec!["", ""]);
    assert_eq!(split("a;;b;", ';'), vec!["a", "", "b", ""]);
    assert_eq!(split("no separator", ';'), vec!["no separator"]);
}

#[test]
fn split_counts_characters_not_bytes() {
    assert_eq!(split("säge;jörg;booked", ';'), vec!["säge", "jörg", "booked"]);
    assert_eq!(split("a→b→c", '→'), vec!["a", "b", "c"]);
}

#[test]
fn split_agrees_with_the_standard_library() {
    let samples = ["", "/", "//", "a/b", "/a/b/", "tele//MARGINS", "fabaccess/log", "x"];
    for sample in samples {
        let expected: Vec<String> = sample.split('/').map(String::from).collect();
        assert_eq!(split(sample, '/'), expected);
    }
}

#[test]
fn same_text_compares_characters() {
    assert!(same_text("ON", "ON"));
    assert!(!same_text("ON", "on"));
    assert!(!same_text("ON", "ONE"));
    assert!(same_text("", ""));
}

#[test]
fn decimal_string_writes_numbers() {
    assert_eq!(decimal_string(0), "0");
    assert_eq!(decimal_string(7), "7");
    assert_eq!(decimal_string(10), "10");
    assert_eq!(decimal_string(1234567890), "1234567890");
    assert_eq!(decimal_string(u64::MAX), "18446744073709551615");
}

#[test]
fn position_finds_the_first_occurrence() {
    let names = vec!["a".to_string(), "b".to_string(), "a".to_string()];
    assert_eq!(position(&names, "a"), Some(0));
    assert_eq!(position(&names, "b"), Some(1));
    assert_eq!(position(&names, "c"), None);
}

#[test]
fn find_looks_a_name_up_by_its_first_entry() {
    let table = vec![("x".to_string(), 1u64), ("y".to_string(), 2), ("x".to_string(), 3)];
    assert_eq!(find(&table, "x"), Some(0));
    assert_eq!(find(&table, "y"), Some(1));
    assert_eq!(find(&table, "z"), None);
    let empty: Vec<(String, u64)> = Vec::new();
    assert_eq!(find(&empty, "x"), None);
}
