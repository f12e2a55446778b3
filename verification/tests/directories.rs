use spacermake::config::{
    file_reader, parse_data_machines, parse_data_user, parse_machine, parse_user, MachineData,
    UserData, RESOURCE_PREFIX,
};
use spacermake::utils::table::put;
use spacermake::utils::text::{
    eq_ignore_ascii_case, lines, parse_i32, remove_all, split_once, trim_end, trim_start,
    trim_start_matches,
};

#[test]
fn numbers_are_read_as_the_standard_library_reads_them() {
    let samples = [
        "", "0", "1", "-1", "+1", "-", "+", "--1", "+-1", "007", "-0", "2147483647", "2147483648",
        "-2147483648", "-2147483649", "99999999999999999999999", "12a", "a12", " 1", "1 ", "1.0",
        "١٢", "1_000", "+0000000000000000000005",
    ];
    for sample in samples {
        assert_eq!(parse_i32(sample), sample.parse::<i32>().ok(), "{sample:?}");
    }
    assert_eq!(parse_i32("42"), Some(42));
    assert_eq!(parse_i32("-2147483648"), Some(i32::MIN));
    assert_eq!(parse_i32("2147483648"), None);
}

#[test]
fn lines_are_split_as_the_standard_library_splits_them() {
    let samples = [
        "", "a", "a\n", "a\nb", "a\r\nb\r\n", "a\r", "a\r\n", "\n", "\n\n", "\r\n", "\r", "a\n\nb",
        "a\r\r\nb", "x,y,z\nu,v,w\n",
    ];
    for sample in samples {
        let expected: Vec<String> = sample.lines().map(String::from).collect();
        assert_eq!(lines(sample), expected, "{sample:?}");
    }
}

#[test]
fn trimming_takes_every_repetition_off() {
    assert_eq!(trim_start("///a/b/", '/'), "a/b/");
    assert_eq!(trim_start("a", '/'), "a");
    assert_eq!(trim_start("//", '/'), "");
    assert_eq!(trim_end("a??", '?'), "a");
    assert_eq!(trim_end("?a", '?'), "?a");
    assert_eq!(trim_end("", '?'), "");
    assert_eq!(trim_start_matches("Basic Basic x", "Basic "), "x");
    assert_eq!(trim_start_matches("Basic", "Basic "), "Basic");
    assert_eq!(trim_start_matches("abc", ""), "abc");
    assert_eq!(trim_start_matches("aaa", "aa"), "a");
}

#[test]
fn case_of_latin_letters_can_be_ignored() {
    assert!(eq_ignore_ascii_case("debug", "DEBUG"));
    assert!(eq_ignore_ascii_case("", ""));
    assert!(!eq_ignore_ascii_case("debug", "debu"));
    assert!(!eq_ignore_ascii_case("ä", "Ä"));
    assert!(eq_ignore_ascii_case("sÄge", "SÄGE"));
    assert!(!eq_ignore_ascii_case("[", "{"));
    assert!(!eq_ignore_ascii_case("@", "`"));
}

#[test]
fn split_once_splits_at_the_first_separator() {
    assert_eq!(split_once("a:b:c", ':'), Some(("a".to_string(), "b:c".to_string())));
    assert_eq!(split_once(":", ':'), Some((String::new(), String::new())));
    assert_eq!(split_once("abc", ':'), None);
}

#[test]
fn put_replaces_or_appends() {
    let mut table = vec![("a".to_string(), 1u64), ("b".to_string(), 2)];
    put(&mut table, "a".to_string(), 3);
    assert_eq!(table, vec![("a".to_string(), 3), ("b".to_string(), 2)]);
    put(&mut table, "c".to_string(), 4);
    assert_eq!(table, vec![("a".to_string(), 3), ("b".to_string(), 2), ("c".to_string(), 4)]);
}

#[test]
fn a_user_line_is_name_id_and_flag() {
    assert_eq!(parse_user("alice,17,1"), Some(("alice".to_string(), UserData { id: Some(17), to_be_used: true })));
    assert_eq!(parse_user("bob,,0"), Some(("bob".to_string(), UserData { id: None, to_be_used: false })));
    assert_eq!(parse_user("eve,x,"), Some(("eve".to_string(), UserData { id: None, to_be_used: true })));
    assert_eq!(parse_user("dan,1,2,more"), Some(("dan".to_string(), UserData { id: Some(1), to_be_used: false })));
    assert_eq!(parse_user("alice,17"), None);
    assert_eq!(parse_user(""), None);
}

#[test]
fn a_machine_line_is_name_id_flag_sense_and_divider() {
    assert_eq!(
        parse_machine("drill,4,1,1,15"),
        Some(("drill".to_string(), MachineData { id: Some(4), to_be_used: true, power_sense: true, divider: 15 }))
    );
    assert_eq!(
        parse_machine("saw,,,0,1"),
        Some(("saw".to_string(), MachineData { id: None, to_be_used: true, power_sense: false, divider: 1 }))
    );
    assert_eq!(parse_machine("saw,1,1,x,1"), None);
    assert_eq!(parse_machine("saw,1,1,1,"), None);
    assert_eq!(parse_machine("saw,1,1,1"), None);
}

#[test]
fn directories_are_read_line_by_line() {
    assert_eq!(parse_data_user(""), Some(vec![]));
    assert_eq!(
        parse_data_user("alice,1,1\r\nbob,2,0\nalice,3,1\n"),
        Some(vec![
            ("alice".to_string(), UserData { id: Some(3), to_be_used: true }),
            ("bob".to_string(), UserData { id: Some(2), to_be_used: false }),
        ])
    );
    assert_eq!(parse_data_user("alice,1,1\n\nbob,2,0"), None);
    assert_eq!(
        parse_data_machines("drill,4,1,1,15\n"),
        Some(vec![("drill".to_string(), MachineData { id: Some(4), to_be_used: true, power_sense: true, divider: 15 })])
    );
    assert_eq!(parse_data_machines("drill,4,1,1,15\nsaw"), None);
}

#[test]
fn remove_all_takes_out_as_the_standard_library_replaces() {
    let cases = [
        ("urn:fabaccess:resource:drill", "urn:fabaccess:resource:"),
        ("drill", "urn:fabaccess:resource:"),
        ("", "x"),
        ("aaa", "aa"),
        ("aaaa", "aa"),
        ("abcabc", "bc"),
        ("xurn:urn:x", "urn:"),
        ("säge→säge", "ä"),
        ("abab", "aba"),
        ("abc", ""),
    ];
    for (text, part) in cases {
        assert_eq!(remove_all(text, part), text.replace(part, ""), "{text:?} {part:?}");
    }
}

#[test]
fn a_reader_is_filed_under_the_bare_name_of_its_machine() {
    assert_eq!(RESOURCE_PREFIX, "urn:fabaccess:resource:");
    let mut table = Vec::new();
    file_reader(&mut table, "urn:fabaccess:resource:drill", "reader-1");
    file_reader(&mut table, "saw", "reader-2");
    assert_eq!(
        table,
        vec![
            ("drill".to_string(), "reader-1".to_string()),
            ("saw".to_string(), "reader-2".to_string()),
        ]
    );
    file_reader(&mut table, "urn:fabaccess:resource:drill", "reader-3");
    assert_eq!(
        table,
        vec![
            ("drill".to_string(), "reader-3".to_string()),
            ("saw".to_string(), "reader-2".to_string()),
        ]
    );
}
