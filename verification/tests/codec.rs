use roblox_version_archive::codec::decode::{decode_history, decode_record};
use roblox_version_archive::codec::encode::{
    empty_history, encode_history, encode_latest, encode_record,
};
use roblox_version_archive::domain::{DeployHistory, DeploymentRecord};
use roblox_version_archive::error::ArchiveError;

fn record(change_list: u64, client_version: &str) -> DeploymentRecord {
    DeploymentRecord {
        client_version: client_version.to_string(),
        bootstrapper_version: "1, 6, 0, 6010123".to_string(),
        major_rev: 0,
        version: 601,
        patch: 1,
        change_list,
    }
}

fn history_of(records: Vec<DeploymentRecord>) -> DeployHistory {
    let mut history = DeployHistory::new();
    for r in records {
        history.insert(r.change_list, r);
    }
    history
}

#[test]
fn empty_history_is_a_pair_of_braces() {
    assert_eq!(encode_history(&DeployHistory::new()), "{}");
    assert_eq!(empty_history(), "{}\n");
    assert_eq!(decode_history("{}"), Ok(DeployHistory::new()));
    assert_eq!(decode_history("{}\n"), Ok(DeployHistory::new()));
    assert_eq!(decode_history(" \t\r\n{ \n } "), Ok(DeployHistory::new()));
}

#[test]
fn history_is_written_on_one_line_by_ascending_key() {
    let history = history_of(vec![record(200, "version-b"), record(9, "version-a")]);
    assert_eq!(
        encode_history(&history),
        "{\"9\":{\"clientVersion\":\"version-a\",\"bootstrapperVersion\":\"1, 6, 0, 6010123\",\"majorRev\":0,\"version\":601,\"patch\":1,\"changeList\":9},\"200\":{\"clientVersion\":\"version-b\",\"bootstrapperVersion\":\"1, 6, 0, 6010123\",\"majorRev\":0,\"version\":601,\"patch\":1,\"changeList\":200}}"
    );
}

#[test]
fn record_is_written_compact_inside_a_history() {
    assert_eq!(
        encode_record(&record(100, "version-a")),
        "{\"clientVersion\":\"version-a\",\"bootstrapperVersion\":\"1, 6, 0, 6010123\",\"majorRev\":0,\"version\":601,\"patch\":1,\"changeList\":100}"
    );
}

#[test]
fn latest_is_written_with_a_line_for_each_field() {
    assert_eq!(
        encode_latest(&record(100, "version-a")),
        "{\n  \"clientVersion\": \"version-a\",\n  \"bootstrapperVersion\": \"1, 6, 0, 6010123\",\n  \"majorRev\": 0,\n  \"version\": 601,\n  \"patch\": 1,\n  \"changeList\": 100\n}"
    );
}

#[test]
fn numbers_are_written_in_full() {
    let r = DeploymentRecord {
        client_version: String::new(),
        bootstrapper_version: String::new(),
        major_rev: u32::MAX,
        version: 10,
        patch: 0,
        change_list: u64::MAX,
    };
    assert_eq!(
        encode_record(&r),
        "{\"clientVersion\":\"\",\"bootstrapperVersion\":\"\",\"majorRev\":4294967295,\"version\":10,\"patch\":0,\"changeList\":18446744073709551615}"
    );
    assert_eq!(decode_record(&encode_record(&r)), Ok(r));
}

#[test]
fn strings_are_escaped_as_serde_json_does() {
    let text = "quote\" backslash\\ slash/ \u{08}\u{0C}\n\r\t \u{00}\u{01}\u{1b}\u{1f} \u{7f} é 漢 😀";
    let r = record(1, text);
    let written = encode_record(&r);
    assert!(written.starts_with(
        "{\"clientVersion\":\"quote\\\" backslash\\\\ slash/ \\b\\f\\n\\r\\t \\u0000\\u0001\\u001b\\u001f \u{7f} é 漢 😀\","
    ));
    let expected = serde_json::to_string(&serde_json::Value::String(text.to_string())).unwrap();
    assert!(written.contains(&expected));
    assert_eq!(decode_record(&written), Ok(r));
}

#[test]
fn serde_json_reads_what_is_written() {
    let history = history_of(vec![record(5, "a\"b"), record(18446744073709551615, "c\\d\n")]);
    let value: serde_json::Value = serde_json::from_str(&encode_history(&history)).unwrap();
    let object = value.as_object().unwrap();
    assert_eq!(object.len(), 2);
    let first = &value["5"];
    assert_eq!(first["clientVersion"].as_str(), Some("a\"b"));
    assert_eq!(first["bootstrapperVersion"].as_str(), Some("1, 6, 0, 6010123"));
    assert_eq!(first["majorRev"].as_u64(), Some(0));
    assert_eq!(first["version"].as_u64(), Some(601));
    assert_eq!(first["patch"].as_u64(), Some(1));
    assert_eq!(first["changeList"].as_u64(), Some(5));
    assert_eq!(first.as_object().unwrap().len(), 6);
    let second = &value["18446744073709551615"];
    assert_eq!(second["clientVersion"].as_str(), Some("c\\d\n"));
    assert_eq!(second["changeList"].as_u64(), Some(u64::MAX));

    let latest: serde_json::Value =
        serde_json::from_str(&encode_latest(&record(5, "a\"b"))).unwrap();
    assert_eq!(latest, *first);
}

#[test]
fn what_serde_json_writes_is_read() {
    let mut fields = serde_json::Map::new();
    fields.insert("clientVersion".to_string(), serde_json::Value::from("tab\there"));
    fields.insert("bootstrapperVersion".to_string(), serde_json::Value::from("1, 6, 0, 6010123"));
    fields.insert("majorRev".to_string(), serde_json::Value::from(0u32));
    fields.insert("version".to_string(), serde_json::Value::from(601u32));
    fields.insert("patch".to_string(), serde_json::Value::from(1u32));
    fields.insert("changeList".to_string(), serde_json::Value::from(77u64));
    let one = serde_json::Value::Object(fields);
    let mut entries = serde_json::Map::new();
    entries.insert("77".to_string(), one.clone());
    let all = serde_json::Value::Object(entries);

    let expected = record(77, "tab\there");
    assert_eq!(decode_record(&serde_json::to_string(&one).unwrap()), Ok(expected.clone()));
    assert_eq!(decode_record(&serde_json::to_string_pretty(&one).unwrap()), Ok(expected.clone()));
    assert_eq!(
        decode_history(&serde_json::to_string(&all).unwrap()),
        Ok(history_of(vec![expected.clone()]))
    );
    assert_eq!(
        decode_history(&serde_json::to_string_pretty(&all).unwrap()),
        Ok(history_of(vec![expected]))
    );
}

#[test]
fn history_round_trip() {
    let cases = vec![
        vec![],
        vec![record(100, "version-a")],
        vec![record(0, ""), record(1, "\u{00}\"\\"), record(u64::MAX, "漢字 😀")],
        vec![record(3, "c"), record(2, "b"), record(1, "a"), record(10, "j")],
    ];
    for records in cases {
        let history = history_of(records);
        assert_eq!(decode_history(&encode_history(&history)), Ok(history));
    }
}

#[test]
fn record_round_trip_in_both_layouts() {
    for r in [record(100, "version-a"), record(0, "\u{1f}\t\"\\/"), record(u64::MAX, "😀")] {
        assert_eq!(decode_record(&encode_record(&r)), Ok(r.clone()));
        assert_eq!(decode_record(&encode_latest(&r)), Ok(r));
    }
}

#[test]
fn fields_are_read_in_any_order_with_any_space() {
    let text = " {\n\t\"changeList\" : 100 ,\r\n \"patch\":1,\"version\":601,\"majorRev\":0, \"bootstrapperVersion\":\"1, 6, 0, 6010123\",\"clientVersion\":\"version-a\" } \n";
    assert_eq!(decode_record(text), Ok(record(100, "version-a")));
}

#[test]
fn entries_are_read_in_any_order_and_come_out_ascending() {
    let a = encode_record(&record(1, "a"));
    let b = encode_record(&record(2, "b"));
    let text = format!("{{\"2\":{b} , \"1\":{a}}}");
    let history = decode_history(&text).unwrap();
    assert_eq!(history.keys().copied().collect::<Vec<u64>>(), vec![1, 2]);
    assert_eq!(history, history_of(vec![record(1, "a"), record(2, "b")]));
}

#[test]
fn of_two_entries_with_one_key_the_later_is_read() {
    let a = encode_record(&record(1, "first"));
    let b = encode_record(&record(1, "second"));
    let text = format!("{{\"1\":{a},\"1\":{b}}}");
    assert_eq!(decode_history(&text), Ok(history_of(vec![record(1, "second")])));
}

#[test]
fn key_and_change_list_are_read_apart() {
    let a = encode_record(&record(5, "a"));
    let text = format!("{{\"9\":{a}}}");
    let history = decode_history(&text).unwrap();
    assert_eq!(history.get(&9), Some(&record(5, "a")));
    assert_eq!(history.len(), 1);
}

#[test]
fn escapes_are_read() {
    let text = "{\"clientVersion\":\"\\\"\\\\\\/\\b\\f\\n\\r\\t\\u0041\\u00e9\\u00E9\\u6f22\\ud83d\\ude00\",\"bootstrapperVersion\":\"\",\"majorRev\":0,\"version\":601,\"patch\":1,\"changeList\":3}";
    let expected: serde_json::Value = serde_json::from_str(text).unwrap();
    let read = decode_record(text).unwrap();
    assert_eq!(read.client_version, "\"\\/\u{08}\u{0C}\n\r\tAéé漢😀");
    assert_eq!(Some(read.client_version.as_str()), expected["clientVersion"].as_str());
}

#[test]
fn escaped_field_names_are_read() {
    let text = "{\"client\\u0056ersion\":\"a\",\"bootstrapperVersion\":\"1, 6, 0, 6010123\",\"majorRev\":0,\"version\":601,\"patch\":1,\"changeList\":3}";
    assert_eq!(decode_record(text), Ok(record(3, "a")));
}

fn with_client_version(raw: &str) -> String {
    format!("{{\"clientVersion\":{raw},\"bootstrapperVersion\":\"\",\"majorRev\":0,\"version\":601,\"patch\":1,\"changeList\":3}}")
}

#[test]
fn malformed_strings_are_corrupt() {
    for raw in [
        "\"\\x\"",
        "\"\\u12\"",
        "\"\\u12g4\"",
        "\"\\ud83d\"",
        "\"\\ud83d\\n\"",
        "\"\\ud83d\\u0041\"",
        "\"\\ude00\"",
        "\"a\nb\"",
        "\"a\u{01}b\"",
        "\"open",
        "'a'",
        "a",
        "1",
        "null",
    ] {
        let text = with_client_version(raw);
        assert_eq!(decode_record(&text), Err(ArchiveError::CorruptArchive), "{raw:?}");
        assert!(serde_json::from_str::<serde_json::Value>(&text)
            .map(|v| !v["clientVersion"].is_string())
            .unwrap_or(true));
    }
}

fn with_major_rev(raw: &str) -> String {
    format!("{{\"clientVersion\":\"\",\"bootstrapperVersion\":\"\",\"majorRev\":{raw},\"version\":601,\"patch\":1,\"changeList\":3}}")
}

#[test]
fn malformed_numbers_are_corrupt() {
    for raw in ["-1", "+1", "01", "1.0", "1e2", "4294967296", "\"1\"", "", "0x1", "1 2", "-0"] {
        assert_eq!(decode_record(&with_major_rev(raw)), Err(ArchiveError::CorruptArchive), "{raw:?}");
    }
    for raw in ["0", "1", "4294967295", " 7 "] {
        assert!(decode_record(&with_major_rev(raw)).is_ok(), "{raw:?}");
    }
    assert_eq!(decode_record(&with_major_rev("4294967295")).unwrap().major_rev, u32::MAX);
}

#[test]
fn malformed_records_are_corrupt() {
    let good = encode_record(&record(3, "a"));
    assert!(decode_record(&good).is_ok());
    for text in [
        "",
        " ",
        "{}",
        "[]",
        "null",
        "{\"clientVersion\":\"a\"}",
        "{\"clientVersion\":\"a\",\"bootstrapperVersion\":\"\",\"majorRev\":0,\"version\":601,\"patch\":1}",
        "{\"clientVersion\":\"a\",\"clientVersion\":\"a\",\"bootstrapperVersion\":\"\",\"majorRev\":0,\"version\":601,\"patch\":1,\"changeList\":3}",
        "{\"clientVersion\":\"a\",\"bootstrapperVersion\":\"\",\"majorRev\":0,\"version\":601,\"patch\":1,\"changeList\":3,\"extra\"}",
        "{\"clientVersion\":\"a\",\"bootstrapperVersion\":\"\",\"majorRev\":0,\"version\":601,\"patch\":1,\"changeList\":3,\"extra\":}",
        "{\"clientVersion\":\"a\",\"bootstrapperVersion\":\"\",\"majorRev\":0,\"version\":601,\"patch\":1,\"changeList\":3,\"\\ud800\":1}",
        "{\"clientVersion\":\"a\",\"bootstrapperVersion\":\"\",\"majorRev\":0,\"version\":601,\"patch\":1,\"changeList\":3,extra:1}",
        "{\"clientVersion\":\"a\",\"bootstrapperVersion\":\"\",\"majorRev\":0,\"version\":601,\"patch\":1,\"changeList\":3,}",
        "{\"clientVersion\":\"a\" \"bootstrapperVersion\":\"\",\"majorRev\":0,\"version\":601,\"patch\":1,\"changeList\":3}",
        "{\"clientVersion\" \"a\",\"bootstrapperVersion\":\"\",\"majorRev\":0,\"version\":601,\"patch\":1,\"changeList\":3}",
        "{\"ClientVersion\":\"a\",\"bootstrapperVersion\":\"\",\"majorRev\":0,\"version\":601,\"patch\":1,\"changeList\":3}",
        "{\"client_version\":\"a\",\"bootstrapper_version\":\"\",\"major_rev\":0,\"version\":601,\"patch\":1,\"change_list\":3}",
    ] {
        assert_eq!(decode_record(text), Err(ArchiveError::CorruptArchive), "{text:?}");
    }
    assert_eq!(decode_record(&format!("{good}x")), Err(ArchiveError::CorruptArchive));
    assert_eq!(decode_record(&format!("{good}{good}")), Err(ArchiveError::CorruptArchive));
    assert_eq!(decode_record(&good[..good.len() - 1]), Err(ArchiveError::CorruptArchive));
}

#[test]
fn malformed_histories_are_corrupt() {
    let a = encode_record(&record(1, "a"));
    for text in [
        String::new(),
        "\n".to_string(),
        "{".to_string(),
        "}".to_string(),
        "[]".to_string(),
        "{}{}".to_string(),
        "{} x".to_string(),
        "{\"100\": \"not-an-object\"}".to_string(),
        "{\"100\": {}}".to_string(),
        "{\"100\": null}".to_string(),
        format!("{{\"abc\":{a}}}"),
        format!("{{\"\":{a}}}"),
        format!("{{\"-1\":{a}}}"),
        format!("{{\"+1\":{a}}}"),
        format!("{{\"01\":{a}}}"),
        format!("{{\"1.0\":{a}}}"),
        format!("{{\" 1\":{a}}}"),
        format!("{{\"1 \":{a}}}"),
        format!("{{\"\\u0031\":{a}}}"),
        format!("{{\"18446744073709551616\":{a}}}"),
        format!("{{1:{a}}}"),
        format!("{{\"1\":{a},}}"),
        format!("{{,\"1\":{a}}}"),
        format!("{{\"1\":{a} \"2\":{a}}}"),
        format!("{{\"1\"{a}}}"),
        format!("{{\"1\":{a}"),
        format!("[{a}]"),
    ] {
        assert_eq!(decode_history(&text), Err(ArchiveError::CorruptArchive), "{text:?}");
    }
    assert!(decode_history(&format!("{{\"0\":{a}}}")).is_ok());
    assert!(decode_history(&format!("{{\"18446744073709551615\":{a}}}")).is_ok());
}

fn with_extra(raw: &str, place: usize) -> String {
    let mut fields = vec![
        "\"clientVersion\":\"a\"".to_string(),
        "\"bootstrapperVersion\":\"1, 6, 0, 6010123\"".to_string(),
        "\"majorRev\":0".to_string(),
        "\"version\":601".to_string(),
        "\"patch\":1".to_string(),
        "\"changeList\":3".to_string(),
    ];
    fields.insert(place, format!("\"extra\" : {raw}"));
    format!("{{{}}}", fields.join(","))
}

#[test]
fn fields_of_other_names_are_passed_over_as_serde_json_does() {
    let values = [
        "1",
        "0",
        "-0",
        "-1",
        "01",
        "-",
        "+1",
        "1.5",
        "1.",
        ".5",
        "1.5e3",
        "1e3",
        "1E+3",
        "1e-3",
        "1e",
        "1e+",
        "0.0e0",
        "123456789012345678901234567890",
        "1x",
        "true",
        "false",
        "null",
        "tru",
        "truE",
        "nul",
        "nulll",
        "falsey",
        "True",
        "\"\"",
        "\"text \\n \\\" \\\\ \\/ \\u0041\"",
        "\"\\ud800\"",
        "\"\\udc00\\ud800\"",
        "\"\\u12\"",
        "\"\\u12G4\"",
        "\"\\x\"",
        "\"a\nb\"",
        "\"open",
        "[]",
        "[ ]",
        "[1]",
        "[1,2 , 3]",
        "[1,]",
        "[,1]",
        "[1 2]",
        "[1",
        "]",
        "[[[]],[{}],{\"a\":[]}]",
        "{}",
        "{ }",
        "{\"a\":1}",
        "{\"a\" : 1 , \"b\":[true,false,null]}",
        "{\"a\":1,}",
        "{\"a\"}",
        "{\"a\":}",
        "{a:1}",
        "{1:1}",
        "{\"a\":1 \"b\":2}",
        "{\"\\ud800\":1}",
        "{\"clientVersion\":\"inner\",\"clientVersion\":2}",
        "",
        "@",
        "'a'",
    ];
    for raw in values {
        let expected = serde_json::from_str::<serde::de::IgnoredAny>(raw).is_ok();
        for place in [0, 3, 6] {
            let text = with_extra(raw, place);
            let read = decode_record(&text);
            if expected {
                assert_eq!(read, Ok(record(3, "a")), "{raw:?}");
            } else {
                assert_eq!(read, Err(ArchiveError::CorruptArchive), "{raw:?}");
            }
        }
    }
}

#[test]
fn a_field_of_another_name_may_come_more_than_once() {
    let text = "{\"extra\":1,\"clientVersion\":\"a\",\"extra\":[2],\"bootstrapperVersion\":\"1, 6, 0, 6010123\",\"majorRev\":0,\"version\":601,\"patch\":1,\"changeList\":3,\"Version\":null}";
    assert_eq!(decode_record(text), Ok(record(3, "a")));
    let history = format!("{{\"3\":{text}}}");
    assert_eq!(decode_history(&history), Ok(history_of(vec![record(3, "a")])));
}

#[test]
fn values_that_are_passed_over_nest_to_a_limit() {
    let nested = |depth: usize| format!("{}{}", "[".repeat(depth), "]".repeat(depth));
    assert_eq!(decode_record(&with_extra(&nested(1), 0)), Ok(record(3, "a")));
    assert_eq!(decode_record(&with_extra(&nested(128), 0)), Ok(record(3, "a")));
    assert_eq!(decode_record(&with_extra(&nested(129), 0)), Err(ArchiveError::CorruptArchive));
    let objects = |depth: usize| format!("{}1{}", "{\"a\":".repeat(depth), "}".repeat(depth));
    assert_eq!(decode_record(&with_extra(&objects(128), 6)), Ok(record(3, "a")));
    assert_eq!(decode_record(&with_extra(&objects(129), 6)), Err(ArchiveError::CorruptArchive));
    let long = format!("[{}0]", "0,".repeat(100_000));
    assert_eq!(decode_record(&with_extra(&long, 3)), Ok(record(3, "a")));
}

#[test]
fn latest_has_the_lines_that_serde_json_writes() {
    let r = record(100, "tab\there \"quoted\"");
    let mut fields = serde_json::Map::new();
    fields.insert("clientVersion".to_string(), serde_json::Value::from(r.client_version.clone()));
    fields.insert(
        "bootstrapperVersion".to_string(),
        serde_json::Value::from(r.bootstrapper_version.clone()),
    );
    fields.insert("majorRev".to_string(), serde_json::Value::from(r.major_rev));
    fields.insert("version".to_string(), serde_json::Value::from(r.version));
    fields.insert("patch".to_string(), serde_json::Value::from(r.patch));
    fields.insert("changeList".to_string(), serde_json::Value::from(r.change_list));
    let theirs = serde_json::to_string_pretty(&serde_json::Value::Object(fields)).unwrap();
    let ours = encode_latest(&r);
    let lines = |text: &str| {
        let mut lines: Vec<String> =
            text.split('\n').map(|l| l.trim_end_matches(',').to_string()).collect();
        lines.sort();
        lines
    };
    assert_eq!(lines(&ours), lines(&theirs));
    assert_eq!(ours.len(), theirs.len());
    assert!(ours.starts_with("{\n  \"clientVersion\": "));
    assert!(ours.ends_with("\n  \"changeList\": 100\n}"));
}

#[test]
fn keys_are_read_as_serde_json_reads_them() {
    let a = encode_record(&record(1, "a"));
    let keys = [
        "0", "1", "7", "10", "18446744073709551615", "18446744073709551616", "00", "01", "-0",
        "-1", "+1", "1.0", "1e0", "1E2", " 1", "1 ", "", "a", "0x10", "1_000", "\\u0031", "١",
        "99999999999999999999999999", "1\\n",
    ];
    for key in keys {
        let text = format!("{{\"{key}\":{a}}}");
        let theirs = serde_json::from_str::<
            std::collections::BTreeMap<u64, serde_json::Value>,
        >(&text)
        .map(|m| m.keys().copied().collect::<Vec<u64>>())
        .ok();
        let ours = decode_history(&text).map(|m| m.keys().copied().collect::<Vec<u64>>()).ok();
        assert_eq!(ours, theirs, "{key:?}");
    }
}

#[test]
fn numbers_are_read_as_serde_json_reads_them() {
    let numbers = [
        "0", "1", "7", "10", "4294967295", "4294967296", "18446744073709551615",
        "18446744073709551616", "00", "01", "-0", "-1", "+1", "1.0", "1e0", "1E2", "0.0", " 1 ",
        "\t2\n", "", "a", "0x10", "1_000", "\"1\"", "null", "true", "1 1",
        "99999999999999999999999999",
    ];
    for raw in numbers {
        let small = format!("{{\"clientVersion\":\"\",\"bootstrapperVersion\":\"\",\"majorRev\":0,\"version\":{raw},\"patch\":1,\"changeList\":3}}");
        assert_eq!(
            decode_record(&small).map(|r| r.version).ok(),
            serde_json::from_str::<u32>(raw).ok(),
            "{raw:?}"
        );
        let large = format!("{{\"clientVersion\":\"\",\"bootstrapperVersion\":\"\",\"majorRev\":0,\"version\":1,\"patch\":1,\"changeList\":{raw}}}");
        assert_eq!(
            decode_record(&large).map(|r| r.change_list).ok(),
            serde_json::from_str::<u64>(raw).ok(),
            "{raw:?}"
        );
    }
}

#[test]
fn strings_are_read_as_serde_json_reads_them() {
    let strings = [
        "\"\"",
        "\"plain\"",
        "\"é 漢 😀 \u{7f}\"",
        "\"\\\" \\\\ \\/ \\b \\f \\n \\r \\t\"",
        "\"\\u0000\\u001f\\u0041\\u00e9\\u00E9\\uFFFF\\ud7ff\\ue000\"",
        "\"\\ud83d\\ude00\"",
        "\"\\uD83D\\uDE00\"",
        "\"\\udbff\\udfff\"",
        "\"\\ud800\\udc00\"",
        "\"\\ud83d\"",
        "\"\\ud83d \"",
        "\"\\ud83d\\n\"",
        "\"\\ud83d\\u0041\"",
        "\"\\ud83d\\ud83d\"",
        "\"\\ude00\"",
        "\"\\ude00\\ud83d\"",
        "\"\\u12\"",
        "\"\\u12g4\"",
        "\"\\U0041\"",
        "\"\\x41\"",
        "\"\\a\"",
        "\"\\\"",
        "\"a\nb\"",
        "\"a\tb\"",
        "\"a\u{00}b\"",
        "\"a\u{1f}b\"",
        "\"open",
        "open\"",
        " \"spaced\" ",
        "'a'",
        "a",
        "1",
        "null",
        "[\"a\"]",
    ];
    for raw in strings {
        let text = with_client_version(raw);
        assert_eq!(
            decode_record(&text).map(|r| r.client_version).ok(),
            serde_json::from_str::<String>(raw).ok(),
            "{raw:?}"
        );
    }
}

#[test]
fn white_space_is_what_serde_json_takes_for_it() {
    let a = encode_record(&record(1, "a"));
    for space in [" ", "\t", "\n", "\r", "\u{0b}", "\u{0c}", "\u{a0}", "\u{2028}", "\u{feff}", "\u{00}"] {
        let text = format!("{space}{{{space}\"1\"{space}:{space}{a}{space}}}{space}");
        let theirs = serde_json::from_str::<
            std::collections::BTreeMap<u64, serde_json::Value>,
        >(&text)
        .is_ok();
        assert_eq!(decode_history(&text).is_ok(), theirs, "{space:?}");
    }
}
