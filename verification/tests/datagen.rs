use mz_tools::datagen::copy_object_keys;
use mz_tools::datagen::copy_source;
use mz_tools::datagen::has_no_foreign_digits;
use mz_tools::datagen::try_parse_object_size;
use mz_tools::datagen::location_constraint;
use mz_tools::datagen::object_body;
use mz_tools::datagen::object_key;
use mz_tools::datagen::object_line_count;
use mz_tools::datagen::object_size_from_parsed;
use mz_tools::datagen::parse_object_size;
use mz_tools::datagen::record_line;

fn expected_object(line_bytes: usize, object_size: usize) -> String {
    let line = format!("{}\n", "A".repeat(line_bytes));
    line.repeat(object_size / (line_bytes + 1))
}

#[test]
fn record_line_contents() {
    assert_eq!(record_line(0), "\n");
    assert_eq!(record_line(3), "AAA\n");
}

#[test]
fn object_line_count_values() {
    assert_eq!(object_line_count(10, 0), 0);
    assert_eq!(object_line_count(10, 9), 0);
    assert_eq!(object_line_count(10, 10), 1);
    assert_eq!(object_line_count(10, 11), 1);
    assert_eq!(object_line_count(10, 20), 2);
    assert_eq!(object_line_count(10, 21), 2);
    assert_eq!(object_line_count(1, 5), 5);
}

#[test]
fn object_body_holds_whole_records_up_to_size() {
    for line_bytes in 0..6usize {
        for object_size in 0..40usize {
            assert_eq!(
                object_body(line_bytes, object_size),
                expected_object(line_bytes, object_size),
                "{} {}",
                line_bytes,
                object_size
            );
        }
    }
}

#[test]
fn object_body_is_as_large_as_size_allows() {
    let body = object_body(99, 1024);
    assert_eq!(body.len(), 1000);
    assert!(body.len() <= 1024 && body.len() + 100 > 1024);
    assert_eq!(object_body(99, 0), "");
    // Three-byte records fill an eight-byte object twice.
    assert_eq!(object_body(2, 8), "AA\nAA\n");
    // A size that is a whole number of records is filled exactly.
    assert_eq!(object_body(1, 6).len(), 6);
}

#[test]
fn object_keys_are_zero_padded() {
    assert_eq!(object_key("prefix/", 0), "prefix/00000");
    assert_eq!(object_key("p", 42), "p00042");
    assert_eq!(object_key("p", 123456), "p123456");
    for i in [0usize, 7, 99999, 100000, 31337] {
        assert_eq!(object_key("k-", i), format!("{}{:>05}", "k-", i));
    }
    assert_ne!(object_key("k", 1), object_key("k", 10));
}

#[test]
fn copy_source_joins_bucket_and_key() {
    assert_eq!(copy_source("bucket", "prefix00000"), "bucket/prefix00000");
}

#[test]
fn location_constraint_rules() {
    assert_eq!(location_constraint(None), None);
    assert_eq!(location_constraint(Some("us-east-1")), None);
    assert_eq!(location_constraint(Some("us-east-2")), Some("us-east-2".to_string()));
    assert_eq!(location_constraint(Some("eu-west-1")), Some("eu-west-1".to_string()));
}

#[test]
fn parse_object_size_units() {
    assert_eq!(parse_object_size("1 KiB"), Ok(1024));
    assert_eq!(parse_object_size("123"), Ok(123));
    assert_eq!(parse_object_size("1.23 MB"), Ok(1_230_000));
    assert_eq!(parse_object_size("2GiB"), Ok(2 * 1024 * 1024 * 1024));
}

#[test]
fn parse_object_size_error() {
    assert_eq!(parse_object_size("one kilobyte"), Err("Parse Error. Invalid byte format."));
    assert_eq!(parse_object_size(""), Err("Parse Error. Invalid byte format."));
}

#[test]
fn object_size_from_parsed_cases() {
    assert_eq!(object_size_from_parsed(Ok(5)), Ok(5));
    assert_eq!(object_size_from_parsed(Err("bad")), Err("bad"));
}

#[test]
fn foreign_digits_detected() {
    assert!(has_no_foreign_digits("1 KiB"));
    assert!(has_no_foreign_digits("héllo"));
    assert!(!has_no_foreign_digits("\u{0661}"));
    assert!(!has_no_foreign_digits("\u{FF11} KiB"));
    assert!(!has_no_foreign_digits("\u{BD}"));
}

#[test]
fn try_parse_object_size_cases() {
    assert_eq!(try_parse_object_size("1 KiB"), Some(Ok(1024)));
    assert_eq!(try_parse_object_size("\u{0661}"), None);
    assert_eq!(try_parse_object_size("\u{FF11} KiB"), None);
    assert_eq!(try_parse_object_size("caf\u{E9}"), Some(Err("Parse Error. Invalid byte format.")));
    // The Kelvin sign folds to `k`, and bytefmt then falls back to plain bytes.
    assert_eq!(try_parse_object_size("1 \u{212A}B"), Some(Ok(1)));
}

#[test]
fn copy_keys_follow_first_object() {
    assert!(copy_object_keys("p", 0).is_empty());
    assert!(copy_object_keys("p", 1).is_empty());
    assert_eq!(copy_object_keys("p", 3), vec!["p00001".to_string(), "p00002".to_string()]);
}
