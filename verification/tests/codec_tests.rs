use slack_emoji::codec::render_record;
use slack_emoji::parse::parse_record;
use slack_emoji::record::{Emoji, ExtraField};

fn sample() -> Emoji {
    Emoji::new("blub")
}

#[test]
fn render_sample_exact() {
    let text = render_record(&sample()).expect("a plain record renders");
    let expected = "{\n  \"name\": \"blub\",\n  \"is_alias\": 0,\n  \"alias_for\": \"\",\n  \"url\": \"https://cdn.example.com/emoji.png\",\n  \"created\": 133742069,\n  \"user_display_name\": \"M3t0r\",\n  \"avatar_hash\": \"0xdeadbeef\"\n}";
    assert_eq!(text, expected);
}

#[test]
fn round_trip_plain() {
    let e = sample();
    let text = render_record(&e).expect("renders");
    let file = format!("{}\n", text);
    let back = parse_record(&file).expect("a rendered record parses back");
    assert_eq!(back.name, e.name);
    assert_eq!(back.is_alias, e.is_alias);
    assert_eq!(back.alias_for, e.alias_for);
    assert_eq!(back.url, e.url);
    assert_eq!(back.created, e.created);
    assert_eq!(back.user_display_name, e.user_display_name);
    assert_eq!(back.avatar_hash, e.avatar_hash);
    assert_eq!(back.unknown_fields.len(), 0);
}

#[test]
fn round_trip_with_extras() {
    let mut e = Emoji::new("party");
    e.created = 9;
    e.unknown_fields.push(ExtraField {
        key: String::from("synonyms"),
        value: String::from("[\"confetti\",\"tada\"]"),
    });
    e.unknown_fields.push(ExtraField {
        key: String::from("can_delete"),
        value: String::from("true"),
    });
    let text = render_record(&e).expect("renders");
    let file = format!("{}\n", text);
    let back = parse_record(&file).expect("parses back");
    assert_eq!(back.name, e.name);
    assert_eq!(back.unknown_fields.len(), 2);
    // unmodeled members come back byte for byte, in order
    assert_eq!(back.unknown_fields[0].key, "synonyms");
    assert_eq!(back.unknown_fields[0].value, "[\"confetti\",\"tada\"]");
    assert_eq!(back.unknown_fields[1].key, "can_delete");
    assert_eq!(back.unknown_fields[1].value, "true");
}

#[test]
fn round_trip_with_escapes() {
    let mut e = Emoji::new("odd");
    e.name = String::from("a\"b\\c");
    e.user_display_name = String::from("tab\there\u{7}bell");
    e.alias_for = String::from("émoji");
    let text = render_record(&e).expect("renders");
    assert!(text.contains("a\\\"b\\\\c"));
    assert!(text.contains("tab\\u0009here\\u0007bell"));
    let file = format!("{}\n", text);
    let back = parse_record(&file).expect("parses back");
    assert_eq!(back.name, "a\"b\\c");
    assert_eq!(back.user_display_name, "tab\there\u{7}bell");
    assert_eq!(back.alias_for, "émoji");
}

#[test]
fn serialize_error_on_multiline_extra() {
    let mut e = Emoji::new("bad");
    e.unknown_fields.push(ExtraField {
        key: String::from("note"),
        value: String::from("line one\nline two"),
    });
    let err = render_record(&e).expect_err("a multi-line value cannot be rendered");
    assert_eq!(err.name, "bad");
}

#[test]
fn serialize_error_on_trailing_comma_extra() {
    let mut e = Emoji::new("worse");
    e.unknown_fields.push(ExtraField {
        key: String::from("note"),
        value: String::from("oops,"),
    });
    let err = render_record(&e).expect_err("a trailing comma cannot be rendered");
    assert_eq!(err.name, "worse");
}

// A zero timestamp is the one numeral that may start with a zero.
#[test]
fn round_trip_zero_created() {
    let mut e = Emoji::new("dawn");
    e.created = 0;
    let text = render_record(&e).expect("renders");
    assert!(text.contains("\"created\": 0,"));
    let back = parse_record(&format!("{}\n", text)).expect("parses back");
    assert_eq!(back.created, 0);
}

#[test]
fn parse_rejects_malformed() {
    assert!(parse_record("{}\n").is_none());
    assert!(parse_record("").is_none());
    assert!(parse_record("not json at all").is_none());
    // missing members
    assert!(parse_record("{\n  \"name\": \"x\"\n}\n").is_none());
    // a leading zero is not canonical
    let leading_zero = "{\n  \"name\": \"b\",\n  \"is_alias\": 00,\n  \"alias_for\": \"\",\n  \"url\": \"u\",\n  \"created\": 1,\n  \"user_display_name\": \"d\",\n  \"avatar_hash\": \"h\"\n}\n";
    assert!(parse_record(leading_zero).is_none());
    // an is_alias flag beyond one byte is rejected
    let big_flag = "{\n  \"name\": \"b\",\n  \"is_alias\": 256,\n  \"alias_for\": \"\",\n  \"url\": \"u\",\n  \"created\": 1,\n  \"user_display_name\": \"d\",\n  \"avatar_hash\": \"h\"\n}\n";
    assert!(parse_record(big_flag).is_none());
    // trailing garbage after the closing brace
    let trailing = "{\n  \"name\": \"b\",\n  \"is_alias\": 0,\n  \"alias_for\": \"\",\n  \"url\": \"u\",\n  \"created\": 1,\n  \"user_display_name\": \"d\",\n  \"avatar_hash\": \"h\"\n}\nx";
    assert!(parse_record(trailing).is_none());
}

#[test]
fn parse_accepts_minimal() {
    let text = "{\n  \"name\": \"b\",\n  \"is_alias\": 1,\n  \"alias_for\": \"a\",\n  \"url\": \"\",\n  \"created\": 340282366920938463463374607431768211455,\n  \"user_display_name\": \"\",\n  \"avatar_hash\": \"\"\n}\n";
    let e = parse_record(text).expect("parses");
    assert_eq!(e.is_alias, 1);
    assert_eq!(e.created, u128::MAX);
    // one past the largest representable timestamp is rejected
    let over = "{\n  \"name\": \"b\",\n  \"is_alias\": 1,\n  \"alias_for\": \"a\",\n  \"url\": \"\",\n  \"created\": 340282366920938463463374607431768211456,\n  \"user_display_name\": \"\",\n  \"avatar_hash\": \"\"\n}\n";
    assert!(parse_record(over).is_none());
}
