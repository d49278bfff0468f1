use fanwatch::text::{decimal_text, is_whitespace, parse_i32, scan};

#[test]
fn scan_2() {
    let fields = scan("1 2");
    assert_eq!(
        (fields.get(0).cloned(), fields.get(1).and_then(|word| parse_i32(word))),
        (Some("1".into()), Some(2))
    );
}

#[test]
fn scan_none() {
    let fields = scan("a b");
    assert_eq!(
        (
            fields.get(0).and_then(|word| parse_i32(word)),
            fields.get(1).and_then(|word| parse_i32(word))
        ),
        (None, None)
    );
}

#[test]
fn scan_splits_like_the_standard_library() {
    let lines = [
        "",
        " ",
        "a",
        "a b",
        "a  b",
        " a b",
        "a b ",
        "ALLOW 7\n",
        "ALLOW 7\r\n",
        "a\tb\u{b}c\u{c}d",
        "x\u{85}y\u{a0}z",
        "x\u{1680}y\u{2000}z\u{200a}w",
        "x\u{2028}y\u{2029}z\u{202f}w\u{205f}v\u{3000}u",
        "no\u{200b}split\u{feff}here",
        "\u{e9}t\u{e9} \u{4e2d}\u{6587} \u{1f600}",
    ];
    for line in lines {
        let expected: Vec<String> = line.split(char::is_whitespace).map(String::from).collect();
        assert_eq!(scan(line), expected);
    }
}

#[test]
fn scan_keeps_empty_fields() {
    assert_eq!(scan(""), vec![String::new()]);
    assert_eq!(scan("a  b"), vec!["a".to_string(), String::new(), "b".to_string()]);
    assert_eq!(scan(" a"), vec![String::new(), "a".to_string()]);
    assert_eq!(scan("a\n"), vec!["a".to_string(), String::new()]);
}

#[test]
fn white_space_is_that_of_the_standard_library() {
    for code in 0..=0x10ffffu32 {
        if let Some(c) = char::from_u32(code) {
            assert_eq!(is_whitespace(c), c.is_whitespace());
        }
    }
}

#[test]
fn parse_i32_reads_what_the_standard_library_reads() {
    let words = [
        "",
        "0",
        "7",
        "+7",
        "-7",
        "-0",
        "+0",
        "007",
        "-",
        "+",
        "--1",
        "+-1",
        "1 ",
        " 1",
        "1a",
        "a1",
        "1_000",
        "0x10",
        "2147483647",
        "2147483648",
        "-2147483648",
        "-2147483649",
        "+2147483647",
        "+2147483648",
        "4294967296",
        "99999999999999999999999999",
        "-99999999999999999999999999",
        "00000000000000000000000000000001",
        "\u{661}",
        "1\u{662}",
        "12.5",
    ];
    for word in words {
        assert_eq!(parse_i32(word), word.parse::<i32>().ok());
    }
}

#[test]
fn parse_i32_exact_values() {
    assert_eq!(parse_i32("7"), Some(7));
    assert_eq!(parse_i32("-12"), Some(-12));
    assert_eq!(parse_i32("+2147483647"), Some(i32::MAX));
    assert_eq!(parse_i32("-2147483648"), Some(i32::MIN));
    assert_eq!(parse_i32("2147483648"), None);
    assert_eq!(parse_i32(""), None);
    assert_eq!(parse_i32("-"), None);
}

#[test]
fn decimal_text_writes_what_the_standard_library_writes() {
    let values = [
        0i64,
        1,
        9,
        10,
        11,
        99,
        100,
        123,
        -1,
        -9,
        -10,
        -123,
        2147483647,
        -2147483648,
        4294967295,
        i64::MAX,
        i64::MIN,
        i64::MIN + 1,
    ];
    for value in values {
        assert_eq!(decimal_text(value), value.to_string().into_bytes());
    }
    assert_eq!(decimal_text(1203), b"1203".to_vec());
    assert_eq!(decimal_text(-40), b"-40".to_vec());
}

#[test]
fn a_written_descriptor_reads_back() {
    for fd in [0, 1, 2, 9, 10, 255, 1024, 65535, i32::MAX, -1, i32::MIN] {
        let text = String::from_utf8(decimal_text(fd as i64)).unwrap();
        assert_eq!(parse_i32(&text), Some(fd));
    }
}
