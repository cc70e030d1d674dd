use ctf_announce::config::parse_webhooks;
use ctf_announce::digits::parse_i32;
use ctf_announce::digits::parse_u64;
use ctf_announce::digits::u64_to_string;

#[test]
fn renders_decimals_exactly() {
    assert_eq!(u64_to_string(0), "0");
    assert_eq!(u64_to_string(7), "7");
    assert_eq!(u64_to_string(100), "100");
    assert_eq!(u64_to_string(1234567890), "1234567890");
    assert_eq!(u64_to_string(u64::MAX), "18446744073709551615");
}

#[test]
fn parses_u64_like_std() {
    for s in [
        "0",
        "123",
        "+7",
        "007",
        "18446744073709551615",
        "18446744073709551616",
        "99999999999999999999999",
        "",
        "+",
        "abc",
        "12a",
        "-3",
        " 1",
    ] {
        assert_eq!(parse_u64(s), s.parse::<u64>().ok(), "input {:?}", s);
    }
}

#[test]
fn parses_i32_like_std() {
    for s in [
        "0",
        "64",
        "-5",
        "+12",
        "2147483647",
        "2147483648",
        "-2147483648",
        "-2147483649",
        "4x",
        "",
        "-",
        "+",
        "--4",
    ] {
        assert_eq!(parse_i32(s), s.parse::<i32>().ok(), "input {:?}", s);
    }
}

#[test]
fn drops_malformed_webhook_entries() {
    // The entry with a non-numeric id is dropped; the valid one stays.
    let dests = parse_webhooks("abc:tok,123:tok2");
    assert_eq!(dests, vec![(123u64, String::from("tok2"))]);
}

#[test]
fn keeps_webhook_entries_in_order() {
    let dests = parse_webhooks("1:a,2:b,3:c");
    assert_eq!(
        dests,
        vec![
            (1u64, String::from("a")),
            (2u64, String::from("b")),
            (3u64, String::from("c")),
        ]
    );
}

#[test]
fn webhook_token_is_the_second_colon_piece() {
    // The token is the piece between the first and second colon.
    let dests = parse_webhooks("1:a:b,2:c");
    assert_eq!(dests, vec![(1u64, String::from("a")), (2u64, String::from("c"))]);
}

#[test]
fn webhook_corner_cases() {
    assert_eq!(parse_webhooks(""), vec![]);
    assert_eq!(parse_webhooks("5"), vec![]);
    assert_eq!(parse_webhooks(":x"), vec![]);
    assert_eq!(parse_webhooks("7:"), vec![(7u64, String::new())]);
    assert_eq!(parse_webhooks(","), vec![]);
    assert_eq!(parse_webhooks("+8:t"), vec![(8u64, String::from("t"))]);
    assert_eq!(parse_webhooks("18446744073709551616:t"), vec![]);
}
