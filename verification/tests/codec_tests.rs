use chat_hub::codec::decode_command;
use chat_hub::codec::encode_count;
use chat_hub::codec::str_eq;

#[test]
fn decode_pressed() {
    assert_eq!(decode_command("{\"t\":\"pressed\"}").as_deref(), Some("pressed"));
}

#[test]
fn decode_other_tag() {
    assert_eq!(decode_command("{\"t\":\"hello\"}").as_deref(), Some("hello"));
}

#[test]
fn decode_empty_tag() {
    assert_eq!(decode_command("{\"t\":\"\"}").as_deref(), Some(""));
}

#[test]
fn decode_rejects_empty_input() {
    assert_eq!(decode_command(""), None);
}

#[test]
fn decode_rejects_short_input() {
    assert_eq!(decode_command("{\"t\":\""), None);
}

#[test]
fn decode_rejects_wrong_prefix() {
    assert_eq!(decode_command("{\"x\":\"pressed\"}"), None);
    assert_eq!(decode_command("[\"t\":\"pressed\"}"), None);
}

#[test]
fn decode_rejects_wrong_suffix() {
    assert_eq!(decode_command("{\"t\":\"pressed\"]"), None);
    assert_eq!(decode_command("{\"t\":\"pressed\" }"), None);
}

#[test]
fn decode_rejects_quote_in_tag() {
    assert_eq!(decode_command("{\"t\":\"a\"b\"}"), None);
}

#[test]
fn decode_rejects_backslash_in_tag() {
    assert_eq!(decode_command("{\"t\":\"a\\b\"}"), None);
}

#[test]
fn decode_rejects_number_payload() {
    assert_eq!(decode_command("{\"t\":2}"), None);
}

#[test]
fn encode_zero() {
    assert_eq!(encode_count(0), "{\"t\":\"count\",\"c\":0}");
}

#[test]
fn encode_small() {
    assert_eq!(encode_count(2), "{\"t\":\"count\",\"c\":2}");
}

#[test]
fn encode_two_digits() {
    assert_eq!(encode_count(10), "{\"t\":\"count\",\"c\":10}");
}

#[test]
fn encode_large() {
    assert_eq!(encode_count(1234567890123), "{\"t\":\"count\",\"c\":1234567890123}");
}

#[test]
fn encode_max() {
    assert_eq!(
        encode_count(u64::MAX),
        "{\"t\":\"count\",\"c\":18446744073709551615}"
    );
}

#[test]
fn encode_then_decode_is_not_a_command_frame() {
    // The outbound counter frame has structure beyond a single tag, so it
    // is not itself a well-formed inbound command.
    assert_eq!(decode_command(&encode_count(7)), None);
}

#[test]
fn str_eq_basic() {
    assert!(str_eq("pressed", "pressed"));
    assert!(!str_eq("pressed", "presses"));
    assert!(!str_eq("pressed", "press"));
    assert!(str_eq("", ""));
}
