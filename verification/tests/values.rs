use elucid::calendar::{
    accept_whole_millisecond, date_of, day_of, parse_timestamp_string, rfc3339_milliseconds,
    MAXIMUM_UNIX_MILLISECONDS, MINIMUM_UNIX_MILLISECONDS,
};
use elucid::codec::{push_be, push_be_i64, read_be};
use elucid::decimal::{
    float32_is_finite, float64_is_finite, parse_array_index, parse_i64, parse_u64,
};
use elucid::identity::{check_uuid_v7, BatchId};
use elucid::ingestion::model::BodyDigest;
use elucid::ingestion::record::{DeadLetterPayload, EventId, PayloadExtent};
use elucid::json::{append_json, parse_object, JsonValue};
use elucid::text::{chars_of, decimal, signed_decimal};

#[test]
fn big_endian_numbers_read_back() {
    let mut bytes = Vec::new();
    push_be(&mut bytes, 0x0102_0304, 4);
    assert_eq!(bytes, [1, 2, 3, 4]);
    push_be(&mut bytes, u128::MAX, 16);
    assert_eq!(read_be(&bytes, 0, 4), 0x0102_0304);
    assert_eq!(read_be(&bytes, 4, 20), u128::MAX);
    let mut bytes = Vec::new();
    push_be_i64(&mut bytes, -2);
    assert_eq!(bytes, (-2i64).to_be_bytes());
}

#[test]
fn digests_are_those_of_blake3() {
    assert_eq!(
        BodyDigest::calculate(b"").as_bytes()[..4],
        [0xaf, 0x13, 0x49, 0xb9]
    );
    assert_eq!(BodyDigest::calculate(b"abc").as_bytes(), blake3::hash(b"abc").as_bytes());
}

#[test]
fn identities_are_time_ordered() {
    let value = 0x018f_0000_0000_7000_8000_0000_0000_0001;
    assert!(check_uuid_v7(value));
    assert!(!check_uuid_v7(0x018f_0000_0000_4000_8000_0000_0000_0001));
    assert!(!check_uuid_v7(0x018f_0000_0000_7000_0000_0000_0000_0001));
    assert_eq!(BatchId::new(value).expect("an identity").as_u128(), value);
    assert!(BatchId::new(0).is_err());
    let id = BatchId::new(value).expect("an identity");
    assert_eq!(EventId::for_occurrence(id, 3), EventId::for_occurrence(id, 3));
    assert_ne!(EventId::for_occurrence(id, 3), EventId::for_occurrence(id, 4));
}

#[test]
fn integers_are_read_exactly() {
    assert_eq!(parse_i64(b"-9223372036854775808"), Some(i64::MIN));
    assert_eq!(parse_i64(b"9223372036854775808"), None);
    assert_eq!(parse_u64(b"18446744073709551615"), Some(u64::MAX));
    assert_eq!(parse_u64(b"18446744073709551616"), None);
    assert_eq!(parse_u64(b"-1"), None);
    assert_eq!(parse_i64(b"1.0"), None);
    assert_eq!(parse_i64(b""), None);
    assert_eq!(parse_array_index(b"0", 1), Some(0));
    assert_eq!(parse_array_index(b"01", 5), None);
    assert_eq!(parse_array_index(b"5", 5), None);
}

#[test]
fn finite_numerals_round_to_finite_floats() {
    for text in ["0", "-0", "1e38", "3.4028235e38", "3.4028236e38", "1e39", "-1e39", "1e-400"] {
        assert_eq!(
            float32_is_finite(text.as_bytes()),
            text.parse::<f32>().expect("a numeral").is_finite(),
            "{text}"
        );
    }
    for text in ["1.7976931348623157e308", "1.7976931348623159e308", "1e309", "12e307", "1e-9999"] {
        assert_eq!(
            float64_is_finite(text.as_bytes()),
            text.parse::<f64>().expect("a numeral").is_finite(),
            "{text}"
        );
    }
}

#[test]
fn days_and_dates_follow_the_calendar() {
    assert_eq!(day_of(0), Some(0));
    assert_eq!(day_of(-1), Some(-1));
    assert_eq!(day_of(86_400_000), Some(1));
    assert_eq!(day_of(MAXIMUM_UNIX_MILLISECONDS).is_some(), true);
    assert_eq!(day_of(MAXIMUM_UNIX_MILLISECONDS + 1), None);
    assert_eq!(day_of(MINIMUM_UNIX_MILLISECONDS - 1), None);
    assert_eq!(date_of(0), (1970, 1, 1));
    assert_eq!(date_of(-1), (1969, 12, 31));
    assert_eq!(date_of(20_685), (2026, 8, 20));
}

#[test]
fn timestamps_are_read_in_their_formats() {
    assert_eq!(rfc3339_milliseconds("1970-01-01T00:00:01.5Z"), Some(1_500));
    assert_eq!(rfc3339_milliseconds("1970-01-01T01:00:00+01:00"), Some(0));
    assert_eq!(rfc3339_milliseconds("1970-01-01T00:00:00.0001Z"), None);
    assert_eq!(rfc3339_milliseconds("1970-01-01"), None);
    assert_eq!(accept_whole_millisecond(None), None);
    assert_eq!(accept_whole_millisecond(Some((7, 3_000_000))), Some(7));
    assert_eq!(accept_whole_millisecond(Some((7, 3_000_001))), None);
    assert_eq!(parse_timestamp_string("1970-01-01T00:00:00.0019Z"), Some(1));
    assert_eq!(parse_timestamp_string("1970-01-01T00:00:01.25"), Some(1_250));
    assert_eq!(parse_timestamp_string("1970-01-01T00:00:01"), Some(1_000));
    assert_eq!(parse_timestamp_string("1970-01-02"), Some(86_400_000));
    assert_eq!(parse_timestamp_string("yesterday"), None);
}

#[test]
fn objects_are_read_strictly() {
    let object = parse_object(b" {\"a\": [1.50, true, null], \"b\\u0021\": {}} ").expect("an object");
    assert_eq!(object.members[1].0, "b!");
    let JsonValue::Array(items) = &object.members[0].1 else {
        panic!("an array");
    };
    assert!(matches!(&items[0], JsonValue::Number(text) if text == "1.50"));
    assert!(parse_object(b"{\"a\":1,\"a\":2}").is_none());
    assert!(parse_object(b"{\"a\":1}x").is_none());
    assert!(parse_object(b"[]").is_none());
    assert!(parse_object(b"{\"a\":01}").is_none());
    assert!(parse_object(b"{\"a\":\"\xff\"}").is_none());
    let mut deep = b"{\"a\":".to_vec();
    deep.extend(vec![b'['; 200]);
    deep.extend(vec![b']'; 200]);
    deep.push(b'}');
    assert!(parse_object(&deep).is_none());
}

#[test]
fn json_text_reads_back() {
    let object = parse_object(b"{\"k\":[false,\"q\\\"\\n\"],\"n\":-1e5}").expect("an object");
    let mut text = String::from("> ");
    append_json(&mut text, &JsonValue::Object(object));
    assert_eq!(text, "> {\"k\":[false,\"q\\\"\\n\"],\"n\":-1e+5}");
}

#[test]
fn payloads_keep_whole_characters() {
    let record = "é".repeat(3_000);
    let payload = DeadLetterPayload::from_record(record.as_bytes());
    assert_eq!(payload.extent(), PayloadExtent::Prefix);
    assert_eq!(payload.content().len(), 4_096);
    let record = format!("a{}", "é".repeat(3_000));
    let payload = DeadLetterPayload::from_record(record.as_bytes());
    assert_eq!(payload.content().len(), 4_095);
    assert!(record.starts_with(payload.content()));
}

#[test]
fn numbers_are_written_in_decimal() {
    assert_eq!(decimal(0), "0");
    assert_eq!(decimal(u64::MAX), "18446744073709551615");
    assert_eq!(signed_decimal(i64::MIN), "-9223372036854775808");
    assert_eq!(chars_of("aé"), ['a', 'é']);
}

#[test]
fn days_have_the_dates_of_the_gregorian_calendar() {
    for (day, date) in [
        (-719_162, (1, 1, 1)),
        (-1, (1969, 12, 31)),
        (0, (1970, 1, 1)),
        (59, (1970, 3, 1)),
        (789, (1972, 2, 29)),
        (11_016, (2000, 2, 29)),
        (47_540, (2100, 2, 28)),
        (47_541, (2100, 3, 1)),
    ] {
        assert_eq!(date_of(day), date, "{day}");
    }
}
