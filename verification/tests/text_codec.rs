use ticketing::codec::{decode_record, encode_record};
use ticketing::text::{parse_u32, ticket_key, u32_to_string};
use ticketing::{MyValue, Ticket, TicketError};

fn record(version: u32, id: u32, details: Option<(&str, &str, &str)>) -> MyValue {
    match details {
        None => MyValue {
            version,
            value: Ticket {
                id,
                taken: false,
                res_email: None,
                res_name: None,
                res_card: None,
            },
        },
        Some((email, name, card)) => MyValue {
            version,
            value: Ticket {
                id,
                taken: true,
                res_email: Some(email.to_string()),
                res_name: Some(name.to_string()),
                res_card: Some(card.to_string()),
            },
        },
    }
}

fn assert_same(a: &MyValue, b: &MyValue) {
    assert_eq!(a.version, b.version);
    assert_eq!(a.value.id, b.value.id);
    assert_eq!(a.value.taken, b.value.taken);
    assert_eq!(a.value.res_email, b.value.res_email);
    assert_eq!(a.value.res_name, b.value.res_name);
    assert_eq!(a.value.res_card, b.value.res_card);
}

#[test]
fn u32_to_string_exact() {
    assert_eq!(u32_to_string(0), "0");
    assert_eq!(u32_to_string(7), "7");
    assert_eq!(u32_to_string(1234567890), "1234567890");
    assert_eq!(u32_to_string(u32::MAX), "4294967295");
}

#[test]
fn parse_u32_accepts_numbers() {
    assert_eq!(parse_u32("0").unwrap(), 0);
    assert_eq!(parse_u32("42").unwrap(), 42);
    assert_eq!(parse_u32("+7").unwrap(), 7);
    assert_eq!(parse_u32("007").unwrap(), 7);
    assert_eq!(parse_u32("4294967295").unwrap(), u32::MAX);
}

#[test]
fn parse_u32_rejects_non_numbers() {
    assert_eq!(parse_u32("").unwrap_err(), TicketError::InvalidInput);
    assert_eq!(parse_u32("+").unwrap_err(), TicketError::InvalidInput);
    assert_eq!(parse_u32("abc").unwrap_err(), TicketError::InvalidInput);
    assert_eq!(parse_u32("12x").unwrap_err(), TicketError::InvalidInput);
    assert_eq!(parse_u32("-1").unwrap_err(), TicketError::InvalidInput);
    assert_eq!(parse_u32("4294967296").unwrap_err(), TicketError::InvalidInput);
    assert_eq!(
        parse_u32("99999999999999999999").unwrap_err(),
        TicketError::InvalidInput
    );
}

#[test]
fn ticket_key_text() {
    assert_eq!(ticket_key(0), "ticket-0");
    assert_eq!(ticket_key(712), "ticket-712");
}

#[test]
fn encode_has_the_documented_shape() {
    let v = record(0, 1, None);
    assert_eq!(
        encode_record(&v),
        "{\"version\":0,\"value\":{\"id\":1,\"taken\":false,\"res_email\":null,\"res_name\":null,\"res_card\":null}}"
    );
}

#[test]
fn encoded_record_is_valid_json() {
    let v = record(3, 9, Some(("a@b.co", "Ann", "4111")));
    let text = encode_record(&v);
    let parsed: serde_json::Value = serde_json::from_str(&text).unwrap();
    assert_eq!(parsed["version"].as_u64(), Some(3));
    assert_eq!(parsed["value"]["id"].as_u64(), Some(9));
    assert_eq!(parsed["value"]["taken"].as_bool(), Some(true));
    assert_eq!(parsed["value"]["res_email"].as_str(), Some("a@b.co"));
    assert_eq!(parsed["value"]["res_name"].as_str(), Some("Ann"));
    assert_eq!(parsed["value"]["res_card"].as_str(), Some("4111"));
}

#[test]
fn round_trip_available_record() {
    let v = record(0, 0, None);
    let back = decode_record(&encode_record(&v)).unwrap();
    assert_same(&v, &back);
}

#[test]
fn round_trip_taken_record() {
    let v = record(1, 42, Some(("a@b.co", "Ann", "4111-1111")));
    let back = decode_record(&encode_record(&v)).unwrap();
    assert_same(&v, &back);
}

#[test]
fn round_trip_awkward_detail_strings() {
    let v = record(
        u32::MAX,
        u32::MAX,
        Some((
            "we.i+rd-_mail@host-1.co.uk",
            "Ann \"The Boss\" O\\Hara",
            "\\\\\"\"{}[]:,null true",
        )),
    );
    let back = decode_record(&encode_record(&v)).unwrap();
    assert_same(&v, &back);
}

#[test]
fn round_trip_empty_detail_strings() {
    let v = record(2, 5, Some(("", "", "")));
    let back = decode_record(&encode_record(&v)).unwrap();
    assert_same(&v, &back);
}

#[test]
fn decode_rejects_malformed_text() {
    assert!(decode_record("").is_none());
    assert!(decode_record("{}").is_none());
    assert!(decode_record("{\"version\":0}").is_none());
    assert!(decode_record("{\"version\":x,\"value\":{\"id\":1,\"taken\":false,\"res_email\":null,\"res_name\":null,\"res_card\":null}}").is_none());
    // unterminated detail string
    assert!(decode_record("{\"version\":0,\"value\":{\"id\":1,\"taken\":false,\"res_email\":\"a@b.co,\"res_name\":null,\"res_card\":null}}").is_none());
    // trailing garbage
    assert!(decode_record("{\"version\":0,\"value\":{\"id\":1,\"taken\":false,\"res_email\":null,\"res_name\":null,\"res_card\":null}} ").is_none());
}
