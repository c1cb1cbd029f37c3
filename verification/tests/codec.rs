use fetch_hooks::json::{
    parse_array_response, parse_person, parse_send_message_request_body, serialize_array_response,
    serialize_person, serialize_send_message_request_body, ArrayResponse, IntoList, Item, Person,
    SendMessageRequestBody,
};

fn chars(s: &str) -> Vec<char> {
    s.chars().collect()
}

#[test]
fn person_serializes_canonically() {
    let p = Person { name: chars("Ada") };
    assert_eq!(serialize_person(&p), chars("{\"name\":\"Ada\"}"));
}

#[test]
fn person_round_trip() {
    let p = Person { name: chars("Ada Lovelace") };
    let parsed = parse_person(&serialize_person(&p)).expect("round trip");
    assert_eq!(parsed.name, chars("Ada Lovelace"));
}

#[test]
fn person_empty_name_round_trip() {
    let p = Person { name: chars("") };
    let text = serialize_person(&p);
    assert_eq!(text, chars("{\"name\":\"\"}"));
    assert_eq!(parse_person(&text).expect("round trip").name, chars(""));
}

#[test]
fn person_parse_rejects_malformed() {
    assert!(parse_person(&chars("")).is_none());
    assert!(parse_person(&chars("{\"name\":\"Ada\"}x")).is_none());
    assert!(parse_person(&chars("{\"name\":\"Ada}")).is_none());
    assert!(parse_person(&chars("{\"name\":\"A\\\\da\"}")).is_none());
    assert!(parse_person(&chars("{\"nome\":\"Ada\"}")).is_none());
}

#[test]
fn query_round_trip() {
    let b = SendMessageRequestBody { query: chars("{ items { id } }") };
    let text = serialize_send_message_request_body(&b);
    assert_eq!(text, chars("{\"query\":\"{ items { id } }\"}"));
    let parsed = parse_send_message_request_body(&text).expect("round trip");
    assert_eq!(parsed.query, chars("{ items { id } }"));
}

#[test]
fn envelope_serializes_canonically() {
    let a = ArrayResponse { data: vec![Item { id: 1 }, Item { id: 2 }] };
    assert_eq!(serialize_array_response(&a), chars("{\"data\":[{\"id\":1},{\"id\":2}]}"));
}

#[test]
fn envelope_round_trip() {
    let a = ArrayResponse { data: vec![Item { id: 0 }, Item { id: 10 }, Item { id: 987654321 }] };
    let parsed = parse_array_response(&serialize_array_response(&a)).expect("round trip");
    assert_eq!(parsed.data, a.data);
}

#[test]
fn envelope_parse_preserves_order_and_length() {
    let parsed = parse_array_response(&chars("{\"data\":[{\"id\":1},{\"id\":2}]}"))
        .expect("canonical envelope");
    let items = parsed.items();
    assert_eq!(items.len(), 2);
    assert_eq!(items, vec![Item { id: 1 }, Item { id: 2 }]);
}

#[test]
fn empty_envelope_round_trip() {
    let a = ArrayResponse { data: vec![] };
    let text = serialize_array_response(&a);
    assert_eq!(text, chars("{\"data\":[]}"));
    assert_eq!(parse_array_response(&text).expect("round trip").data, vec![]);
}

#[test]
fn envelope_parse_rejects_malformed() {
    assert!(parse_array_response(&chars("{\"data\":[")).is_none());
    assert!(parse_array_response(&chars("{\"data\":[]}x")).is_none());
    assert!(parse_array_response(&chars("{\"data\":[{\"id\":01}]}")).is_none());
    assert!(parse_array_response(&chars("{\"data\":[{\"id\":1},]}")).is_none());
    assert!(parse_array_response(&chars("{\"data\":[{\"id\":}]}")).is_none());
    assert!(parse_array_response(&chars("{\"data\":{\"id\":1}}")).is_none());
}

#[test]
fn envelope_parse_handles_numeric_bounds() {
    let max = parse_array_response(&chars("{\"data\":[{\"id\":18446744073709551615}]}"))
        .expect("largest value fits");
    assert_eq!(max.data, vec![Item { id: u64::MAX }]);
    assert!(parse_array_response(&chars("{\"data\":[{\"id\":18446744073709551616}]}")).is_none());
}
