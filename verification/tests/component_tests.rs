use axum_csv_to_json::addresses_to_json;
use axum_csv_to_json::addresses_to_json_with_serde;
use axum_csv_to_json::field_to_column_idx_map;
use axum_csv_to_json::tokenize;
use axum_csv_to_json::Address;
use axum_csv_to_json::AddressType;
use axum_csv_to_json::ParseError;

fn strings(names: &[&str]) -> Vec<String> {
    names.iter().map(|n| (*n).to_owned()).collect()
}

#[test]
fn tokenizer_honours_quoting() {
    let rows = tokenize("a,\"b,c\",d\ne,f,\"g\ng\"\n", ',').unwrap();
    assert_eq!(rows.len(), 2);
    assert_eq!(rows[0], strings(&["a", "b,c", "d"]));
    assert_eq!(rows[1], strings(&["e", "f", "g\ng"]));
}

#[test]
fn tokenizer_doubles_quotes_and_keeps_empty_fields() {
    let rows = tokenize("\"he said \"\"no\"\"\",,x", ',').unwrap();
    assert_eq!(rows.len(), 1);
    assert_eq!(rows[0], strings(&["he said \"no\"", "", "x"]));
}

#[test]
fn tokenizer_skips_blank_lines_but_not_quoted_empties() {
    let rows = tokenize("a\n\n\nb\n\"\"\n", ',').unwrap();
    assert_eq!(rows.len(), 3);
    assert_eq!(rows[0], strings(&["a"]));
    assert_eq!(rows[1], strings(&["b"]));
    assert_eq!(rows[2], strings(&[""]));
}

#[test]
fn tokenizer_reports_unterminated_quote() {
    let r = tokenize("a,b\n\"open", ',');
    assert_eq!(r.unwrap_err(), 1);
}

#[test]
fn header_map_follows_column_positions() {
    let header = strings(&[
        "postcode",
        "state",
        "city",
        "street",
        "street_number",
        "suite_number",
        "address_type",
        "reference",
    ]);
    let m = field_to_column_idx_map(&header).unwrap();
    assert_eq!(m.reference, 7);
    assert_eq!(m.address_type, 6);
    assert_eq!(m.suite_number, 5);
    assert_eq!(m.street_number, 4);
    assert_eq!(m.street, 3);
    assert_eq!(m.city, 2);
    assert_eq!(m.state, 1);
    assert_eq!(m.postcode, 0);
    assert_eq!(m.columns, 8);
}

#[test]
fn header_map_reports_symmetric_difference() {
    let header = strings(&[
        "reference",
        "address_type",
        "suite_number",
        "street_number",
        "street",
        "town",
        "state",
    ]);
    match field_to_column_idx_map(&header) {
        Err(ParseError::SchemaMismatch { missing, unexpected }) => {
            assert_eq!(missing, strings(&["city", "postcode"]));
            assert_eq!(unexpected, strings(&["town"]));
        },
        _ => panic!("expected a schema mismatch"),
    }
}

#[test]
fn address_type_parses_exactly_three_literals() {
    assert_eq!(AddressType::try_from("appt"), Some(AddressType::Appt));
    assert_eq!(AddressType::try_from("house"), Some(AddressType::House));
    assert_eq!(AddressType::try_from("suite"), Some(AddressType::Suite));
    assert_eq!(AddressType::try_from("Appt"), None);
    assert_eq!(AddressType::try_from("HOUSE"), None);
    assert_eq!(AddressType::try_from(""), None);
    assert_eq!(AddressType::try_from("apt"), None);
    assert_eq!(AddressType::Suite.to_string(), "suite");
}

fn sample_address() -> Address {
    Address {
        reference: "R\t1".to_owned(),
        address_type: AddressType::Appt,
        suite_number: Some("9C".to_owned()),
        street_number: 4294967295,
        street: "Back\\slash Rd".to_owned(),
        city: "Uni\u{1}code".to_owned(),
        state: "OR".to_owned(),
        postcode: "00042".to_owned(),
    }
}

#[test]
fn both_serializers_emit_the_same_escaped_text() {
    let records = vec![sample_address()];
    let by_hand = addresses_to_json(&records);
    let by_library = addresses_to_json_with_serde(&records).unwrap();
    assert_eq!(by_hand, by_library);
    let expected = "[{\"reference\":\"R\\t1\",\"address_type\":\"appt\",\"suite_number\":\"9C\",\"street_number\":4294967295,\"street\":\"Back\\\\slash Rd\",\"city\":\"Uni\\u0001code\",\"state\":\"OR\",\"postcode\":\"00042\"}]";
    assert_eq!(by_hand, expected);
}

#[test]
fn serializer_joins_records_with_commas() {
    let mut second = sample_address();
    second.reference = "plain".to_owned();
    second.suite_number = None;
    second.street_number = 0;
    let records = vec![sample_address(), second];
    let out = addresses_to_json(&records);
    assert!(out.starts_with('['));
    assert!(out.ends_with(']'));
    assert!(out.contains("},{\"reference\":\"plain\""));
    assert!(out.contains("\"suite_number\":null,\"street_number\":0,"));
    assert_eq!(out, addresses_to_json_with_serde(&records).unwrap());
}

#[test]
fn empty_record_list_serialises_to_an_empty_array() {
    let records: Vec<Address> = Vec::new();
    assert_eq!(addresses_to_json(&records), "[]");
    assert_eq!(addresses_to_json_with_serde(&records).unwrap(), "[]");
}
