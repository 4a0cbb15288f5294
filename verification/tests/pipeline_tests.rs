use axum_csv_to_json::addresses_to_result_with_csv_crate;
use axum_csv_to_json::addresses_to_result_with_own_csv_parser;
use axum_csv_to_json::parse_addresses;
use axum_csv_to_json::AddressType;
use axum_csv_to_json::ParseError;

const HEADER: &str = "reference,address_type,suite_number,street_number,street,city,state,postcode";

#[test]
fn test_addresses_to_result_with_own_csv_parser() {
    let file_content = format!(
        "{}\n{}\n{}\n",
        HEADER, "A1,house,,12,Main St,Springfield,IL,62701", "B2,appt,12B,7,Oak Ave,Columbus,OH,43004"
    );
    let result = addresses_to_result_with_own_csv_parser(file_content);
    assert!(result.is_ok());
    assert!(result.unwrap().starts_with('['));
}

#[test]
fn test_addresses_to_result_with_csv_crate() {
    let file_content = format!(
        "{}\n{}\n{}\n",
        HEADER, "A1,house,,12,Main St,Springfield,IL,62701", "B2,appt,12B,7,Oak Ave,Columbus,OH,43004"
    );
    let bytes = file_content.as_bytes();
    let result = addresses_to_result_with_csv_crate(bytes);
    assert!(result.is_ok());
    assert!(result.unwrap().starts_with('['));
}

#[test]
fn end_to_end_single_row() {
    let input = format!("{}\n{}", HEADER, "A1,house,,12,Main St,Springfield,IL,62701");
    let expected = "[{\"reference\":\"A1\",\"address_type\":\"house\",\"suite_number\":null,\"street_number\":12,\"street\":\"Main St\",\"city\":\"Springfield\",\"state\":\"IL\",\"postcode\":\"62701\"}]";
    let own = addresses_to_result_with_own_csv_parser(input.clone()).unwrap();
    assert_eq!(own, expected);
    let lib = addresses_to_result_with_csv_crate(input.as_bytes()).unwrap();
    assert_eq!(lib, expected);
}

#[test]
fn header_order_does_not_matter() {
    let a = format!("{}\n{}", HEADER, "A1,house,,12,Main St,Springfield,IL,62701");
    let b = format!(
        "{}\n{}",
        "postcode,state,city,street,street_number,suite_number,address_type,reference",
        "62701,IL,Springfield,Main St,12,,house,A1"
    );
    let ja = addresses_to_result_with_own_csv_parser(a).unwrap();
    let jb = addresses_to_result_with_own_csv_parser(b).unwrap();
    assert_eq!(ja, jb);
}

#[test]
fn quoted_field_with_delimiter_is_one_field() {
    let input = format!(
        "{}\n{}",
        HEADER, "A1,house,,12,\"123 Main, Suite 4\",Springfield,IL,62701"
    );
    let out = addresses_to_result_with_own_csv_parser(input).unwrap();
    assert!(out.contains("\"street\":\"123 Main, Suite 4\""));
}

#[test]
fn empty_input_fails_with_missing_header() {
    let r = addresses_to_result_with_own_csv_parser(String::new());
    assert!(matches!(r, Err(ParseError::MissingHeader)));
    let r = addresses_to_result_with_csv_crate(b"");
    assert!(matches!(r, Err(ParseError::MissingHeader)));
}

#[test]
fn invalid_utf8_fails_with_malformed_header() {
    let bytes: &[u8] = &[0xff, 0xfe, 0x41];
    let r = addresses_to_result_with_csv_crate(bytes);
    assert!(matches!(r, Err(ParseError::MalformedHeader)));
}

#[test]
fn unterminated_quote_in_header_is_malformed() {
    let r = addresses_to_result_with_own_csv_parser("\"reference,address_type".to_owned());
    assert!(matches!(r, Err(ParseError::MalformedHeader)));
}

#[test]
fn unterminated_quote_in_data_row_is_shape_mismatch() {
    let input = format!("{}\n{}", HEADER, "A1,house,,12,\"Main St,Springfield,IL,62701");
    let r = addresses_to_result_with_own_csv_parser(input);
    match r {
        Err(ParseError::RowShapeMismatch { row }) => assert_eq!(row, 0),
        other => panic!("expected a row shape mismatch, got {:?}", other.is_ok()),
    }
}

#[test]
fn missing_header_name_is_schema_mismatch() {
    let input = "reference,address_type,suite_number,street_number,street,city,state\n".to_owned();
    let r = addresses_to_result_with_own_csv_parser(input);
    match r {
        Err(ParseError::SchemaMismatch { missing, unexpected }) => {
            assert_eq!(missing, vec!["postcode".to_owned()]);
            assert!(unexpected.is_empty());
        },
        other => panic!("expected a schema mismatch, got {:?}", other.is_ok()),
    }
}

#[test]
fn extra_header_name_is_schema_mismatch() {
    let input = format!("{},extra\n", HEADER);
    let r = addresses_to_result_with_own_csv_parser(input);
    match r {
        Err(ParseError::SchemaMismatch { missing, unexpected }) => {
            assert!(missing.is_empty());
            assert_eq!(unexpected, vec!["extra".to_owned()]);
        },
        other => panic!("expected a schema mismatch, got {:?}", other.is_ok()),
    }
}

#[test]
fn short_row_is_shape_mismatch() {
    let input = format!("{}\n{}", HEADER, "A1,house,,12,Main St,Springfield,IL");
    let r = addresses_to_result_with_own_csv_parser(input);
    match r {
        Err(ParseError::RowShapeMismatch { row }) => assert_eq!(row, 0),
        other => panic!("expected a row shape mismatch, got {:?}", other.is_ok()),
    }
}

#[test]
fn second_bad_row_reports_its_index() {
    let input = format!(
        "{}\n{}\n{}",
        HEADER, "A1,house,,12,Main St,Springfield,IL,62701", "B2,house,,13,Main St,Springfield"
    );
    let r = addresses_to_result_with_own_csv_parser(input);
    match r {
        Err(ParseError::RowShapeMismatch { row }) => assert_eq!(row, 1),
        other => panic!("expected a row shape mismatch, got {:?}", other.is_ok()),
    }
}

#[test]
fn address_type_literals_are_exact() {
    for good in ["appt", "house", "suite"] {
        let input = format!("{}\nA1,{},,12,Main St,Springfield,IL,62701", HEADER, good);
        assert!(addresses_to_result_with_own_csv_parser(input).is_ok());
    }
    let input = format!("{}\nA1,Appt,,12,Main St,Springfield,IL,62701", HEADER);
    let r = addresses_to_result_with_own_csv_parser(input);
    match r {
        Err(ParseError::InvalidEnumValue { field, value }) => {
            assert_eq!(field, "address_type");
            assert_eq!(value, "Appt");
        },
        other => panic!("expected an enum failure, got {:?}", other.is_ok()),
    }
}

#[test]
fn street_number_round_trips_and_rejects_garbage() {
    let input = format!("{}\nA1,house,,007,Main St,Springfield,IL,62701", HEADER);
    let out = addresses_to_result_with_own_csv_parser(input).unwrap();
    assert!(out.contains("\"street_number\":7,"));

    let input = format!("{}\nA1,house,,4294967295,Main St,Springfield,IL,62701", HEADER);
    let out = addresses_to_result_with_own_csv_parser(input).unwrap();
    assert!(out.contains("\"street_number\":4294967295,"));

    for bad in ["-1", "abc", "", "12 ", "+3", "4294967296"] {
        let input = format!("{}\nA1,house,,{},Main St,Springfield,IL,62701", HEADER, bad);
        let r = addresses_to_result_with_own_csv_parser(input);
        match r {
            Err(ParseError::InvalidNumericValue { field, value }) => {
                assert_eq!(field, "street_number");
                assert_eq!(value, bad);
            },
            other => panic!("expected a numeric failure for {:?}, got {:?}", bad, other.is_ok()),
        }
    }
}

#[test]
fn suite_number_whitespace_is_absent() {
    let input = format!("{}\nA1,house,   ,12,Main St,Springfield,IL,62701", HEADER);
    let out = addresses_to_result_with_own_csv_parser(input).unwrap();
    assert!(out.contains("\"suite_number\":null"));

    let input = format!("{}\nA1,house, 12B ,12,Main St,Springfield,IL,62701", HEADER);
    let out = addresses_to_result_with_own_csv_parser(input).unwrap();
    assert!(out.contains("\"suite_number\":\"12B\""));
}

#[test]
fn quotes_in_fields_are_escaped_in_json() {
    let input = format!(
        "{}\n{}",
        HEADER, "\"say \"\"hi\"\"\",house,,12,Main St,Springfield,IL,62701"
    );
    let expected_fragment = "\"reference\":\"say \\\"hi\\\"\"";
    let own = addresses_to_result_with_own_csv_parser(input.clone()).unwrap();
    assert!(own.contains(expected_fragment));
    let lib = addresses_to_result_with_csv_crate(input.as_bytes()).unwrap();
    assert_eq!(own, lib);
}

#[test]
fn newline_inside_quoted_field_is_kept_and_escaped() {
    let input = format!(
        "{}\n{}",
        HEADER, "\"line1\nline2\",house,,12,Main St,Springfield,IL,62701"
    );
    let own = addresses_to_result_with_own_csv_parser(input.clone()).unwrap();
    assert!(own.contains("\"reference\":\"line1\\nline2\""));
    let lib = addresses_to_result_with_csv_crate(input.as_bytes()).unwrap();
    assert_eq!(own, lib);
}

#[test]
fn crlf_line_breaks_and_blank_lines_are_handled() {
    let input = format!(
        "{}\r\n{}\r\n\r\n{}\r\n",
        HEADER, "A1,house,,12,Main St,Springfield,IL,62701", "B2,suite,7A,9,Oak Ave,Columbus,OH,43004"
    );
    let records = parse_addresses(&input).unwrap();
    assert_eq!(records.len(), 2);
    assert_eq!(records[0].reference, "A1");
    assert_eq!(records[1].reference, "B2");
}

#[test]
fn duplicate_header_name_uses_first_occurrence() {
    let input = format!(
        "{},city\n{}",
        HEADER, "A1,house,,12,Main St,CityA,IL,62701,CityB"
    );
    let records = parse_addresses(&input).unwrap();
    assert_eq!(records.len(), 1);
    assert_eq!(records[0].city, "CityA");
}

#[test]
fn parse_addresses_yields_typed_records() {
    let input = format!("{}\nA1,house,,12,Main St,Springfield,IL,62701", HEADER);
    let records = parse_addresses(&input).unwrap();
    assert_eq!(records.len(), 1);
    let a = &records[0];
    assert_eq!(a.reference, "A1");
    assert_eq!(a.address_type, AddressType::House);
    assert_eq!(a.suite_number, None);
    assert_eq!(a.street_number, 12);
    assert_eq!(a.street, "Main St");
    assert_eq!(a.city, "Springfield");
    assert_eq!(a.state, "IL");
    assert_eq!(a.postcode, "62701");
}

#[test]
fn records_keep_input_order() {
    let input = format!(
        "{}\n{}\n{}",
        HEADER, "A1,house,,1,S1,C1,IL,1,", "B2,suite,2B,2,S2,C2,OH,2"
    );
    // first row has a trailing comma and so nine fields: a shape mismatch
    let r = addresses_to_result_with_own_csv_parser(input);
    assert!(matches!(r, Err(ParseError::RowShapeMismatch { row: 0 })));

    let input = format!(
        "{}\n{}\n{}",
        HEADER, "A1,house,,1,S1,C1,IL,01", "B2,suite,2B,2,S2,C2,OH,02"
    );
    let out = addresses_to_result_with_own_csv_parser(input).unwrap();
    let a1 = out.find("\"reference\":\"A1\"").unwrap();
    let b2 = out.find("\"reference\":\"B2\"").unwrap();
    assert!(a1 < b2);
    assert!(out.contains("\"postcode\":\"01\""));
}
