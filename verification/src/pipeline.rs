//! The conversion pipeline: tokenize the whole input, resolve the header
//! record, decode every data record in order, and serialise. Each
//! invocation owns all of its state; every failure is detected eagerly
//! and aborts the run, so no partial output is ever produced.

use vstd::prelude::*;

verus! {

use crate::errors::ErrorV;
use crate::errors::ParseError;
use crate::json::addresses_to_json;
use crate::json::addresses_to_json_with_serde;
use crate::json::spec_addresses_json;
use crate::record::decode_rows;
use crate::record::spec_decode_rows;
use crate::record::Address;
use crate::record::AddressV;
use crate::schema::field_to_column_idx_map;
use crate::schema::header_ok;
use crate::schema::spec_header_map;
use crate::schema::spec_missing;
use crate::schema::spec_unexpected;
use crate::tokenizer::spec_tokenize;
use crate::tokenizer::tokenize;
use vstd::utf8::decode_utf8;
use vstd::utf8::valid_utf8;

/// The whole parse as mathematics: tokenize with the comma delimiter,
/// resolve the first record as the header, decode the rest in order.
pub open spec fn spec_parse(s: Seq<char>) -> Result<Seq<AddressV>, ErrorV> {
    match spec_tokenize(s, ',') {
        Err(n) => if n == 0 {
            Err(ErrorV::MalformedHeader)
        } else {
            Err(ErrorV::RowShapeMismatch { row: n - 1 })
        },
        Ok(rows) => {
            if rows.len() == 0 {
                Err(ErrorV::MissingHeader)
            } else if !header_ok(rows[0]) {
                Err(
                    ErrorV::SchemaMismatch {
                        missing: spec_missing(rows[0]),
                        unexpected: spec_unexpected(rows[0]),
                    },
                )
            } else {
                spec_decode_rows(rows.drop_first(), spec_header_map(rows[0]))
            }
        },
    }
}

/// Parse one delimited text into validated records, in input order.
///
/// Succeeds exactly when the input tokenizes, its header resolves to the
/// schema, and every data record decodes; otherwise returns the first
/// failure the pipeline meets.
pub fn parse_addresses(csv_content: &str) -> (r: Result<Vec<Address>, ParseError>)
    ensures
        match r {
            Ok(v) => spec_parse(csv_content@) == Ok::<Seq<AddressV>, ErrorV>(v.deep_view()),
            Err(e) => spec_parse(csv_content@) == Err::<Seq<AddressV>, ErrorV>(e@),
        },
{
    let mut rows = match tokenize(csv_content, ',') {
        Ok(rows) => rows,
        Err(n) => {
            if n == 0 {
                return Err(ParseError::MalformedHeader);
            } else {
                return Err(ParseError::RowShapeMismatch { row: n - 1 });
            }
        },
    };
    if rows.len() == 0 {
        return Err(ParseError::MissingHeader);
    }
    let ghost rows_dv = rows.deep_view();
    let header = rows.remove(0);
    proof {
        assert(header.deep_view() == rows_dv[0]);
        assert(rows.deep_view() =~= rows_dv.drop_first());
    }
    let m = match field_to_column_idx_map(&header) {
        Ok(m) => m,
        Err(e) => {
            return Err(e);
        },
    };
    decode_rows(&rows, &m)
}

/// Relies on `std::str::from_utf8`: it accepts exactly the valid UTF-8
/// byte sequences and yields the text they encode.
#[verifier::external_body]
fn bytes_to_str(bytes: &[u8]) -> (r: Option<&str>)
    ensures
        match r {
            Some(s) => valid_utf8(bytes@) && s@ == decode_utf8(bytes@),
            None => !valid_utf8(bytes@),
        },
{
    std::str::from_utf8(bytes).ok()
}

/// Convert a delimited text to its JSON rendering with the hand-made
/// serialiser. This back-end is total: the result is `Ok` exactly when
/// the parse succeeds.
pub fn addresses_to_result_with_own_csv_parser(csv_content: String) -> (r: Result<
    String,
    ParseError,
>)
    ensures
        match r {
            Ok(j) => spec_parse(csv_content@) matches Ok(avs) && j@ == spec_addresses_json(avs),
            Err(e) => spec_parse(csv_content@) matches Err(ev) && e@ == ev,
        },
{
    let addresses = match parse_addresses(csv_content.as_str()) {
        Ok(v) => v,
        Err(e) => {
            return Err(e);
        },
    };
    Ok(addresses_to_json(&addresses))
}

/// Convert delimited bytes to their JSON rendering with the
/// library-backed serialiser: the bytes are decoded as UTF-8 (anything
/// else is `MalformedHeader`), parsed as the text entry point does, and
/// every scalar of the output is encoded by `serde_json`. Success is
/// owed whenever the bytes decode and the parse succeeds, and the text
/// then equals the hand-made serialiser's.
pub fn addresses_to_result_with_csv_crate(bytes: &[u8]) -> (r: Result<String, ParseError>)
    ensures
        match r {
            Ok(j) => valid_utf8(bytes@) && (spec_parse(decode_utf8(bytes@)) matches Ok(avs) && j@
                == spec_addresses_json(avs)),
            Err(e) => {
                ||| (!valid_utf8(bytes@) && e@ == ErrorV::MalformedHeader)
                ||| (valid_utf8(bytes@) && (spec_parse(decode_utf8(bytes@)) matches Err(ev) && e@
                    == ev))
            },
        },
{
    let s = match bytes_to_str(bytes) {
        Some(s) => s,
        None => {
            return Err(ParseError::MalformedHeader);
        },
    };
    let addresses = match parse_addresses(s) {
        Ok(v) => v,
        Err(e) => {
            return Err(e);
        },
    };
    addresses_to_json_with_serde(&addresses)
}

} // verus!
