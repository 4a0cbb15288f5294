//! The typed record and the row decoder: one data record is coerced field
//! by field into an `Address`, or rejected with the first failure, in the
//! order the fields are examined.

use vstd::prelude::*;

verus! {

use crate::errors::ErrorV;
use crate::errors::ParseError;
use crate::schema::header_map_wf;
use crate::schema::HeaderMap;
use crate::text::chars_to_string;
use crate::text::parse_u32;
use crate::text::spec_parse_u32;
use crate::text::str_eq;
use crate::text::str_to_chars;
use crate::text::trim_chars;
use crate::text::trim_s;

/// The closed set of address kinds; anything else is rejected, never
/// defaulted.
#[derive(Clone, Copy, PartialEq, Eq, Structural, Debug)]
pub enum AddressType {
    Appt,
    House,
    Suite,
}

/// The enumeration literal of each kind.
pub open spec fn address_type_name(t: AddressType) -> Seq<char> {
    match t {
        AddressType::Appt => "appt"@,
        AddressType::House => "house"@,
        AddressType::Suite => "suite"@,
    }
}

/// Exact, case-sensitive reading of an enumeration literal.
pub open spec fn spec_address_type(s: Seq<char>) -> Option<AddressType> {
    if s == "appt"@ {
        Some(AddressType::Appt)
    } else if s == "house"@ {
        Some(AddressType::House)
    } else if s == "suite"@ {
        Some(AddressType::Suite)
    } else {
        None
    }
}

impl AddressType {
    /// Accepts exactly the three enumeration literals, case-sensitively.
    pub fn try_from(value: &str) -> (r: Option<AddressType>)
        ensures
            r == spec_address_type(value@),
    {
        if str_eq(value, "appt") {
            Some(AddressType::Appt)
        } else if str_eq(value, "house") {
            Some(AddressType::House)
        } else if str_eq(value, "suite") {
            Some(AddressType::Suite)
        } else {
            None
        }
    }

    /// The enumeration literal as an owned string.
    pub fn to_string(&self) -> (r: String)
        ensures
            r@ == address_type_name(*self),
    {
        match self {
            AddressType::Appt => "appt".to_owned(),
            AddressType::House => "house".to_owned(),
            AddressType::Suite => "suite".to_owned(),
        }
    }
}

/// One validated, typed output row. `postcode` stays text to preserve
/// leading zeros; only `suite_number` is trimmed, and a trimmed-empty
/// column means the value is absent.
pub struct Address {
    pub reference: String,
    pub address_type: AddressType,
    pub suite_number: Option<String>,
    pub street_number: u32,
    pub street: String,
    pub city: String,
    pub state: String,
    pub postcode: String,
}

/// The record as mathematics.
pub struct AddressV {
    pub reference: Seq<char>,
    pub address_type: AddressType,
    pub suite_number: Option<Seq<char>>,
    pub street_number: u32,
    pub street: Seq<char>,
    pub city: Seq<char>,
    pub state: Seq<char>,
    pub postcode: Seq<char>,
}

impl View for Address {
    type V = AddressV;

    open spec fn view(&self) -> AddressV {
        AddressV {
            reference: self.reference@,
            address_type: self.address_type,
            suite_number: self.suite_number.deep_view(),
            street_number: self.street_number,
            street: self.street@,
            city: self.city@,
            state: self.state@,
            postcode: self.postcode@,
        }
    }
}

impl DeepView for Address {
    type V = AddressV;

    open spec fn deep_view(&self) -> AddressV {
        self.view()
    }
}

/// Decode of one data record under a header map: shape first, then the
/// enumeration, then the number, then the texts taken verbatim. A map
/// whose positions do not fit its own column count cannot come from the
/// resolver; it is refused defensively as a schema mismatch.
pub open spec fn spec_decode_row(row: Seq<Seq<char>>, m: HeaderMap, idx: int) -> Result<
    AddressV,
    ErrorV,
> {
    if row.len() != m.columns {
        Err(ErrorV::RowShapeMismatch { row: idx })
    } else if !header_map_wf(m) {
        Err(ErrorV::SchemaMismatch { missing: Seq::empty(), unexpected: Seq::empty() })
    } else {
        match spec_address_type(row[m.address_type as int]) {
            None => Err(
                ErrorV::InvalidEnumValue {
                    field: "address_type"@,
                    value: row[m.address_type as int],
                },
            ),
            Some(t) => match spec_parse_u32(row[m.street_number as int]) {
                None => Err(
                    ErrorV::InvalidNumericValue {
                        field: "street_number"@,
                        value: row[m.street_number as int],
                    },
                ),
                Some(nval) => Ok(
                    AddressV {
                        reference: row[m.reference as int],
                        address_type: t,
                        suite_number: if trim_s(row[m.suite_number as int]).len() == 0 {
                            None
                        } else {
                            Some(trim_s(row[m.suite_number as int]))
                        },
                        street_number: nval,
                        street: row[m.street as int],
                        city: row[m.city as int],
                        state: row[m.state as int],
                        postcode: row[m.postcode as int],
                    },
                ),
            },
        }
    }
}

/// Decode one data record, `idx` being its position among the data
/// records, counted from zero.
pub fn decode_row(row: &Vec<String>, m: &HeaderMap, idx: usize) -> (r: Result<Address, ParseError>)
    ensures
        match r {
            Ok(a) => spec_decode_row(row.deep_view(), *m, idx as int) == Ok::<AddressV, ErrorV>(a@),
            Err(e) => spec_decode_row(row.deep_view(), *m, idx as int) == Err::<AddressV, ErrorV>(
                e@,
            ),
        },
{
    let ncols = row.len();
    if ncols != m.columns {
        return Err(ParseError::RowShapeMismatch { row: idx });
    }
    let wf = m.reference < m.columns && m.address_type < m.columns && m.suite_number < m.columns
        && m.street_number < m.columns && m.street < m.columns && m.city < m.columns && m.state
        < m.columns && m.postcode < m.columns;
    if !wf {
        let e = ParseError::SchemaMismatch { missing: Vec::new(), unexpected: Vec::new() };
        proof {
            assert(e@->SchemaMismatch_missing =~= Seq::<Seq<char>>::empty());
            assert(e@->SchemaMismatch_unexpected =~= Seq::<Seq<char>>::empty());
        }
        return Err(e);
    }
    proof {
        assert(row.deep_view()[m.reference as int] == row@[m.reference as int]@);
        assert(row.deep_view()[m.address_type as int] == row@[m.address_type as int]@);
        assert(row.deep_view()[m.suite_number as int] == row@[m.suite_number as int]@);
        assert(row.deep_view()[m.street_number as int] == row@[m.street_number as int]@);
        assert(row.deep_view()[m.street as int] == row@[m.street as int]@);
        assert(row.deep_view()[m.city as int] == row@[m.city as int]@);
        assert(row.deep_view()[m.state as int] == row@[m.state as int]@);
        assert(row.deep_view()[m.postcode as int] == row@[m.postcode as int]@);
    }
    let t = match AddressType::try_from(row[m.address_type].as_str()) {
        Some(t) => t,
        None => {
            return Err(
                ParseError::InvalidEnumValue {
                    field: "address_type".to_owned(),
                    value: row[m.address_type].clone(),
                },
            );
        },
    };
    let sn = match parse_u32(row[m.street_number].as_str()) {
        Some(v) => v,
        None => {
            return Err(
                ParseError::InvalidNumericValue {
                    field: "street_number".to_owned(),
                    value: row[m.street_number].clone(),
                },
            );
        },
    };
    let suite_raw = str_to_chars(row[m.suite_number].as_str());
    let trimmed = trim_chars(&suite_raw);
    let suite_number = if trimmed.len() == 0 {
        None
    } else {
        Some(chars_to_string(&trimmed))
    };
    let a = Address {
        reference: row[m.reference].clone(),
        address_type: t,
        suite_number,
        street_number: sn,
        street: row[m.street].clone(),
        city: row[m.city].clone(),
        state: row[m.state].clone(),
        postcode: row[m.postcode].clone(),
    };
    Ok(a)
}

/// Decode of a whole sequence of data records, in order, stopping at the
/// first failure: no partial output survives an error.
pub open spec fn spec_decode_rows(rows: Seq<Seq<Seq<char>>>, m: HeaderMap) -> Result<
    Seq<AddressV>,
    ErrorV,
>
    decreases rows.len(),
{
    if rows.len() == 0 {
        Ok(Seq::empty())
    } else {
        match spec_decode_rows(rows.drop_last(), m) {
            Err(e) => Err(e),
            Ok(s) => match spec_decode_row(rows.last(), m, rows.len() - 1) {
                Err(e) => Err(e),
                Ok(a) => Ok(s.push(a)),
            },
        }
    }
}

/// Once a prefix of the records fails, the whole input fails the same
/// way: the decoder aborts at the first failure and later records change
/// nothing.
pub proof fn lemma_decode_rows_err_extends(rows: Seq<Seq<Seq<char>>>, m: HeaderMap, k: int)
    requires
        0 <= k <= rows.len(),
        spec_decode_rows(rows.take(k), m) is Err,
    ensures
        spec_decode_rows(rows, m) == spec_decode_rows(rows.take(k), m),
    decreases rows.len() - k,
{
    if k < rows.len() {
        assert(rows.take(k + 1).drop_last() =~= rows.take(k));
        lemma_decode_rows_err_extends(rows, m, k + 1);
    } else {
        assert(rows.take(k) =~= rows);
    }
}

/// Pushing onto a vector of records pushes the record's view onto the
/// vector's deep view.
proof fn lemma_deep_view_push_address(v1: Vec<Address>, v2: Vec<Address>, x: Address)
    requires
        v2@ == v1@.push(x),
    ensures
        v2.deep_view() == v1.deep_view().push(x@),
{
    assert(v2.deep_view() =~= v1.deep_view().push(x@));
}

/// Decode every data record in input order, stopping at the first failure.
pub fn decode_rows(rows: &Vec<Vec<String>>, m: &HeaderMap) -> (r: Result<Vec<Address>, ParseError>)
    ensures
        match r {
            Ok(v) => spec_decode_rows(rows.deep_view(), *m) == Ok::<Seq<AddressV>, ErrorV>(
                v.deep_view(),
            ),
            Err(e) => spec_decode_rows(rows.deep_view(), *m) == Err::<Seq<AddressV>, ErrorV>(e@),
        },
{
    let ghost rs = rows.deep_view();
    let n = rows.len();
    proof {
        assert(rs.len() == n);
        assert(rs.take(0) =~= Seq::<Seq<Seq<char>>>::empty());
    }
    let mut out: Vec<Address> = Vec::new();
    proof {
        assert(out.deep_view() =~= Seq::<AddressV>::empty());
    }
    let mut i: usize = 0;
    while i < n
        invariant
            n == rows@.len(),
            rs == rows.deep_view(),
            rs.len() == n,
            i <= n,
            spec_decode_rows(rs.take(i as int), *m) == Ok::<Seq<AddressV>, ErrorV>(
                out.deep_view(),
            ),
        decreases n - i,
    {
        proof {
            assert(rows.deep_view()[i as int] == rows@[i as int].deep_view());
            assert(rs.take(i as int + 1).drop_last() =~= rs.take(i as int));
            assert(rs.take(i as int + 1).last() == rs[i as int]);
        }
        match decode_row(&rows[i], m, i) {
            Ok(a) => {
                let ghost out_pre = out;
                out.push(a);
                proof {
                    lemma_deep_view_push_address(out_pre, out, a);
                }
            },
            Err(e) => {
                proof {
                    assert(spec_decode_rows(rs.take(i as int + 1), *m) == Err::<
                        Seq<AddressV>,
                        ErrorV,
                    >(e@));
                    lemma_decode_rows_err_extends(rs, *m, i as int + 1);
                }
                return Err(e);
            },
        }
        i = i + 1;
    }
    proof {
        assert(rs.take(n as int) =~= rs);
    }
    Ok(out)
}

} // verus!
