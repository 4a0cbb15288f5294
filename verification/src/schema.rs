//! The fixed schema and the header resolver: the first record of the input
//! names the columns, in any order, and must carry exactly the eight
//! logical field names. The resolver turns it into a map from logical
//! field to column position, or reports the symmetric difference between
//! what was expected and what was found.

use vstd::prelude::*;

verus! {

use crate::errors::ErrorV;
use crate::errors::ParseError;
use crate::text::lemma_deep_view_push_string;
use crate::text::str_eq;

/// The eight logical field names, in schema order.
pub open spec fn schema_names() -> Seq<Seq<char>> {
    seq![
        "reference"@,
        "address_type"@,
        "suite_number"@,
        "street_number"@,
        "street"@,
        "city"@,
        "state"@,
        "postcode"@,
    ]
}

/// Whether a header token is one of the schema names.
pub open spec fn is_schema_name(s: Seq<char>) -> bool {
    schema_names().contains(s)
}

/// The schema names at their positions.
pub proof fn lemma_schema_names_index()
    ensures
        schema_names().len() == 8,
        schema_names()[0] == "reference"@,
        schema_names()[1] == "address_type"@,
        schema_names()[2] == "suite_number"@,
        schema_names()[3] == "street_number"@,
        schema_names()[4] == "street"@,
        schema_names()[5] == "city"@,
        schema_names()[6] == "state"@,
        schema_names()[7] == "postcode"@,
{
}

/// A header is acceptable when every token is a schema name and every
/// schema name occurs; duplicates collapse onto their first occurrence.
pub open spec fn header_ok(h: Seq<Seq<char>>) -> bool {
    &&& forall|i: int| 0 <= i < h.len() ==> is_schema_name(#[trigger] h[i])
    &&& forall|k: int|
        0 <= k < schema_names().len() ==> h.contains(#[trigger] schema_names()[k])
}

/// The schema names among the first `k` that the header does not carry,
/// in schema order.
pub open spec fn missing_upto(h: Seq<Seq<char>>, k: int) -> Seq<Seq<char>>
    decreases k,
{
    if k <= 0 {
        Seq::empty()
    } else {
        let rest = missing_upto(h, k - 1);
        if h.contains(schema_names()[k - 1]) {
            rest
        } else {
            rest.push(schema_names()[k - 1])
        }
    }
}

/// The schema names the header does not carry, in schema order.
pub open spec fn spec_missing(h: Seq<Seq<char>>) -> Seq<Seq<char>> {
    missing_upto(h, schema_names().len() as int)
}

/// The header tokens among the first `i` that are no schema name, in
/// input order, duplicates kept.
pub open spec fn unexpected_upto(h: Seq<Seq<char>>, i: int) -> Seq<Seq<char>>
    decreases i,
{
    if i <= 0 {
        Seq::empty()
    } else {
        let rest = unexpected_upto(h, i - 1);
        if is_schema_name(h[i - 1]) {
            rest
        } else {
            rest.push(h[i - 1])
        }
    }
}

/// The header tokens that are no schema name, in input order.
pub open spec fn spec_unexpected(h: Seq<Seq<char>>) -> Seq<Seq<char>> {
    unexpected_upto(h, h.len() as int)
}

/// No name is missing among the first `k` exactly when each of them occurs.
proof fn lemma_missing_upto_empty(h: Seq<Seq<char>>, k: int)
    requires
        0 <= k <= schema_names().len(),
    ensures
        (missing_upto(h, k).len() == 0) <==> (forall|j: int|
            0 <= j < k ==> h.contains(#[trigger] schema_names()[j])),
    decreases k,
{
    if k > 0 {
        lemma_missing_upto_empty(h, k - 1);
    }
}

/// No token is unexpected among the first `i` exactly when each is a
/// schema name.
proof fn lemma_unexpected_upto_empty(h: Seq<Seq<char>>, i: int)
    requires
        0 <= i <= h.len(),
    ensures
        (unexpected_upto(h, i).len() == 0) <==> (forall|j: int|
            0 <= j < i ==> is_schema_name(#[trigger] h[j])),
    decreases i,
{
    if i > 0 {
        lemma_unexpected_upto_empty(h, i - 1);
    }
}

/// A header is acceptable exactly when both sides of the symmetric
/// difference are empty.
pub proof fn lemma_header_ok_iff(h: Seq<Seq<char>>)
    ensures
        header_ok(h) <==> (spec_missing(h).len() == 0 && spec_unexpected(h).len() == 0),
{
    lemma_missing_upto_empty(h, schema_names().len() as int);
    lemma_unexpected_upto_empty(h, h.len() as int);
}

/// Position of the first occurrence of `name` in the header.
pub open spec fn first_index_where(h: Seq<Seq<char>>, name: Seq<char>) -> int
    decreases h.len(),
{
    if h.len() == 0 {
        0
    } else if h[0] == name {
        0
    } else {
        1 + first_index_where(h.drop_first(), name)
    }
}

/// When the header carries `name`, its first occurrence is at the index
/// this spec names, earlier positions differ, and the index is in range.
pub proof fn lemma_first_index_where(h: Seq<Seq<char>>, name: Seq<char>)
    requires
        h.contains(name),
    ensures
        0 <= first_index_where(h, name) < h.len(),
        h[first_index_where(h, name)] == name,
        forall|j: int| 0 <= j < first_index_where(h, name) ==> h[j] != name,
    decreases h.len(),
{
    if h.len() > 0 && h[0] != name {
        let k = choose|k: int| 0 <= k < h.len() && h[k] == name;
        assert(h.drop_first()[k - 1] == h[k]);
        assert(h.drop_first().contains(name));
        lemma_first_index_where(h.drop_first(), name);
        let i = first_index_where(h.drop_first(), name);
        assert(h[1 + i] == h.drop_first()[i]);
        assert forall|j: int| 0 <= j < 1 + i implies h[j] != name by {
            if j > 0 {
                assert(h.drop_first()[j - 1] == h[j]);
            }
        }
    }
}

/// An index that is a first occurrence is the first occurrence.
pub proof fn lemma_first_index_unique(h: Seq<Seq<char>>, name: Seq<char>, i: int)
    requires
        0 <= i < h.len(),
        h[i] == name,
        forall|j: int| 0 <= j < i ==> h[j] != name,
    ensures
        first_index_where(h, name) == i,
    decreases h.len(),
{
    if i > 0 {
        assert(h[0] != name);
        assert(h.drop_first()[i - 1] == h[i]);
        assert forall|j: int| 0 <= j < i - 1 implies h.drop_first()[j] != name by {
            assert(h.drop_first()[j] == h[j + 1]);
        }
        lemma_first_index_unique(h.drop_first(), name, i - 1);
    }
}

/// The resolved header: the column position of each logical field, and the
/// number of columns a data record must have.
#[derive(Clone, Copy)]
pub struct HeaderMap {
    pub reference: usize,
    pub address_type: usize,
    pub suite_number: usize,
    pub street_number: usize,
    pub street: usize,
    pub city: usize,
    pub state: usize,
    pub postcode: usize,
    pub columns: usize,
}

/// The map an acceptable header resolves to: each field at the first
/// occurrence of its name.
pub open spec fn spec_header_map(h: Seq<Seq<char>>) -> HeaderMap {
    HeaderMap {
        reference: first_index_where(h, "reference"@) as usize,
        address_type: first_index_where(h, "address_type"@) as usize,
        suite_number: first_index_where(h, "suite_number"@) as usize,
        street_number: first_index_where(h, "street_number"@) as usize,
        street: first_index_where(h, "street"@) as usize,
        city: first_index_where(h, "city"@) as usize,
        state: first_index_where(h, "state"@) as usize,
        postcode: first_index_where(h, "postcode"@) as usize,
        columns: h.len() as usize,
    }
}

/// Every field position lies inside the record shape the map demands.
pub open spec fn header_map_wf(m: HeaderMap) -> bool {
    &&& m.reference < m.columns
    &&& m.address_type < m.columns
    &&& m.suite_number < m.columns
    &&& m.street_number < m.columns
    &&& m.street < m.columns
    &&& m.city < m.columns
    &&& m.state < m.columns
    &&& m.postcode < m.columns
}

/// Whether a header token is one of the schema names.
pub fn is_schema_name_x(s: &str) -> (b: bool)
    ensures
        b == is_schema_name(s@),
{
    proof {
        lemma_schema_names_index();
    }
    if str_eq(s, "reference") {
        proof {
            assert(schema_names()[0] == s@);
        }
        return true;
    }
    if str_eq(s, "address_type") {
        proof {
            assert(schema_names()[1] == s@);
        }
        return true;
    }
    if str_eq(s, "suite_number") {
        proof {
            assert(schema_names()[2] == s@);
        }
        return true;
    }
    if str_eq(s, "street_number") {
        proof {
            assert(schema_names()[3] == s@);
        }
        return true;
    }
    if str_eq(s, "street") {
        proof {
            assert(schema_names()[4] == s@);
        }
        return true;
    }
    if str_eq(s, "city") {
        proof {
            assert(schema_names()[5] == s@);
        }
        return true;
    }
    if str_eq(s, "state") {
        proof {
            assert(schema_names()[6] == s@);
        }
        return true;
    }
    if str_eq(s, "postcode") {
        proof {
            assert(schema_names()[7] == s@);
        }
        return true;
    }
    proof {
        assert forall|i: int| 0 <= i < schema_names().len() implies #[trigger] schema_names()[i]
            != s@ by {
            lemma_schema_names_index();
        }
    }
    false
}

/// First column whose name is `name`, scanning left to right.
pub fn find_first(h: &Vec<String>, name: &str) -> (r: Option<usize>)
    ensures
        match r {
            Some(i) => i < h@.len() && h.deep_view()[i as int] == name@ && (forall|j: int|
                0 <= j < i ==> h.deep_view()[j] != name@),
            None => !h.deep_view().contains(name@),
        },
{
    let n = h.len();
    let mut i: usize = 0;
    while i < n
        invariant
            n == h@.len(),
            i <= n,
            forall|j: int| 0 <= j < i ==> h.deep_view()[j] != name@,
        decreases n - i,
    {
        proof {
            assert(h.deep_view()[i as int] == h@[i as int]@);
        }
        if str_eq(h[i].as_str(), name) {
            return Some(i);
        }
        i = i + 1;
    }
    proof {
        assert forall|j: int| 0 <= j < h.deep_view().len() implies h.deep_view()[j] != name@ by {}
    }
    None
}

/// Resolve the header record into a `HeaderMap`.
///
/// Succeeds exactly when the set of distinct header names equals the
/// schema; otherwise reports the schema names that are missing and the
/// header names that do not belong, never guessing at intent.
pub fn field_to_column_idx_map(column_names: &Vec<String>) -> (r: Result<HeaderMap, ParseError>)
    ensures
        match r {
            Ok(m) => header_ok(column_names.deep_view()) && m == spec_header_map(
                column_names.deep_view(),
            ),
            Err(e) => !header_ok(column_names.deep_view()) && e@ == ErrorV::SchemaMismatch {
                missing: spec_missing(column_names.deep_view()),
                unexpected: spec_unexpected(column_names.deep_view()),
            },
        },
{
    let ghost h = column_names.deep_view();
    let n = column_names.len();
    proof {
        assert(h.len() == n);
    }
    let mut unexpected: Vec<String> = Vec::new();
    proof {
        assert(unexpected.deep_view() =~= unexpected_upto(h, 0));
    }
    let mut i: usize = 0;
    while i < n
        invariant
            n == column_names@.len(),
            h == column_names.deep_view(),
            h.len() == n,
            i <= n,
            unexpected.deep_view() == unexpected_upto(h, i as int),
        decreases n - i,
    {
        proof {
            assert(h[i as int] == column_names@[i as int]@);
        }
        if !is_schema_name_x(column_names[i].as_str()) {
            let ghost un_pre = unexpected;
            let tok = column_names[i].clone();
            unexpected.push(tok);
            proof {
                lemma_deep_view_push_string(un_pre, unexpected, tok);
            }
        }
        i = i + 1;
    }
    proof {
        assert(unexpected.deep_view() == spec_unexpected(h));
    }
    proof {
        lemma_schema_names_index();
    }
    let r_reference = find_first(column_names, "reference");
    let r_address_type = find_first(column_names, "address_type");
    let r_suite_number = find_first(column_names, "suite_number");
    let r_street_number = find_first(column_names, "street_number");
    let r_street = find_first(column_names, "street");
    let r_city = find_first(column_names, "city");
    let r_state = find_first(column_names, "state");
    let r_postcode = find_first(column_names, "postcode");
    let all_found = r_reference.is_some() && r_address_type.is_some() && r_suite_number.is_some()
        && r_street_number.is_some() && r_street.is_some() && r_city.is_some()
        && r_state.is_some() && r_postcode.is_some();
    if all_found && unexpected.len() == 0 {
        let m = HeaderMap {
            reference: r_reference.unwrap(),
            address_type: r_address_type.unwrap(),
            suite_number: r_suite_number.unwrap(),
            street_number: r_street_number.unwrap(),
            street: r_street.unwrap(),
            city: r_city.unwrap(),
            state: r_state.unwrap(),
            postcode: r_postcode.unwrap(),
            columns: n,
        };
        proof {
            lemma_unexpected_upto_empty(h, h.len() as int);
            lemma_first_index_unique(h, "reference"@, m.reference as int);
            lemma_first_index_unique(h, "address_type"@, m.address_type as int);
            lemma_first_index_unique(h, "suite_number"@, m.suite_number as int);
            lemma_first_index_unique(h, "street_number"@, m.street_number as int);
            lemma_first_index_unique(h, "street"@, m.street as int);
            lemma_first_index_unique(h, "city"@, m.city as int);
            lemma_first_index_unique(h, "state"@, m.state as int);
            lemma_first_index_unique(h, "postcode"@, m.postcode as int);
            assert forall|k: int|
                0 <= k < schema_names().len() implies h.contains(
                #[trigger] schema_names()[k],
            ) by {
                lemma_schema_names_index();
            }
            assert(header_ok(h));
            assert(m == spec_header_map(h));
        }
        Ok(m)
    } else {
        let mut missing: Vec<String> = Vec::new();
        proof {
            assert(missing.deep_view() =~= missing_upto(h, 0));
        }
        if r_reference.is_none() {
            let ghost mi_pre = missing;
            let tok = "reference".to_owned();
            missing.push(tok);
            proof {
                lemma_deep_view_push_string(mi_pre, missing, tok);
            }
        }
        proof {
            assert(missing.deep_view() == missing_upto(h, 1));
        }
        if r_address_type.is_none() {
            let ghost mi_pre = missing;
            let tok = "address_type".to_owned();
            missing.push(tok);
            proof {
                lemma_deep_view_push_string(mi_pre, missing, tok);
            }
        }
        proof {
            assert(missing.deep_view() == missing_upto(h, 2));
        }
        if r_suite_number.is_none() {
            let ghost mi_pre = missing;
            let tok = "suite_number".to_owned();
            missing.push(tok);
            proof {
                lemma_deep_view_push_string(mi_pre, missing, tok);
            }
        }
        proof {
            assert(missing.deep_view() == missing_upto(h, 3));
        }
        if r_street_number.is_none() {
            let ghost mi_pre = missing;
            let tok = "street_number".to_owned();
            missing.push(tok);
            proof {
                lemma_deep_view_push_string(mi_pre, missing, tok);
            }
        }
        proof {
            assert(missing.deep_view() == missing_upto(h, 4));
        }
        if r_street.is_none() {
            let ghost mi_pre = missing;
            let tok = "street".to_owned();
            missing.push(tok);
            proof {
                lemma_deep_view_push_string(mi_pre, missing, tok);
            }
        }
        proof {
            assert(missing.deep_view() == missing_upto(h, 5));
        }
        if r_city.is_none() {
            let ghost mi_pre = missing;
            let tok = "city".to_owned();
            missing.push(tok);
            proof {
                lemma_deep_view_push_string(mi_pre, missing, tok);
            }
        }
        proof {
            assert(missing.deep_view() == missing_upto(h, 6));
        }
        if r_state.is_none() {
            let ghost mi_pre = missing;
            let tok = "state".to_owned();
            missing.push(tok);
            proof {
                lemma_deep_view_push_string(mi_pre, missing, tok);
            }
        }
        proof {
            assert(missing.deep_view() == missing_upto(h, 7));
        }
        if r_postcode.is_none() {
            let ghost mi_pre = missing;
            let tok = "postcode".to_owned();
            missing.push(tok);
            proof {
                lemma_deep_view_push_string(mi_pre, missing, tok);
            }
        }
        proof {
            assert(missing.deep_view() == missing_upto(h, 8));
            assert(missing.deep_view() == spec_missing(h));
            lemma_header_ok_iff(h);
            if missing.deep_view().len() == 0 && unexpected.deep_view().len() == 0 {
                lemma_missing_upto_empty(h, schema_names().len() as int);
                assert(h.contains(schema_names()[0]));
                assert(h.contains(schema_names()[1]));
                assert(h.contains(schema_names()[2]));
                assert(h.contains(schema_names()[3]));
                assert(h.contains(schema_names()[4]));
                assert(h.contains(schema_names()[5]));
                assert(h.contains(schema_names()[6]));
                assert(h.contains(schema_names()[7]));
                assert(false);
            }
            assert(!header_ok(h));
        }
        Err(ParseError::SchemaMismatch { missing, unexpected })
    }
}

} // verus!
