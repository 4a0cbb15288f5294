//! JSON emission. Two interchangeable back-ends produce the same text: a
//! manually-assembled emitter, verified character by character, and a
//! library-backed emitter that delegates every scalar to `serde_json`.
//! The output is one JSON array, one object per record in input order,
//! with the eight logical field names as keys; an absent `suite_number`
//! serialises as `null`, and `street_number` as a JSON integer.

use vstd::prelude::*;

verus! {

use crate::errors::ParseError;
use crate::record::address_type_name;
use crate::record::Address;
use crate::record::AddressV;
use crate::text::chars_to_string;
use crate::text::u32_dec;
use crate::text::u32_to_dec_chars;
use vstd::string::StrSliceExecFns;

/// Lowercase hexadecimal digit.
pub open spec fn hex_digit(d: nat) -> char {
    if d < 10 {
        ((d + ('0' as u32)) as u8) as char
    } else {
        ((d - 10 + ('a' as u32)) as u8) as char
    }
}

/// The JSON escape of one character: the two-character escapes for the
/// quote, the backslash and the named control characters, `\u00..` with
/// lowercase hex for the remaining characters below space, and the
/// character itself otherwise.
pub open spec fn esc_char(c: char) -> Seq<char> {
    if c == '"' {
        seq!['\\', '"']
    } else if c == '\\' {
        seq!['\\', '\\']
    } else if c == '\u{8}' {
        seq!['\\', 'b']
    } else if c == '\t' {
        seq!['\\', 't']
    } else if c == '\n' {
        seq!['\\', 'n']
    } else if c == '\u{c}' {
        seq!['\\', 'f']
    } else if c == '\r' {
        seq!['\\', 'r']
    } else if (c as u32) < 32 {
        seq!['\\', 'u', '0', '0', hex_digit(((c as u32) / 16) as nat), hex_digit(
            ((c as u32) % 16) as nat,
        )]
    } else {
        seq![c]
    }
}

/// The escaped content of a JSON string.
pub open spec fn json_escape(s: Seq<char>) -> Seq<char>
    decreases s.len(),
{
    if s.len() == 0 {
        Seq::empty()
    } else {
        json_escape(s.drop_last()) + esc_char(s.last())
    }
}

/// A JSON string literal: double-quoted, content escaped.
pub open spec fn json_string(s: Seq<char>) -> Seq<char> {
    seq!['"'] + json_escape(s) + seq!['"']
}

/// One record as a JSON object, keys in schema order.
pub open spec fn json_address(a: AddressV) -> Seq<char> {
    "{\"reference\":"@ + json_string(a.reference) + ",\"address_type\":"@ + json_string(
        address_type_name(a.address_type),
    ) + ",\"suite_number\":"@ + (match a.suite_number {
        Some(s) => json_string(s),
        None => "null"@,
    }) + ",\"street_number\":"@ + u32_dec(a.street_number as nat) + ",\"street\":"@ + json_string(
        a.street,
    ) + ",\"city\":"@ + json_string(a.city) + ",\"state\":"@ + json_string(a.state)
        + ",\"postcode\":"@ + json_string(a.postcode) + "}"@
}

/// The comma-separated objects of the array, in input order.
pub open spec fn json_array_items(rs: Seq<AddressV>) -> Seq<char>
    decreases rs.len(),
{
    if rs.len() == 0 {
        Seq::empty()
    } else if rs.len() == 1 {
        json_address(rs[0])
    } else {
        json_array_items(rs.drop_last()) + seq![','] + json_address(rs.last())
    }
}

/// The whole output: a JSON array of the records.
pub open spec fn spec_addresses_json(rs: Seq<AddressV>) -> Seq<char> {
    seq!['['] + json_array_items(rs) + seq![']']
}

/// Append the characters of a string slice.
fn append_str(out: &mut Vec<char>, s: &str)
    ensures
        final(out)@ == old(out)@ + s@,
{
    let n = s.unicode_len();
    let mut i: usize = 0;
    while i < n
        invariant
            n == s@.len(),
            i <= n,
            out@ == old(out)@ + s@.take(i as int),
        decreases n - i,
    {
        out.push(s.get_char(i));
        i = i + 1;
        proof {
            assert(out@ =~= old(out)@ + s@.take(i as int));
        }
    }
    proof {
        assert(old(out)@ + s@.take(n as int) =~= old(out)@ + s@);
    }
}

/// The lowercase hexadecimal digit character of a value below sixteen.
fn hex_digit_x(d: u32) -> (r: char)
    requires
        d < 16,
    ensures
        r == hex_digit(d as nat),
{
    if d < 10 {
        (('0' as u8) + (d as u8)) as char
    } else {
        (('a' as u8) + ((d - 10) as u8)) as char
    }
}

/// Append the JSON escape of one character.
fn append_escaped_char(out: &mut Vec<char>, c: char)
    ensures
        final(out)@ == old(out)@ + esc_char(c),
{
    if c == '"' {
        out.push('\\');
        out.push('"');
    } else if c == '\\' {
        out.push('\\');
        out.push('\\');
    } else if c == '\u{8}' {
        out.push('\\');
        out.push('b');
    } else if c == '\t' {
        out.push('\\');
        out.push('t');
    } else if c == '\n' {
        out.push('\\');
        out.push('n');
    } else if c == '\u{c}' {
        out.push('\\');
        out.push('f');
    } else if c == '\r' {
        out.push('\\');
        out.push('r');
    } else {
        let u = c as u32;
        if u < 32 {
            out.push('\\');
            out.push('u');
            out.push('0');
            out.push('0');
            out.push(hex_digit_x(u / 16));
            out.push(hex_digit_x(u % 16));
        } else {
            out.push(c);
        }
    }
    proof {
        assert(out@ =~= old(out)@ + esc_char(c));
    }
}

/// Append a JSON string literal.
fn append_json_string(out: &mut Vec<char>, s: &str)
    ensures
        final(out)@ == old(out)@ + json_string(s@),
{
    out.push('"');
    let n = s.unicode_len();
    let mut i: usize = 0;
    proof {
        assert(out@ =~= old(out)@ + seq!['"'] + json_escape(s@.take(0)));
    }
    while i < n
        invariant
            n == s@.len(),
            i <= n,
            out@ == old(out)@ + seq!['"'] + json_escape(s@.take(i as int)),
        decreases n - i,
    {
        append_escaped_char(out, s.get_char(i));
        i = i + 1;
        proof {
            assert(s@.take(i as int).drop_last() =~= s@.take(i as int - 1));
            assert(s@.take(i as int).last() == s@[i as int - 1]);
            assert(out@ =~= old(out)@ + seq!['"'] + json_escape(s@.take(i as int)));
        }
    }
    out.push('"');
    proof {
        assert(s@.take(n as int) =~= s@);
        assert(out@ =~= old(out)@ + json_string(s@));
    }
}

/// Append the decimal rendering of a `u32`.
fn append_u32(out: &mut Vec<char>, v: u32)
    ensures
        final(out)@ == old(out)@ + u32_dec(v as nat),
{
    let mut digits = u32_to_dec_chars(v);
    out.append(&mut digits);
}

/// Append one record as a JSON object, every piece emitted by hand.
#[verifier::rlimit(60)]
fn append_address(out: &mut Vec<char>, a: &Address)
    ensures
        final(out)@ == old(out)@ + json_address(a@),
{
    append_str(out, "{\"reference\":");
    append_json_string(out, a.reference.as_str());
    append_str(out, ",\"address_type\":");
    let t = a.address_type.to_string();
    append_json_string(out, t.as_str());
    append_str(out, ",\"suite_number\":");
    match &a.suite_number {
        Some(s) => append_json_string(out, s.as_str()),
        None => append_str(out, "null"),
    }
    append_str(out, ",\"street_number\":");
    append_u32(out, a.street_number);
    append_str(out, ",\"street\":");
    append_json_string(out, a.street.as_str());
    append_str(out, ",\"city\":");
    append_json_string(out, a.city.as_str());
    append_str(out, ",\"state\":");
    append_json_string(out, a.state.as_str());
    append_str(out, ",\"postcode\":");
    append_json_string(out, a.postcode.as_str());
    append_str(out, "}");
    proof {
        assert(out@ =~= old(out)@ + json_address(a@));
    }
}

/// Render the records as one JSON array, by hand.
///
/// The manually-assembled back-end: deterministic, and total for every
/// record list.
pub fn addresses_to_json(addresses: &Vec<Address>) -> (r: String)
    ensures
        r@ == spec_addresses_json(addresses.deep_view()),
{
    let ghost rs = addresses.deep_view();
    let mut out: Vec<char> = Vec::new();
    out.push('[');
    let n = addresses.len();
    proof {
        assert(rs.len() == n);
        assert(out@ =~= seq!['['] + json_array_items(rs.take(0)));
    }
    let mut i: usize = 0;
    while i < n
        invariant
            n == addresses@.len(),
            rs == addresses.deep_view(),
            rs.len() == n,
            i <= n,
            out@ == seq!['['] + json_array_items(rs.take(i as int)),
        decreases n - i,
    {
        if i > 0 {
            out.push(',');
        }
        append_address(&mut out, &addresses[i]);
        i = i + 1;
        proof {
            assert(rs[i as int - 1] == addresses@[i as int - 1]@);
            assert(rs.take(i as int).drop_last() =~= rs.take(i as int - 1));
            assert(rs.take(i as int).last() == rs[i as int - 1]);
            assert(out@ =~= seq!['['] + json_array_items(rs.take(i as int)));
        }
    }
    out.push(']');
    proof {
        assert(rs.take(n as int) =~= rs);
        assert(out@ =~= spec_addresses_json(rs));
    }
    chars_to_string(&out)
}

/// Relies on `serde_json::to_string` for string slices: it writes one
/// double-quoted JSON string whose content escapes the quote, the
/// backslash, and the characters below space exactly as `esc_char`
/// states, and leaves every other character as it is. Encoding a string
/// slice into the in-memory buffer has no failing path, so a value is
/// always returned.
#[verifier::external_body]
fn json_encode_str(s: &str) -> (r: Option<String>)
    ensures
        r is Some,
        r matches Some(j) ==> j@ == json_string(s@),
{
    serde_json::to_string(s).ok()
}

/// Relies on `serde_json::to_string` for `u32`: it writes the plain
/// decimal digits of the value. Encoding an integer into the in-memory
/// buffer has no failing path, so a value is always returned.
#[verifier::external_body]
fn json_encode_u32(v: u32) -> (r: Option<String>)
    ensures
        r is Some,
        r matches Some(j) ==> j@ == u32_dec(v as nat),
{
    serde_json::to_string(&v).ok()
}

/// Append one record as a JSON object, every scalar encoded by the
/// library back-end.
#[verifier::rlimit(60)]
fn append_address_with_serde(out: &mut Vec<char>, a: &Address)
    ensures
        final(out)@ == old(out)@ + json_address(a@),
{
    append_str(out, "{\"reference\":");
    let enc = json_encode_str(a.reference.as_str()).unwrap();
    append_str(out, enc.as_str());
    append_str(out, ",\"address_type\":");
    let t = a.address_type.to_string();
    let enc = json_encode_str(t.as_str()).unwrap();
    append_str(out, enc.as_str());
    append_str(out, ",\"suite_number\":");
    match &a.suite_number {
        Some(s) => {
            let enc = json_encode_str(s.as_str()).unwrap();
            append_str(out, enc.as_str());
        },
        None => append_str(out, "null"),
    }
    append_str(out, ",\"street_number\":");
    let enc = json_encode_u32(a.street_number).unwrap();
    append_str(out, enc.as_str());
    append_str(out, ",\"street\":");
    let enc = json_encode_str(a.street.as_str()).unwrap();
    append_str(out, enc.as_str());
    append_str(out, ",\"city\":");
    let enc = json_encode_str(a.city.as_str()).unwrap();
    append_str(out, enc.as_str());
    append_str(out, ",\"state\":");
    let enc = json_encode_str(a.state.as_str()).unwrap();
    append_str(out, enc.as_str());
    append_str(out, ",\"postcode\":");
    let enc = json_encode_str(a.postcode.as_str()).unwrap();
    append_str(out, enc.as_str());
    append_str(out, "}");
    proof {
        assert(out@ =~= old(out)@ + json_address(a@));
    }
}

/// Render the records as one JSON array, scalars encoded by the library
/// back-end.
///
/// The text always equals what `addresses_to_json` emits: encoding these
/// scalars into memory has no failing path, so the `Result` - the shape
/// the taxonomy gives an encoder defect - is proved to come back `Ok`.
pub fn addresses_to_json_with_serde(addresses: &Vec<Address>) -> (r: Result<String, ParseError>)
    ensures
        (r matches Ok(j) && j@ == spec_addresses_json(addresses.deep_view())),
{
    let ghost rs = addresses.deep_view();
    let mut out: Vec<char> = Vec::new();
    out.push('[');
    let n = addresses.len();
    proof {
        assert(rs.len() == n);
        assert(out@ =~= seq!['['] + json_array_items(rs.take(0)));
    }
    let mut i: usize = 0;
    while i < n
        invariant
            n == addresses@.len(),
            rs == addresses.deep_view(),
            rs.len() == n,
            i <= n,
            out@ == seq!['['] + json_array_items(rs.take(i as int)),
        decreases n - i,
    {
        if i > 0 {
            out.push(',');
        }
        append_address_with_serde(&mut out, &addresses[i]);
        i = i + 1;
        proof {
            assert(rs[i as int - 1] == addresses@[i as int - 1]@);
            assert(rs.take(i as int).drop_last() =~= rs.take(i as int - 1));
            assert(rs.take(i as int).last() == rs[i as int - 1]);
            assert(out@ =~= seq!['['] + json_array_items(rs.take(i as int)));
        }
    }
    out.push(']');
    proof {
        assert(rs.take(n as int) =~= rs);
        assert(out@ =~= spec_addresses_json(rs));
    }
    Ok(chars_to_string(&out))
}

} // verus!
