//! Laws of the pipeline, proved once for every input: column order does
//! not matter, a quoted field survives as one field, and empty input is
//! rejected as having no header.

use vstd::prelude::*;

verus! {

use crate::errors::ErrorV;
use crate::pipeline::spec_parse;
use crate::record::lemma_decode_rows_err_extends;
use crate::record::spec_address_type;
use crate::record::spec_decode_row;
use crate::record::spec_decode_rows;
use crate::record::AddressV;
use crate::schema::first_index_where;
use crate::schema::header_map_wf;
use crate::schema::header_ok;
use crate::schema::is_schema_name;
use crate::schema::lemma_first_index_where;
use crate::schema::lemma_schema_names_index;
use crate::schema::schema_names;
use crate::schema::spec_header_map;
use crate::schema::HeaderMap;
use crate::text::spec_parse_u32;
use crate::tokenizer::end_field;
use crate::tokenizer::lemma_tok_run_concat;
use crate::tokenizer::spec_tokenize;
use crate::tokenizer::tok_run;
use crate::tokenizer::tok_step;
use crate::tokenizer::TokMode;
use crate::tokenizer::TokStateV;

/// Empty input tokenizes to no record at all, so the pipeline rejects it
/// for want of a header.
pub proof fn lemma_empty_input_missing_header()
    ensures
        spec_parse(Seq::<char>::empty()) == Err::<Seq<AddressV>, ErrorV>(ErrorV::MissingHeader),
{
    assert(tok_run(crate::tokenizer::tok_init(), Seq::<char>::empty(), ',')
        == crate::tokenizer::tok_init());
    assert(spec_tokenize(Seq::<char>::empty(), ',') == Ok::<Seq<Seq<Seq<char>>>, int>(
        Seq::empty(),
    ));
}

/// Inside a quoted field, quote-free text is taken verbatim into the
/// current field and the scan stays inside the quotes.
proof fn lemma_in_quotes_content(st: TokStateV, content: Seq<char>, d: char)
    requires
        (st.mode is InQuotes),
        forall|i: int| 0 <= i < content.len() ==> content[i] != '"',
    ensures
        tok_run(st, content, d) == (TokStateV {
            rows: st.rows,
            fields: st.fields,
            cur: st.cur + content,
            quoted: st.quoted,
            mode: TokMode::InQuotes,
        }),
    decreases content.len(),
{
    if content.len() == 0 {
        assert(st.cur + content =~= st.cur);
    } else {
        let st1 = tok_step(st, content[0], d);
        assert(st1.cur == st.cur.push(content[0]));
        lemma_in_quotes_content(st1, content.drop_first(), d);
        assert(st.cur.push(content[0]) + content.drop_first() =~= st.cur + content);
    }
}

/// A quoted field is one field: from a fresh field position, reading the
/// opening quote, any quote-free content, the closing quote and the
/// delimiter adds exactly that content as one field — even where the
/// content holds the delimiter or line breaks.
pub proof fn lemma_quoted_field_single(st: TokStateV, content: Seq<char>, d: char)
    requires
        (st.mode is Unquoted),
        st.cur.len() == 0,
        d != '"',
        forall|i: int| 0 <= i < content.len() ==> content[i] != '"',
    ensures
        tok_run(st, seq!['"'] + content + seq!['"', d], d) == (TokStateV {
            rows: st.rows,
            fields: st.fields.push(content),
            cur: Seq::empty(),
            quoted: false,
            mode: TokMode::Unquoted,
        }),
{
    let open = seq!['"'];
    let close = seq!['"', d];
    lemma_tok_run_concat(st, open + content, close, d);
    lemma_tok_run_concat(st, open, content, d);
    assert(open[0] == '"');
    assert(open.drop_first() =~= Seq::<char>::empty());
    assert(tok_run(st, open, d) == tok_run(tok_step(st, '"', d), open.drop_first(), d));
    assert(tok_run(st, open, d) == tok_step(st, '"', d));
    let st1 = tok_step(st, '"', d);
    assert(st1.mode is InQuotes && st1.cur == st.cur && st1.quoted);
    lemma_in_quotes_content(st1, content, d);
    let st2 = tok_run(st1, content, d);
    assert(st2.cur =~= content);
    let st3 = tok_step(st2, '"', d);
    assert(st3.mode is QuoteInQuotes);
    assert(close[0] == '"');
    assert(close.drop_first() =~= seq![d]);
    assert(seq![d].drop_first() =~= Seq::<char>::empty());
    assert(tok_run(st2, close, d) == tok_run(st3, close.drop_first(), d));
    assert(tok_run(st3, seq![d], d) == tok_run(tok_step(st3, d, d), Seq::<char>::empty(), d));
    assert(tok_step(st3, d, d) == end_field(st3));
}

/// A strict failure of the street number is never passed over: when the
/// records before `i` decode and record `i` has the right shape and a
/// valid kind but a `street_number` token that is not a strict unsigned
/// decimal (a sign, surrounding text, or a value beyond `u32`), the whole
/// decode fails with exactly that token's numeric error - nothing is
/// truncated, wrapped or defaulted, and no later record is considered.
pub proof fn lemma_invalid_street_number(rows: Seq<Seq<Seq<char>>>, m: HeaderMap, i: int)
    requires
        header_map_wf(m),
        0 <= i < rows.len(),
        (spec_decode_rows(rows.take(i), m) is Ok),
        rows[i].len() == m.columns,
        (spec_address_type(rows[i][m.address_type as int]) is Some),
        (spec_parse_u32(rows[i][m.street_number as int]) is None),
    ensures
        spec_decode_rows(rows, m) == Err::<Seq<AddressV>, ErrorV>(ErrorV::InvalidNumericValue {
            field: "street_number"@,
            value: rows[i][m.street_number as int],
        }),
{
    assert(rows.take(i + 1).drop_last() =~= rows.take(i));
    assert(rows.take(i + 1).last() == rows[i]);
    assert(spec_decode_rows(rows.take(i + 1), m) is Err);
    lemma_decode_rows_err_extends(rows, m, i + 1);
}

/// Pointwise equal row decodes give equal decode results for whole
/// tables.
proof fn lemma_decode_rows_pointwise(
    rows1: Seq<Seq<Seq<char>>>,
    rows2: Seq<Seq<Seq<char>>>,
    m1: HeaderMap,
    m2: HeaderMap,
)
    requires
        rows1.len() == rows2.len(),
        forall|i: int|
            0 <= i < rows1.len() ==> #[trigger] spec_decode_row(rows2[i], m2, i)
                == spec_decode_row(rows1[i], m1, i),
    ensures
        spec_decode_rows(rows2, m2) == spec_decode_rows(rows1, m1),
    decreases rows1.len(),
{
    if rows1.len() > 0 {
        assert forall|i: int|
            0 <= i < rows1.drop_last().len() implies #[trigger] spec_decode_row(
            rows2.drop_last()[i],
            m2,
            i,
        ) == spec_decode_row(rows1.drop_last()[i], m1, i) by {
            assert(rows1.drop_last()[i] == rows1[i]);
            assert(rows2.drop_last()[i] == rows2[i]);
        }
        lemma_decode_rows_pointwise(rows1.drop_last(), rows2.drop_last(), m1, m2);
        assert(rows1.last() == rows1[rows1.len() - 1]);
        assert(rows2.last() == rows2[rows2.len() - 1]);
    }
}

/// Column order independence: when two tokenized tables carry the same
/// eight header names under a permutation `p` (with inverse `q`), and
/// each data record of the second table is the matching record of the
/// first with its fields permuted the same way, both tables decode to
/// the same records — and therefore render to the same JSON text.
pub proof fn lemma_header_order_independence(
    h1: Seq<Seq<char>>,
    h2: Seq<Seq<char>>,
    rows1: Seq<Seq<Seq<char>>>,
    rows2: Seq<Seq<Seq<char>>>,
    p: Seq<int>,
    q: Seq<int>,
)
    requires
        h1.len() == 8,
        h2.len() == 8,
        p.len() == 8,
        q.len() == 8,
        forall|j: int| 0 <= j < 8 ==> 0 <= #[trigger] p[j] < 8,
        forall|k: int| 0 <= k < 8 ==> 0 <= #[trigger] q[k] < 8,
        forall|j: int| 0 <= j < 8 ==> q[#[trigger] p[j]] == j,
        forall|k: int| 0 <= k < 8 ==> p[#[trigger] q[k]] == k,
        forall|j: int| 0 <= j < 8 ==> #[trigger] h2[j] == h1[p[j]],
        header_ok(h1),
        forall|i: int, j: int|
            0 <= i < h1.len() && 0 <= j < h1.len() && i != j ==> #[trigger] h1[i]
                != #[trigger] h1[j],
        rows1.len() == rows2.len(),
        forall|i: int| 0 <= i < rows1.len() ==> #[trigger] rows1[i].len() == 8,
        forall|i: int| 0 <= i < rows2.len() ==> #[trigger] rows2[i].len() == 8,
        forall|i: int, j: int|
            0 <= i < rows2.len() && 0 <= j < 8 ==> #[trigger] rows2[i][j] == rows1[i][p[j]],
    ensures
        header_ok(h2),
        spec_decode_rows(rows2, spec_header_map(h2)) == spec_decode_rows(
            rows1,
            spec_header_map(h1),
        ),
{
    lemma_schema_names_index();
    assert forall|j: int| 0 <= j < h2.len() implies is_schema_name(#[trigger] h2[j]) by {
        assert(h2[j] == h1[p[j]]);
        assert(is_schema_name(h1[p[j]]));
    }
    assert forall|k: int|
        0 <= k < schema_names().len() implies h2.contains(#[trigger] schema_names()[k]) by {
        let name = schema_names()[k];
        assert(h1.contains(name));
        let i = choose|i: int| 0 <= i < h1.len() && h1[i] == name;
        assert(h2[q[i]] == h1[p[q[i]]]);
        assert(h2[q[i]] == name);
    }
    assert(header_ok(h2));
    let m1 = spec_header_map(h1);
    let m2 = spec_header_map(h2);
    lemma_fields_align(h1, h2, p, "reference"@);
    lemma_fields_align(h1, h2, p, "address_type"@);
    lemma_fields_align(h1, h2, p, "suite_number"@);
    lemma_fields_align(h1, h2, p, "street_number"@);
    lemma_fields_align(h1, h2, p, "street"@);
    lemma_fields_align(h1, h2, p, "city"@);
    lemma_fields_align(h1, h2, p, "state"@);
    lemma_fields_align(h1, h2, p, "postcode"@);
    assert forall|i: int|
        0 <= i < rows1.len() implies #[trigger] spec_decode_row(rows2[i], m2, i)
        == spec_decode_row(rows1[i], m1, i) by {
        assert(rows2[i][m2.reference as int] == rows1[i][p[m2.reference as int]]);
        assert(rows2[i][m2.address_type as int] == rows1[i][p[m2.address_type as int]]);
        assert(rows2[i][m2.suite_number as int] == rows1[i][p[m2.suite_number as int]]);
        assert(rows2[i][m2.street_number as int] == rows1[i][p[m2.street_number as int]]);
        assert(rows2[i][m2.street as int] == rows1[i][p[m2.street as int]]);
        assert(rows2[i][m2.city as int] == rows1[i][p[m2.city as int]]);
        assert(rows2[i][m2.state as int] == rows1[i][p[m2.state as int]]);
        assert(rows2[i][m2.postcode as int] == rows1[i][p[m2.postcode as int]]);
        assert(header_map_wf(m1));
        assert(header_map_wf(m2));
    }
    lemma_decode_rows_pointwise(rows1, rows2, m1, m2);
}

/// Under the permutation, a field's resolved position in the second
/// header points at the token the first header resolves for it.
proof fn lemma_fields_align(h1: Seq<Seq<char>>, h2: Seq<Seq<char>>, p: Seq<int>, name: Seq<char>)
    requires
        h1.len() == 8,
        h2.len() == 8,
        p.len() == 8,
        forall|j: int| 0 <= j < 8 ==> 0 <= #[trigger] p[j] < 8,
        forall|j: int| 0 <= j < 8 ==> #[trigger] h2[j] == h1[p[j]],
        forall|i: int, j: int|
            0 <= i < h1.len() && 0 <= j < h1.len() && i != j ==> #[trigger] h1[i]
                != #[trigger] h1[j],
        h1.contains(name),
        h2.contains(name),
    ensures
        0 <= first_index_where(h2, name) < 8,
        0 <= first_index_where(h1, name) < 8,
        p[first_index_where(h2, name)] == first_index_where(h1, name),
{
    lemma_first_index_where(h1, name);
    lemma_first_index_where(h2, name);
    let i1 = first_index_where(h1, name);
    let i2 = first_index_where(h2, name);
    assert(h2[i2] == name);
    assert(h1[p[i2]] == name);
    assert(h1[i1] == name);
    assert(p[i2] == i1);
}

} // verus!

