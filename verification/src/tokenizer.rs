//! The unified quoting-aware tokenizer. One pass over the input splits it
//! into records and fields: the configured delimiter separates fields, a
//! line break (line feed, carriage return, or the pair) separates records,
//! and a field that opens with a double quote may contain the delimiter,
//! line breaks and doubled quotes. Blank lines produce no record. A quote
//! left open at the end of the input is an error reporting how many
//! complete records came before it.

use vstd::prelude::*;

verus! {

use crate::text::chars_to_string;
use crate::text::lemma_deep_view_push_row;
use crate::text::lemma_deep_view_push_string;
use vstd::string::StrSliceExecFns;

/// Where the scan stands inside the current field.
#[derive(Clone, Copy)]
pub enum TokMode {
    /// Reading plain field text.
    Unquoted,
    /// Inside a quoted field.
    InQuotes,
    /// Just saw a quote while inside a quoted field: either the closing
    /// quote or the first half of a doubled (escaped) quote.
    QuoteInQuotes,
    /// Just ended a record at a carriage return; a following line feed
    /// belongs to the same record break.
    SawCr,
}

/// The tokenizer state as mathematics: finished records, finished fields of
/// the current record, the characters of the current field, whether the
/// current field was ever quoted (so a record of one quoted empty field is
/// not a blank line), and the scan mode.
pub struct TokStateV {
    pub rows: Seq<Seq<Seq<char>>>,
    pub fields: Seq<Seq<char>>,
    pub cur: Seq<char>,
    pub quoted: bool,
    pub mode: TokMode,
}

/// The state before any character has been read.
pub open spec fn tok_init() -> TokStateV {
    TokStateV {
        rows: Seq::empty(),
        fields: Seq::empty(),
        cur: Seq::empty(),
        quoted: false,
        mode: TokMode::Unquoted,
    }
}

/// A record break on a line that carries no text: it is skipped.
pub open spec fn row_blank(st: TokStateV) -> bool {
    st.fields.len() == 0 && st.cur.len() == 0 && !st.quoted
}

/// End the current record: the current field joins it and the record joins
/// the output, unless the line was blank.
pub open spec fn end_row(st: TokStateV) -> TokStateV {
    if row_blank(st) {
        TokStateV {
            rows: st.rows,
            fields: st.fields,
            cur: st.cur,
            quoted: st.quoted,
            mode: TokMode::Unquoted,
        }
    } else {
        TokStateV {
            rows: st.rows.push(st.fields.push(st.cur)),
            fields: Seq::empty(),
            cur: Seq::empty(),
            quoted: false,
            mode: TokMode::Unquoted,
        }
    }
}

/// End the current field at a delimiter.
pub open spec fn end_field(st: TokStateV) -> TokStateV {
    TokStateV {
        rows: st.rows,
        fields: st.fields.push(st.cur),
        cur: Seq::empty(),
        quoted: false,
        mode: TokMode::Unquoted,
    }
}

/// One character in plain (unquoted) field text.
pub open spec fn step_unquoted(st: TokStateV, c: char, d: char) -> TokStateV {
    if c == d {
        end_field(st)
    } else if c == '"' && st.cur.len() == 0 {
        TokStateV {
            rows: st.rows,
            fields: st.fields,
            cur: st.cur,
            quoted: true,
            mode: TokMode::InQuotes,
        }
    } else if c == '\n' {
        end_row(st)
    } else if c == '\r' {
        TokStateV { mode: TokMode::SawCr, ..end_row(st) }
    } else {
        TokStateV {
            rows: st.rows,
            fields: st.fields,
            cur: st.cur.push(c),
            quoted: st.quoted,
            mode: st.mode,
        }
    }
}

/// One character of input applied to the state.
pub open spec fn tok_step(st: TokStateV, c: char, d: char) -> TokStateV {
    match st.mode {
        TokMode::Unquoted => step_unquoted(st, c, d),
        TokMode::SawCr => {
            let st2 = TokStateV {
                rows: st.rows,
                fields: st.fields,
                cur: st.cur,
                quoted: st.quoted,
                mode: TokMode::Unquoted,
            };
            if c == '\n' {
                st2
            } else {
                step_unquoted(st2, c, d)
            }
        },
        TokMode::InQuotes => {
            if c == '"' {
                TokStateV { mode: TokMode::QuoteInQuotes, ..st }
            } else {
                TokStateV {
                    rows: st.rows,
                    fields: st.fields,
                    cur: st.cur.push(c),
                    quoted: st.quoted,
                    mode: st.mode,
                }
            }
        },
        TokMode::QuoteInQuotes => {
            if c == '"' {
                TokStateV {
                    rows: st.rows,
                    fields: st.fields,
                    cur: st.cur.push('"'),
                    quoted: st.quoted,
                    mode: TokMode::InQuotes,
                }
            } else if c == d {
                end_field(st)
            } else if c == '\n' {
                end_row(st)
            } else if c == '\r' {
                TokStateV { mode: TokMode::SawCr, ..end_row(st) }
            } else {
                TokStateV {
                    rows: st.rows,
                    fields: st.fields,
                    cur: st.cur.push(c),
                    quoted: st.quoted,
                    mode: TokMode::Unquoted,
                }
            }
        },
    }
}

/// The state after reading a whole character sequence.
pub open spec fn tok_run(st: TokStateV, s: Seq<char>, d: char) -> TokStateV
    decreases s.len(),
{
    if s.len() == 0 {
        st
    } else {
        tok_run(tok_step(st, s[0], d), s.drop_first(), d)
    }
}

/// Close the scan at the end of input: an open quoted field is an error
/// carrying the number of complete records; otherwise a last unterminated
/// line still yields its record.
pub open spec fn tok_finalize(st: TokStateV) -> Result<Seq<Seq<Seq<char>>>, int> {
    match st.mode {
        TokMode::InQuotes => Err(st.rows.len() as int),
        _ => Ok(end_row(st).rows),
    }
}

/// The records and fields of a whole input text.
pub open spec fn spec_tokenize(s: Seq<char>, d: char) -> Result<Seq<Seq<Seq<char>>>, int> {
    tok_finalize(tok_run(tok_init(), s, d))
}

/// Running the scan over one more character is one more step.
proof fn lemma_tok_run_snoc(st: TokStateV, s: Seq<char>, c: char, d: char)
    ensures
        tok_run(st, s.push(c), d) == tok_step(tok_run(st, s, d), c, d),
    decreases s.len(),
{
    if s.len() == 0 {
        assert(s.push(c)[0] == c);
        assert(s.push(c).drop_first() =~= Seq::<char>::empty());
        assert(tok_run(st, s.push(c), d) == tok_run(tok_step(st, c, d), s.push(c).drop_first(), d));
        assert(tok_run(tok_step(st, c, d), s.push(c).drop_first(), d) == tok_step(st, c, d));
        assert(tok_run(st, s, d) == st);
    } else {
        assert(s.push(c)[0] == s[0]);
        assert(s.push(c).drop_first() =~= s.drop_first().push(c));
        lemma_tok_run_snoc(tok_step(st, s[0], d), s.drop_first(), c, d);
        assert(tok_run(st, s.push(c), d) == tok_run(
            tok_step(st, s[0], d),
            s.push(c).drop_first(),
            d,
        ));
        assert(tok_run(tok_step(st, s[0], d), s.push(c).drop_first(), d) == tok_run(
            tok_step(st, s[0], d),
            s.drop_first().push(c),
            d,
        ));
        assert(tok_run(st, s, d) == tok_run(tok_step(st, s[0], d), s.drop_first(), d));
    }
}

/// The scan over a concatenation runs the two parts in order.
pub proof fn lemma_tok_run_concat(st: TokStateV, a: Seq<char>, b: Seq<char>, d: char)
    ensures
        tok_run(st, a + b, d) == tok_run(tok_run(st, a, d), b, d),
    decreases a.len(),
{
    if a.len() == 0 {
        assert(a + b =~= b);
    } else {
        assert((a + b)[0] == a[0]);
        assert((a + b).drop_first() =~= a.drop_first() + b);
        lemma_tok_run_concat(tok_step(st, a[0], d), a.drop_first(), b, d);
    }
}

/// End the current record in the running tokenizer state, skipping a blank
/// line, exactly as `end_row` says (the scan mode is the caller's business).
fn flush_row(
    rows: &mut Vec<Vec<String>>,
    fields: &mut Vec<String>,
    cur: &mut Vec<char>,
    quoted: &mut bool,
)
    ensures
        ({
            let st1 = end_row(
                TokStateV {
                    rows: old(rows).deep_view(),
                    fields: old(fields).deep_view(),
                    cur: old(cur)@,
                    quoted: *old(quoted),
                    mode: TokMode::Unquoted,
                },
            );
            final(rows).deep_view() == st1.rows && final(fields).deep_view() == st1.fields
                && final(cur)@ == st1.cur && *final(quoted) == st1.quoted
        }),
{
    if fields.len() == 0 && cur.len() == 0 && !*quoted {
        proof {
            assert(fields.deep_view() =~= Seq::<Seq<char>>::empty());
        }
    } else {
        let ghost fields_pre = *fields;
        let f = chars_to_string(cur);
        fields.push(f);
        proof {
            lemma_deep_view_push_string(fields_pre, *fields, f);
        }
        let mut row: Vec<String> = Vec::new();
        core::mem::swap(&mut row, fields);
        let ghost rows_pre = *rows;
        let ghost row_g = row;
        rows.push(row);
        *cur = Vec::new();
        *quoted = false;
        proof {
            lemma_deep_view_push_row(rows_pre, *rows, row_g);
            assert(fields.deep_view() =~= Seq::<Seq<char>>::empty());
        }
    }
}

/// Split one input text into records of fields, honouring quoting.
///
/// `Ok` carries the records in input order; `Err` carries the number of
/// complete records read before a quoted field was left unterminated.
pub fn tokenize(s: &str, delimiter: char) -> (r: Result<Vec<Vec<String>>, usize>)
    requires
        delimiter != '"',
        delimiter != '\n',
        delimiter != '\r',
    ensures
        match r {
            Ok(rows) => spec_tokenize(s@, delimiter) == Ok::<Seq<Seq<Seq<char>>>, int>(
                rows.deep_view(),
            ),
            Err(n) => spec_tokenize(s@, delimiter) == Err::<Seq<Seq<Seq<char>>>, int>(n as int),
        },
{
    let n = s.unicode_len();
    let mut rows: Vec<Vec<String>> = Vec::new();
    let mut fields: Vec<String> = Vec::new();
    let mut cur: Vec<char> = Vec::new();
    let mut quoted: bool = false;
    let mut mode: TokMode = TokMode::Unquoted;
    let mut i: usize = 0;
    proof {
        assert(rows.deep_view() =~= tok_init().rows);
        assert(fields.deep_view() =~= tok_init().fields);
        assert(s@.take(0) =~= Seq::<char>::empty());
    }
    while i < n
        invariant
            n == s@.len(),
            i <= n,
            delimiter != '"',
            delimiter != '\n',
            delimiter != '\r',
            rows.deep_view() == tok_run(tok_init(), s@.take(i as int), delimiter).rows,
            fields.deep_view() == tok_run(tok_init(), s@.take(i as int), delimiter).fields,
            cur@ == tok_run(tok_init(), s@.take(i as int), delimiter).cur,
            quoted == tok_run(tok_init(), s@.take(i as int), delimiter).quoted,
            mode == tok_run(tok_init(), s@.take(i as int), delimiter).mode,
        decreases n - i,
    {
        let ghost st_pre = tok_run(tok_init(), s@.take(i as int), delimiter);
        let c = s.get_char(i);
        let ghost st_post = tok_step(st_pre, c, delimiter);
        let mut consumed = false;
        match mode {
            TokMode::SawCr => {
                mode = TokMode::Unquoted;
                if c == '\n' {
                    consumed = true;
                }
            },
            _ => {},
        }
        if !consumed {
            match mode {
                TokMode::Unquoted => {
                    if c == delimiter {
                        let ghost fields_pre = fields;
                        let f = chars_to_string(&cur);
                        fields.push(f);
                        cur = Vec::new();
                        quoted = false;
                        proof {
                            lemma_deep_view_push_string(fields_pre, fields, f);
                        }
                    } else if c == '"' && cur.len() == 0 {
                        mode = TokMode::InQuotes;
                        quoted = true;
                    } else if c == '\n' || c == '\r' {
                        flush_row(&mut rows, &mut fields, &mut cur, &mut quoted);
                        if c == '\r' {
                            mode = TokMode::SawCr;
                        } else {
                            mode = TokMode::Unquoted;
                        }
                    } else {
                        cur.push(c);
                    }
                },
                TokMode::InQuotes => {
                    if c == '"' {
                        mode = TokMode::QuoteInQuotes;
                    } else {
                        cur.push(c);
                    }
                },
                TokMode::QuoteInQuotes => {
                    if c == '"' {
                        cur.push('"');
                        mode = TokMode::InQuotes;
                    } else if c == delimiter {
                        let ghost fields_pre = fields;
                        let f = chars_to_string(&cur);
                        fields.push(f);
                        cur = Vec::new();
                        quoted = false;
                        mode = TokMode::Unquoted;
                        proof {
                            lemma_deep_view_push_string(fields_pre, fields, f);
                        }
                    } else if c == '\n' || c == '\r' {
                        flush_row(&mut rows, &mut fields, &mut cur, &mut quoted);
                        if c == '\r' {
                            mode = TokMode::SawCr;
                        } else {
                            mode = TokMode::Unquoted;
                        }
                    } else {
                        cur.push(c);
                        mode = TokMode::Unquoted;
                    }
                },
                TokMode::SawCr => {},
            }
        }
        i = i + 1;
        proof {
            assert(s@.take(i as int) =~= s@.take(i as int - 1).push(s@[i as int - 1]));
            lemma_tok_run_snoc(tok_init(), s@.take(i as int - 1), s@[i as int - 1], delimiter);
            assert(rows.deep_view() == st_post.rows);
            assert(fields.deep_view() == st_post.fields);
            assert(cur@ == st_post.cur);
            assert(quoted == st_post.quoted);
            assert(mode == st_post.mode);
        }
    }
    proof {
        assert(s@.take(n as int) =~= s@);
    }
    let ghost st_end = tok_run(tok_init(), s@, delimiter);
    match mode {
        TokMode::InQuotes => Err(rows.len()),
        _ => {
            flush_row(&mut rows, &mut fields, &mut cur, &mut quoted);
            proof {
                assert(rows.deep_view() == end_row(st_end).rows);
            }
            Ok(rows)
        },
    }
}

} // verus!
