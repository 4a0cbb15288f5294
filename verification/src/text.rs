//! Character-level helpers shared by the tokenizer, the row decoder and the
//! serializers: exact string comparison, ASCII whitespace trimming, and
//! strict decimal conversion for `u32`.

use vstd::prelude::*;

verus! {

use vstd::string::StrSliceExecFns;

/// ASCII whitespace, the characters removed from the ends of `suite_number`.
pub open spec fn is_space(c: char) -> bool {
    c == ' ' || c == '\t' || c == '\n' || c == '\r' || c == '\u{b}' || c == '\u{c}'
}

/// A decimal digit.
pub open spec fn is_digit(c: char) -> bool {
    ('0' as u32) <= (c as u32) && (c as u32) <= ('9' as u32)
}

/// Numeric value of a decimal digit character.
pub open spec fn digit_val(c: char) -> nat {
    ((c as u32) - ('0' as u32)) as nat
}

/// The digit character for a value below ten.
pub open spec fn digit_char(d: nat) -> char {
    ((d + ('0' as u32)) as u8) as char
}

/// A non-empty sequence made of decimal digits only.
pub open spec fn is_digit_seq(s: Seq<char>) -> bool {
    s.len() > 0 && forall|i: int| 0 <= i < s.len() ==> is_digit(s[i])
}

/// Value of a digit sequence read in base ten.
pub open spec fn digits_val(s: Seq<char>) -> nat
    decreases s.len(),
{
    if s.len() == 0 {
        0
    } else {
        digits_val(s.drop_last()) * 10 + digit_val(s.last())
    }
}

/// Strict unsigned decimal parse: digits only, no sign, no surrounding text,
/// and the value must fit in `u32`.
pub open spec fn spec_parse_u32(s: Seq<char>) -> Option<u32> {
    if is_digit_seq(s) && digits_val(s) <= u32::MAX {
        Some(digits_val(s) as u32)
    } else {
        None
    }
}

/// Decimal rendering of an unsigned value, most significant digit first.
pub open spec fn u32_dec(n: nat) -> Seq<char>
    decreases n,
{
    if n < 10 {
        seq![digit_char(n)]
    } else {
        u32_dec(n / 10).push(digit_char(n % 10))
    }
}

/// The input with leading ASCII whitespace removed.
pub open spec fn trim_start_s(s: Seq<char>) -> Seq<char>
    decreases s.len(),
{
    if s.len() > 0 && is_space(s[0]) {
        trim_start_s(s.drop_first())
    } else {
        s
    }
}

/// The input with trailing ASCII whitespace removed.
pub open spec fn trim_end_s(s: Seq<char>) -> Seq<char>
    decreases s.len(),
{
    if s.len() > 0 && is_space(s.last()) {
        trim_end_s(s.drop_last())
    } else {
        s
    }
}

/// The input with ASCII whitespace removed from both ends.
pub open spec fn trim_s(s: Seq<char>) -> Seq<char> {
    trim_end_s(trim_start_s(s))
}

/// Relies on `String::from_iter`: collects the characters of the vector, in
/// order, into an owned string.
#[verifier::external_body]
pub fn chars_to_string(v: &Vec<char>) -> (r: String)
    ensures
        r@ == v@,
{
    String::from_iter(v.iter().copied())
}

/// The characters of a string slice as a vector.
pub fn str_to_chars(s: &str) -> (v: Vec<char>)
    ensures
        v@ == s@,
{
    let n = s.unicode_len();
    let mut v: Vec<char> = Vec::new();
    let mut i: usize = 0;
    while i < n
        invariant
            n == s@.len(),
            i <= n,
            v@ == s@.take(i as int),
        decreases n - i,
    {
        v.push(s.get_char(i));
        i = i + 1;
        proof {
            assert(v@ =~= s@.take(i as int));
        }
    }
    proof {
        assert(v@ =~= s@);
    }
    v
}

/// Exact character-for-character equality of two string slices.
pub fn str_eq(a: &str, b: &str) -> (r: bool)
    ensures
        r == (a@ == b@),
{
    let na = a.unicode_len();
    let nb = b.unicode_len();
    if na != nb {
        return false;
    }
    let mut i: usize = 0;
    while i < na
        invariant
            na == a@.len(),
            na == b@.len(),
            i <= na,
            forall|j: int| 0 <= j < i ==> a@[j] == b@[j],
        decreases na - i,
    {
        if a.get_char(i) != b.get_char(i) {
            return false;
        }
        i = i + 1;
    }
    proof {
        assert(a@ =~= b@);
    }
    true
}

/// The value of a digit string is at least the value of any of its prefixes.
proof fn lemma_digits_val_prefix_le(s: Seq<char>, i: int)
    requires
        0 <= i <= s.len(),
    ensures
        digits_val(s.take(i)) <= digits_val(s),
    decreases s.len() - i,
{
    if i < s.len() {
        lemma_digits_val_prefix_le(s, i + 1);
        assert(s.take(i + 1).drop_last() =~= s.take(i));
        assert(s.take(i + 1).last() == s[i]);
        assert(digits_val(s.take(i)) <= digits_val(s.take(i + 1)));
    } else {
        assert(s.take(i) =~= s);
    }
}

/// Strict decimal parse of a string slice into `u32`.
pub fn parse_u32(s: &str) -> (r: Option<u32>)
    ensures
        r == spec_parse_u32(s@),
{
    let n = s.unicode_len();
    if n == 0 {
        return None;
    }
    let mut acc: u64 = 0;
    let mut i: usize = 0;
    while i < n
        invariant
            n == s@.len(),
            0 < n,
            i <= n,
            forall|j: int| 0 <= j < i ==> is_digit(s@[j]),
            acc == digits_val(s@.take(i as int)),
            acc <= u32::MAX,
        decreases n - i,
    {
        let c = s.get_char(i);
        let u = c as u32;
        if u < '0' as u32 || u > '9' as u32 {
            assert(!is_digit(s@[i as int]));
            return None;
        }
        let d: u64 = (u - '0' as u32) as u64;
        acc = acc * 10 + d;
        i = i + 1;
        proof {
            assert(s@.take(i as int).drop_last() =~= s@.take(i as int - 1));
            assert(s@.take(i as int).last() == s@[i as int - 1]);
        }
        if acc > u32::MAX as u64 {
            proof {
                lemma_digits_val_prefix_le(s@, i as int);
                assert(digits_val(s@) > u32::MAX);
            }
            return None;
        }
    }
    proof {
        assert(s@.take(n as int) =~= s@);
        assert(is_digit_seq(s@));
    }
    Some(acc as u32)
}

/// Decimal rendering of a `u32` as characters.
pub fn u32_to_dec_chars(n: u32) -> (v: Vec<char>)
    ensures
        v@ == u32_dec(n as nat),
    decreases n,
{
    if n < 10 {
        let mut v: Vec<char> = Vec::new();
        v.push((('0' as u8) + (n as u8)) as char);
        proof {
            assert(v@ =~= u32_dec(n as nat));
        }
        v
    } else {
        let mut v = u32_to_dec_chars(n / 10);
        v.push((('0' as u8) + ((n % 10) as u8)) as char);
        proof {
            assert(v@ =~= u32_dec(n as nat));
        }
        v
    }
}

/// `street_number` text survives a round trip: rendering a value and parsing
/// the rendering yields the value back, for every `u32`.
pub proof fn lemma_street_number_round_trip(n: u32)
    ensures
        spec_parse_u32(u32_dec(n as nat)) == Some(n),
{
    lemma_u32_dec_digits(n as nat);
    lemma_u32_dec_val(n as nat);
}

/// Every character of a decimal rendering is a digit, and there is at least one.
proof fn lemma_u32_dec_digits(n: nat)
    ensures
        is_digit_seq(u32_dec(n)),
    decreases n,
{
    if n < 10 {
    } else {
        lemma_u32_dec_digits(n / 10);
    }
}

/// The value read back from a decimal rendering is the rendered value.
proof fn lemma_u32_dec_val(n: nat)
    ensures
        digits_val(u32_dec(n)) == n,
    decreases n,
{
    if n < 10 {
        assert(u32_dec(n) == seq![digit_char(n)]);
        assert(u32_dec(n).drop_last() =~= Seq::<char>::empty());
        assert(u32_dec(n).last() == digit_char(n));
        lemma_digit_char_val(n);
        assert(digits_val(u32_dec(n)) == digits_val(Seq::<char>::empty()) * 10 + digit_val(
            digit_char(n),
        ));
        assert(digits_val(Seq::<char>::empty()) == 0);
    } else {
        lemma_u32_dec_val(n / 10);
        lemma_digit_char_val(n % 10);
        assert(u32_dec(n) == u32_dec(n / 10).push(digit_char(n % 10)));
        assert(u32_dec(n).drop_last() =~= u32_dec(n / 10));
        assert(u32_dec(n).last() == digit_char(n % 10));
        assert(digits_val(u32_dec(n)) == digits_val(u32_dec(n / 10)) * 10 + digit_val(
            digit_char(n % 10),
        ));
        assert(digits_val(u32_dec(n)) == (n / 10) * 10 + (n % 10));
        assert(n == (n / 10) * 10 + (n % 10)) by {
            vstd::arithmetic::div_mod::lemma_fundamental_div_mod(n as int, 10);
        };
    }
}

/// Reading a digit character back gives the digit it was made from.
proof fn lemma_digit_char_val(d: nat)
    requires
        d < 10,
    ensures
        is_digit(digit_char(d)),
        digit_val(digit_char(d)) == d,
{
    assert(((d + ('0' as u32)) as u8) as char as u32 == d + ('0' as u32));
}

/// Trimming, done on a character vector: the result is the spec-level trim.
pub fn trim_chars(s: &Vec<char>) -> (r: Vec<char>)
    ensures
        r@ == trim_s(s@),
{
    let n = s.len();
    proof {
        assert(s@.subrange(0, n as int) =~= s@);
    }
    let mut i: usize = 0;
    while i < n && is_space_c(s[i])
        invariant
            n == s@.len(),
            i <= n,
            trim_start_s(s@) == trim_start_s(s@.subrange(i as int, n as int)),
        decreases n - i,
    {
        proof {
            let t = s@.subrange(i as int, n as int);
            assert(t[0] == s@[i as int]);
            assert(t.drop_first() =~= s@.subrange(i as int + 1, n as int));
        }
        i = i + 1;
    }
    proof {
        let t = s@.subrange(i as int, n as int);
        if i < n {
            assert(t[0] == s@[i as int]);
            assert(!is_space(t[0]));
        }
        assert(trim_start_s(t) == t);
    }
    let mut j: usize = n;
    while j > i && is_space_c(s[j - 1])
        invariant
            n == s@.len(),
            i <= j <= n,
            trim_start_s(s@) == s@.subrange(i as int, n as int),
            trim_end_s(s@.subrange(i as int, n as int)) == trim_end_s(
                s@.subrange(i as int, j as int),
            ),
        decreases j,
    {
        proof {
            let t = s@.subrange(i as int, j as int);
            assert(t.last() == s@[j as int - 1]);
            assert(t.drop_last() =~= s@.subrange(i as int, j as int - 1));
        }
        j = j - 1;
    }
    proof {
        let t = s@.subrange(i as int, j as int);
        if j > i {
            assert(t.last() == s@[j as int - 1]);
            assert(!is_space(t.last()));
        }
        assert(trim_end_s(t) == t);
    }
    let mut r: Vec<char> = Vec::new();
    let mut k: usize = i;
    while k < j
        invariant
            i <= k <= j <= n,
            n == s@.len(),
            r@ == s@.subrange(i as int, k as int),
        decreases j - k,
    {
        r.push(s[k]);
        k = k + 1;
        proof {
            assert(r@ =~= s@.subrange(i as int, k as int));
        }
    }
    proof {
        assert(r@ == trim_s(s@));
    }
    r
}

/// Pushing onto a vector of strings pushes the string's view onto the
/// vector's deep view.
pub proof fn lemma_deep_view_push_string(v1: Vec<String>, v2: Vec<String>, x: String)
    requires
        v2@ == v1@.push(x),
    ensures
        v2.deep_view() == v1.deep_view().push(x@),
{
    assert(v2.deep_view() =~= v1.deep_view().push(x@));
}

/// Pushing a record onto a vector of records pushes the record's deep view.
pub proof fn lemma_deep_view_push_row(v1: Vec<Vec<String>>, v2: Vec<Vec<String>>, x: Vec<String>)
    requires
        v2@ == v1@.push(x),
    ensures
        v2.deep_view() == v1.deep_view().push(x.deep_view()),
{
    assert(v2.deep_view() =~= v1.deep_view().push(x.deep_view()));
}

/// ASCII whitespace test on one character.
pub fn is_space_c(c: char) -> (b: bool)
    ensures
        b == is_space(c),
{
    c == ' ' || c == '\t' || c == '\n' || c == '\r' || c == '\u{b}' || c == '\u{c}'
}

} // verus!
