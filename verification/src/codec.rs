//! The JSON wire format shared by the wager coordinator and the
//! range-bounded random-number service.
//!
//! Two documents travel over the boundary: a range request
//! `{"min": m, "max": x}` and a random response `{"random_number": n}`,
//! both with unsigned 32-bit fields. The serializers emit the canonical
//! form without whitespace; the parsers accept whitespace between tokens
//! and either key order in the request, and reject any other shape,
//! leading zeros included.

use vstd::prelude::*;

verus! {

use vstd::arithmetic::div_mod::lemma_fundamental_div_mod;

/// A parsed range request: draw a random number in `[min, max]`.
#[derive(Clone, Copy, Debug, PartialEq, Eq, Structural)]
pub struct RangeRequest {
    pub min: u32,
    pub max: u32,
}

// ---------------------------------------------------------------------
// Byte classes
// ---------------------------------------------------------------------

/// JSON insignificant whitespace: space, tab, line feed, carriage return.
pub open spec fn is_ws_byte(b: u8) -> bool {
    b == 32 || b == 9 || b == 10 || b == 13
}

/// An ASCII decimal digit.
pub open spec fn is_digit_byte(b: u8) -> bool {
    48 <= b && b <= 57
}

/// The numeric value of an ASCII digit.
pub open spec fn digit_val(b: u8) -> nat {
    (b - 48) as nat
}

// ---------------------------------------------------------------------
// Decimal rendering
// ---------------------------------------------------------------------

/// The shortest decimal rendering of `n`, most significant digit first.
pub open spec fn spec_decimal(n: nat) -> Seq<u8>
    decreases n,
{
    if n < 10 {
        seq![(n + 48) as u8]
    } else {
        spec_decimal(n / 10) + seq![(n % 10 + 48) as u8]
    }
}

/// A decimal rendering is never empty and consists of digits only.
pub proof fn lemma_decimal_digits(n: nat)
    ensures
        spec_decimal(n).len() >= 1,
        forall|k: int|
            0 <= k < spec_decimal(n).len() ==> is_digit_byte(#[trigger] spec_decimal(n)[k]),
    decreases n,
{
    if n >= 10 {
        lemma_decimal_digits(n / 10);
    }
}

/// A decimal rendering leads with a zero digit only for zero itself, so
/// a rendering never shows a leading zero on a multi-digit run.
pub proof fn lemma_decimal_no_leading_zero(n: nat)
    ensures
        spec_decimal(n)[0] == 48 ==> n == 0,
    decreases n,
{
    if n >= 10 {
        lemma_decimal_no_leading_zero(n / 10);
        lemma_decimal_digits(n / 10);
        assert(spec_decimal(n)[0] == spec_decimal(n / 10)[0]);
    }
}

// ---------------------------------------------------------------------
// The two documents, serialized
// ---------------------------------------------------------------------

/// The quoted key `"min"`.
pub open spec fn min_key() -> Seq<u8> {
    seq![34u8, 109u8, 105u8, 110u8, 34u8]
}

/// The quoted key `"max"`.
pub open spec fn max_key() -> Seq<u8> {
    seq![34u8, 109u8, 97u8, 120u8, 34u8]
}

/// The quoted key `"random_number"`.
pub open spec fn random_number_key() -> Seq<u8> {
    seq![
        34u8, 114u8, 97u8, 110u8, 100u8, 111u8, 109u8, 95u8, 110u8, 117u8, 109u8, 98u8, 101u8,
        114u8, 34u8,
    ]
}

/// The canonical serialization of a range request:
/// `{"min":` m `,"max":` x `}` with no whitespace.
pub open spec fn spec_range_request_json(min: u32, max: u32) -> Seq<u8> {
    seq![123u8] + min_key() + seq![58u8] + spec_decimal(min as nat) + seq![44u8] + max_key()
        + seq![58u8] + spec_decimal(max as nat) + seq![125u8]
}

/// The canonical serialization of a random response:
/// `{"random_number":` n `}` with no whitespace.
pub open spec fn spec_random_response_json(n: u32) -> Seq<u8> {
    seq![123u8] + random_number_key() + seq![58u8] + spec_decimal(n as nat) + seq![125u8]
}

// ---------------------------------------------------------------------
// Executable serializers
// ---------------------------------------------------------------------

/// Appends the decimal rendering of `n` to `out`.
fn push_decimal(out: &mut Vec<u8>, n: u32)
    ensures
        final(out)@ == old(out)@ + spec_decimal(n as nat),
    decreases n,
{
    if n < 10 {
        out.push(n as u8 + 48);
        assert(final(out)@ =~= old(out)@ + spec_decimal(n as nat));
    } else {
        push_decimal(out, n / 10);
        out.push((n % 10) as u8 + 48);
        assert(final(out)@ =~= old(out)@ + spec_decimal(n as nat));
    }
}

/// Serializes a range request as `{"min":m,"max":x}`.
pub fn serialize_range_request(min: u32, max: u32) -> (out: Vec<u8>)
    ensures
        out@ == spec_range_request_json(min, max),
{
    let mut out: Vec<u8> = Vec::new();
    out.push(123);
    out.push(34);
    out.push(109);
    out.push(105);
    out.push(110);
    out.push(34);
    out.push(58);
    push_decimal(&mut out, min);
    out.push(44);
    out.push(34);
    out.push(109);
    out.push(97);
    out.push(120);
    out.push(34);
    out.push(58);
    push_decimal(&mut out, max);
    out.push(125);
    proof {
        assert(out@ =~= spec_range_request_json(min, max));
    }
    out
}

/// Serializes a random response as `{"random_number":n}`.
pub fn serialize_random_response(n: u32) -> (out: Vec<u8>)
    ensures
        out@ == spec_random_response_json(n),
{
    let mut out: Vec<u8> = Vec::new();
    out.push(123);
    out.push(34);
    out.push(114);
    out.push(97);
    out.push(110);
    out.push(100);
    out.push(111);
    out.push(109);
    out.push(95);
    out.push(110);
    out.push(117);
    out.push(109);
    out.push(98);
    out.push(101);
    out.push(114);
    out.push(34);
    out.push(58);
    push_decimal(&mut out, n);
    out.push(125);
    proof {
        assert(out@ =~= spec_random_response_json(n));
    }
    out
}

// ---------------------------------------------------------------------
// The parsing grammar, as specification functions
// ---------------------------------------------------------------------

/// The first position at or after `i` that does not hold whitespace.
pub open spec fn spec_skip_ws(s: Seq<u8>, i: int) -> int
    decreases s.len() - i
        when 0 <= i <= s.len()
{
    if i < s.len() && is_ws_byte(s[i]) {
        spec_skip_ws(s, i + 1)
    } else {
        i
    }
}

/// The first position at or after `i` that does not hold a digit.
pub open spec fn spec_digits_end(s: Seq<u8>, i: int) -> int
    decreases s.len() - i
        when 0 <= i <= s.len()
{
    if i < s.len() && is_digit_byte(s[i]) {
        spec_digits_end(s, i + 1)
    } else {
        i
    }
}

/// The value of the digit run `s[i..j)`, read most significant first.
pub open spec fn spec_digits_value(s: Seq<u8>, i: int, j: int) -> nat
    decreases j - i,
{
    if i >= j {
        0
    } else {
        spec_digits_value(s, i, j - 1) * 10 + digit_val(s[j - 1])
    }
}

/// A number starts with a digit at `i`, runs to the end of the digit
/// run, and must fit in an unsigned 32-bit integer. A zero may not lead
/// a multi-digit run.
pub open spec fn spec_parse_number(s: Seq<u8>, i: int) -> Option<(u32, int)> {
    if 0 <= i < s.len() && is_digit_byte(s[i]) {
        if s[i] == 48 && i + 1 < s.len() && is_digit_byte(s[i + 1]) {
            None
        } else {
            let j = spec_digits_end(s, i);
            let v = spec_digits_value(s, i, j);
            if v <= u32::MAX {
                Some(((v as u32), j))
            } else {
                None
            }
        }
    } else {
        None
    }
}

/// Whether `pat` occurs in `s` at position `i`.
pub open spec fn spec_match_at(s: Seq<u8>, i: int, pat: Seq<u8>) -> bool {
    0 <= i && i + pat.len() <= s.len() && s.subrange(i, i + pat.len() as int) == pat
}

/// After a key: optional whitespace, a colon, optional whitespace, a
/// number. Yields the value and the position just past its digits.
pub open spec fn spec_parse_after_key(s: Seq<u8>, i: int) -> Option<(u32, int)> {
    let c = spec_skip_ws(s, i);
    if c < s.len() && s[c] == 58 {
        spec_parse_number(s, spec_skip_ws(s, c + 1))
    } else {
        None
    }
}

/// A field: the quoted key `key` at `i`, then colon and number.
pub open spec fn spec_parse_field(s: Seq<u8>, i: int, key: Seq<u8>) -> Option<(u32, int)> {
    if spec_match_at(s, i, key) {
        spec_parse_after_key(s, i + key.len() as int)
    } else {
        None
    }
}

/// Two fields beginning at `i` (just inside the opening brace), with the
/// keys in the given order, then the closing brace and the end of input.
pub open spec fn spec_parse_pair_body(s: Seq<u8>, i: int, first: Seq<u8>, second: Seq<u8>) -> Option<
    (u32, u32),
> {
    match spec_parse_field(s, i, first) {
        Some((v1, e1)) => {
            let c = spec_skip_ws(s, e1);
            if c < s.len() && s[c] == 44 {
                match spec_parse_field(s, spec_skip_ws(s, c + 1), second) {
                    Some((v2, e2)) => {
                        let b = spec_skip_ws(s, e2);
                        if b < s.len() && s[b] == 125 && spec_skip_ws(s, b + 1) == s.len() {
                            Some((v1, v2))
                        } else {
                            None
                        }
                    },
                    None => None,
                }
            } else {
                None
            }
        },
        None => None,
    }
}

/// The whole range-request document: an object holding exactly the keys
/// `min` and `max` once each, in either order, with unsigned 32-bit
/// values; whitespace is allowed between tokens. Yields `(min, max)`.
pub open spec fn spec_parse_range_request(s: Seq<u8>) -> Option<(u32, u32)> {
    let o = spec_skip_ws(s, 0);
    if o < s.len() && s[o] == 123 {
        let i = spec_skip_ws(s, o + 1);
        if spec_match_at(s, i, min_key()) {
            spec_parse_pair_body(s, i, min_key(), max_key())
        } else {
            match spec_parse_pair_body(s, i, max_key(), min_key()) {
                Some((mx, mn)) => Some((mn, mx)),
                None => None,
            }
        }
    } else {
        None
    }
}

/// The whole random-response document: an object holding exactly the key
/// `random_number` with an unsigned 32-bit value.
pub open spec fn spec_parse_random_response(s: Seq<u8>) -> Option<u32> {
    let o = spec_skip_ws(s, 0);
    if o < s.len() && s[o] == 123 {
        let i = spec_skip_ws(s, o + 1);
        match spec_parse_field(s, i, random_number_key()) {
            Some((v, e)) => {
                let b = spec_skip_ws(s, e);
                if b < s.len() && s[b] == 125 && spec_skip_ws(s, b + 1) == s.len() {
                    Some(v)
                } else {
                    None
                }
            },
            None => None,
        }
    } else {
        None
    }
}

// ---------------------------------------------------------------------
// Executable parser
// ---------------------------------------------------------------------

/// Skips whitespace from `i`.
fn skip_ws(s: &[u8], i: usize) -> (r: usize)
    requires
        i <= s@.len(),
    ensures
        r == spec_skip_ws(s@, i as int),
        i <= r <= s@.len(),
        r < s@.len() ==> !is_ws_byte(s@[r as int]),
{
    let mut j = i;
    while j < s.len() && (s[j] == 32 || s[j] == 9 || s[j] == 10 || s[j] == 13)
        invariant
            i <= j <= s@.len(),
            spec_skip_ws(s@, i as int) == spec_skip_ws(s@, j as int),
        decreases s@.len() - j,
    {
        j = j + 1;
    }
    j
}

/// Scans the digit run starting at `i` and accumulates its value,
/// rejecting values over `u32::MAX`.
fn parse_number(s: &[u8], i: usize) -> (r: Option<(u32, usize)>)
    requires
        i <= s@.len(),
    ensures
        match r {
            Some(p) => {
                &&& spec_parse_number(s@, i as int) == Some((p.0, p.1 as int))
                &&& i <= p.1 <= s@.len()
            },
            None => spec_parse_number(s@, i as int) is None,
        },
{
    if !(i < s.len() && 48 <= s[i] && s[i] <= 57) {
        return None;
    }
    if s[i] == 48 && i + 1 < s.len() && 48 <= s[i + 1] && s[i + 1] <= 57 {
        return None;
    }
    let mut j = i;
    let mut val: u64 = 0;
    let mut overflow = false;
    while j < s.len() && 48 <= s[j] && s[j] <= 57
        invariant
            i <= j <= s@.len(),
            spec_digits_end(s@, i as int) == spec_digits_end(s@, j as int),
            !overflow ==> val == spec_digits_value(s@, i as int, j as int) && val <= u32::MAX,
            overflow ==> spec_digits_value(s@, i as int, j as int) > u32::MAX,
        decreases s@.len() - j,
    {
        let d = (s[j] - 48) as u64;
        if !overflow {
            let next = val * 10 + d;
            if next > u32::MAX as u64 {
                overflow = true;
            } else {
                val = next;
            }
        }
        proof {
            assert(spec_digits_value(s@, i as int, j + 1 as int) == spec_digits_value(
                s@,
                i as int,
                j as int,
            ) * 10 + digit_val(s@[j as int]));
        }
        j = j + 1;
    }
    proof {
        assert(spec_digits_end(s@, j as int) == j);
    }
    if overflow {
        None
    } else {
        Some((val as u32, j))
    }
}

/// Checks for the quoted key `"min"` at `i`.
fn match_min_key(s: &[u8], i: usize) -> (r: bool)
    ensures
        r == spec_match_at(s@, i as int, min_key()),
{
    let r = i <= s.len() && s.len() - i >= 5 && s[i] == 34 && s[i + 1] == 109 && s[i + 2] == 105
        && s[i + 3] == 110 && s[i + 4] == 34;
    proof {
        if r {
            assert(s@.subrange(i as int, i as int + 5) =~= min_key());
        }
        if spec_match_at(s@, i as int, min_key()) {
            assert(s@[i as int] == min_key()[0]);
            assert(s@[i as int + 1] == min_key()[1]);
            assert(s@[i as int + 2] == min_key()[2]);
            assert(s@[i as int + 3] == min_key()[3]);
            assert(s@[i as int + 4] == min_key()[4]);
        }
    }
    r
}

/// Checks for the quoted key `"max"` at `i`.
fn match_max_key(s: &[u8], i: usize) -> (r: bool)
    ensures
        r == spec_match_at(s@, i as int, max_key()),
{
    let r = i <= s.len() && s.len() - i >= 5 && s[i] == 34 && s[i + 1] == 109 && s[i + 2] == 97
        && s[i + 3] == 120 && s[i + 4] == 34;
    proof {
        if r {
            assert(s@.subrange(i as int, i as int + 5) =~= max_key());
        }
        if spec_match_at(s@, i as int, max_key()) {
            assert(s@[i as int] == max_key()[0]);
            assert(s@[i as int + 1] == max_key()[1]);
            assert(s@[i as int + 2] == max_key()[2]);
            assert(s@[i as int + 3] == max_key()[3]);
            assert(s@[i as int + 4] == max_key()[4]);
        }
    }
    r
}

/// Checks for the quoted key `"random_number"` at `i`.
fn match_random_number_key(s: &[u8], i: usize) -> (r: bool)
    ensures
        r == spec_match_at(s@, i as int, random_number_key()),
{
    let r = i <= s.len() && s.len() - i >= 15 && s[i] == 34 && s[i + 1] == 114 && s[i + 2] == 97
        && s[i + 3] == 110 && s[i + 4] == 100 && s[i + 5] == 111 && s[i + 6] == 109 && s[i + 7]
        == 95 && s[i + 8] == 110 && s[i + 9] == 117 && s[i + 10] == 109 && s[i + 11] == 98 && s[i
        + 12] == 101 && s[i + 13] == 114 && s[i + 14] == 34;
    proof {
        if r {
            assert(s@.subrange(i as int, i as int + 15) =~= random_number_key());
        }
        if spec_match_at(s@, i as int, random_number_key()) {
            assert forall|k: int| 0 <= k < 15 implies s@[i + k] == random_number_key()[k] by {
                assert(s@.subrange(i as int, i as int + 15)[k] == s@[i + k]);
            }
        }
    }
    r
}

/// Parses colon and number after a key that ends at `i`.
fn parse_after_key(s: &[u8], i: usize) -> (r: Option<(u32, usize)>)
    requires
        i <= s@.len(),
    ensures
        match r {
            Some(p) => {
                &&& spec_parse_after_key(s@, i as int) == Some((p.0, p.1 as int))
                &&& p.1 <= s@.len()
            },
            None => spec_parse_after_key(s@, i as int) is None,
        },
{
    let c = skip_ws(s, i);
    if c < s.len() && s[c] == 58 {
        parse_number(s, skip_ws(s, c + 1))
    } else {
        None
    }
}

/// Parses the body of `{"min":m,"max":x}` starting just inside the brace.
fn parse_pair_min_max(s: &[u8], i: usize) -> (r: Option<(u32, u32)>)
    requires
        i <= s@.len(),
    ensures
        r == spec_parse_pair_body(s@, i as int, min_key(), max_key()),
{
    if !match_min_key(s, i) {
        return None;
    }
    let slen = s.len();
    proof {
        assert(i + min_key().len() <= slen);
    }
    match parse_after_key(s, i + 5) {
        None => None,
        Some((v1, e1)) => {
            let c = skip_ws(s, e1);
            if c < s.len() && s[c] == 44 {
                let i2 = skip_ws(s, c + 1);
                if !match_max_key(s, i2) {
                    return None;
                }
                match parse_after_key(s, i2 + 5) {
                    None => None,
                    Some((v2, e2)) => {
                        let b = skip_ws(s, e2);
                        if b < s.len() && s[b] == 125 {
                            let t = skip_ws(s, b + 1);
                            if t == s.len() {
                                Some((v1, v2))
                            } else {
                                None
                            }
                        } else {
                            None
                        }
                    },
                }
            } else {
                None
            }
        },
    }
}

/// Parses the body of `{"max":x,"min":m}` starting just inside the brace.
fn parse_pair_max_min(s: &[u8], i: usize) -> (r: Option<(u32, u32)>)
    requires
        i <= s@.len(),
    ensures
        r == spec_parse_pair_body(s@, i as int, max_key(), min_key()),
{
    if !match_max_key(s, i) {
        return None;
    }
    let slen = s.len();
    proof {
        assert(i + max_key().len() <= slen);
    }
    match parse_after_key(s, i + 5) {
        None => None,
        Some((v1, e1)) => {
            let c = skip_ws(s, e1);
            if c < s.len() && s[c] == 44 {
                let i2 = skip_ws(s, c + 1);
                if !match_min_key(s, i2) {
                    return None;
                }
                match parse_after_key(s, i2 + 5) {
                    None => None,
                    Some((v2, e2)) => {
                        let b = skip_ws(s, e2);
                        if b < s.len() && s[b] == 125 {
                            let t = skip_ws(s, b + 1);
                            if t == s.len() {
                                Some((v1, v2))
                            } else {
                                None
                            }
                        } else {
                            None
                        }
                    },
                }
            } else {
                None
            }
        },
    }
}

/// Parses a range-request document.
pub fn parse_range_request(s: &[u8]) -> (r: Option<RangeRequest>)
    ensures
        match r {
            Some(q) => spec_parse_range_request(s@) == Some((q.min, q.max)),
            None => spec_parse_range_request(s@) is None,
        },
{
    let o = skip_ws(s, 0);
    if !(o < s.len() && s[o] == 123) {
        return None;
    }
    let i = skip_ws(s, o + 1);
    if match_min_key(s, i) {
        match parse_pair_min_max(s, i) {
            Some((mn, mx)) => Some(RangeRequest { min: mn, max: mx }),
            None => None,
        }
    } else {
        match parse_pair_max_min(s, i) {
            Some((mx, mn)) => Some(RangeRequest { min: mn, max: mx }),
            None => None,
        }
    }
}

/// Parses a random-response document.
pub fn parse_random_response(s: &[u8]) -> (r: Option<u32>)
    ensures
        r == spec_parse_random_response(s@),
{
    let o = skip_ws(s, 0);
    if !(o < s.len() && s[o] == 123) {
        return None;
    }
    let i = skip_ws(s, o + 1);
    if !match_random_number_key(s, i) {
        return None;
    }
    match parse_after_key(s, i + 15) {
        None => None,
        Some((v, e)) => {
            let b = skip_ws(s, e);
            if b < s.len() && s[b] == 125 {
                let t = skip_ws(s, b + 1);
                if t == s.len() {
                    Some(v)
                } else {
                    None
                }
            } else {
                None
            }
        },
    }
}

// ---------------------------------------------------------------------
// Round trips: parsing a serialized document recovers the values
// ---------------------------------------------------------------------

/// A digit run that ends at a non-digit (or at the end of input) is
/// exactly what `spec_digits_end` finds.
proof fn lemma_digits_end_at(s: Seq<u8>, i: int, j: int)
    requires
        0 <= i <= j <= s.len(),
        forall|k: int| i <= k < j ==> is_digit_byte(#[trigger] s[k]),
        j == s.len() || !is_digit_byte(s[j]),
    ensures
        spec_digits_end(s, i) == j,
    decreases j - i,
{
    if i < j {
        lemma_digits_end_at(s, i + 1, j);
    }
}

/// Reading back the decimal rendering of `n` yields `n`.
proof fn lemma_digits_value_of_decimal(s: Seq<u8>, i: int, n: nat)
    requires
        0 <= i,
        i + spec_decimal(n).len() <= s.len(),
        s.subrange(i, i + spec_decimal(n).len() as int) == spec_decimal(n),
    ensures
        spec_digits_value(s, i, i + spec_decimal(n).len() as int) == n,
    decreases n,
{
    let d = spec_decimal(n);
    let l = d.len() as int;
    if n < 10 {
        assert(s.subrange(i, i + 1)[0] == s[i]);
        assert(s[i] == (n + 48) as u8);
        assert(spec_digits_value(s, i, i + 1) == spec_digits_value(s, i, i) * 10 + digit_val(
            s[i],
        ));
    } else {
        let dp = spec_decimal(n / 10);
        let lp = dp.len() as int;
        assert(d == dp + seq![(n % 10 + 48) as u8]);
        assert forall|k: int| 0 <= k < lp implies s.subrange(i, i + lp)[k] == dp[k] by {
            assert(s.subrange(i, i + l)[k] == s[i + k]);
            assert(s.subrange(i, i + lp)[k] == s[i + k]);
            assert(d[k] == dp[k]);
        }
        assert(s.subrange(i, i + lp) =~= dp);
        lemma_digits_value_of_decimal(s, i, n / 10);
        assert(s.subrange(i, i + l)[l - 1] == s[i + l - 1]);
        assert(s[i + l - 1] == (n % 10 + 48) as u8);
        assert(spec_digits_value(s, i, i + l) == spec_digits_value(s, i, i + l - 1) * 10
            + digit_val(s[i + l - 1]));
        lemma_fundamental_div_mod(n as int, 10);
    }
}

/// Parsing a serialized range request yields the pair it was built from.
pub proof fn lemma_range_request_round_trip(min: u32, max: u32)
    ensures
        spec_parse_range_request(spec_range_request_json(min, max)) == Some((min, max)),
{
    let s = spec_range_request_json(min, max);
    let d1 = spec_decimal(min as nat);
    let d2 = spec_decimal(max as nat);
    let l1 = d1.len() as int;
    let l2 = d2.len() as int;
    lemma_decimal_digits(min as nat);
    lemma_decimal_digits(max as nat);
    assert(s.len() == 15 + l1 + l2);
    assert(s[0] == 123);
    assert(s[1] == 34);
    assert(s[2] == 109);
    assert(s[3] == 105);
    assert(s[4] == 110);
    assert(s[5] == 34);
    assert(s[6] == 58);
    assert forall|k: int| 0 <= k < l1 implies s[7 + k] == d1[k] by {}
    assert(s[7 + l1] == 44);
    assert(s[8 + l1] == 34);
    assert(s[9 + l1] == 109);
    assert(s[10 + l1] == 97);
    assert(s[11 + l1] == 120);
    assert(s[12 + l1] == 34);
    assert(s[13 + l1] == 58);
    assert forall|k: int| 0 <= k < l2 implies s[14 + l1 + k] == d2[k] by {}
    assert(s[14 + l1 + l2] == 125);

    assert(spec_skip_ws(s, 0) == 0);
    assert(spec_skip_ws(s, 1) == 1);
    assert(s.subrange(1, 6) =~= min_key());
    assert(spec_match_at(s, 1, min_key()));
    assert(spec_skip_ws(s, 6) == 6);
    assert(is_digit_byte(s[7]));
    assert(spec_skip_ws(s, 7) == 7);
    assert forall|k: int| 7 <= k < 7 + l1 implies is_digit_byte(#[trigger] s[k]) by {
        assert(s[k] == d1[k - 7]);
    }
    lemma_digits_end_at(s, 7, 7 + l1);
    assert(s.subrange(7, 7 + l1) =~= d1);
    lemma_digits_value_of_decimal(s, 7, min as nat);
    assert(!(s[7] == 48 && is_digit_byte(s[8]))) by {
        if s[7] == 48 {
            lemma_decimal_no_leading_zero(min as nat);
            assert(min as nat == 0);
            assert(l1 == 1);
            assert(s[8] == 44);
        }
    }
    assert(spec_parse_number(s, 7) == Some((min, 7 + l1)));
    assert(spec_parse_after_key(s, 6) == Some((min, 7 + l1)));
    assert(spec_parse_field(s, 1, min_key()) == Some((min, 7 + l1)));

    assert(spec_skip_ws(s, 7 + l1) == 7 + l1);
    assert(spec_skip_ws(s, 8 + l1) == 8 + l1);
    assert(s.subrange(8 + l1, 13 + l1) =~= max_key());
    assert(spec_match_at(s, 8 + l1, max_key()));
    assert(spec_skip_ws(s, 13 + l1) == 13 + l1);
    assert(is_digit_byte(s[14 + l1]));
    assert(spec_skip_ws(s, 14 + l1) == 14 + l1);
    assert forall|k: int| 14 + l1 <= k < 14 + l1 + l2 implies is_digit_byte(#[trigger] s[k]) by {
        assert(s[k] == d2[k - 14 - l1]);
    }
    lemma_digits_end_at(s, 14 + l1, 14 + l1 + l2);
    assert(s.subrange(14 + l1, 14 + l1 + l2) =~= d2);
    lemma_digits_value_of_decimal(s, 14 + l1, max as nat);
    assert(!(s[14 + l1] == 48 && is_digit_byte(s[15 + l1]))) by {
        if s[14 + l1] == 48 {
            lemma_decimal_no_leading_zero(max as nat);
            assert(max as nat == 0);
            assert(l2 == 1);
            assert(s[15 + l1] == 125);
        }
    }
    assert(spec_parse_number(s, 14 + l1) == Some((max, 14 + l1 + l2)));
    assert(spec_parse_after_key(s, 13 + l1) == Some((max, 14 + l1 + l2)));
    assert(spec_parse_field(s, 8 + l1, max_key()) == Some((max, 14 + l1 + l2)));

    assert(spec_skip_ws(s, 14 + l1 + l2) == 14 + l1 + l2);
    assert(spec_skip_ws(s, 15 + l1 + l2) == s.len());
    assert(spec_parse_pair_body(s, 1, min_key(), max_key()) == Some((min, max)));
    assert(spec_parse_range_request(s) == Some((min, max)));
}

/// Parsing a serialized random response yields the number it was built
/// from.
pub proof fn lemma_random_response_round_trip(n: u32)
    ensures
        spec_parse_random_response(spec_random_response_json(n)) == Some(n),
{
    let s = spec_random_response_json(n);
    let d = spec_decimal(n as nat);
    let l = d.len() as int;
    lemma_decimal_digits(n as nat);
    assert(s.len() == 18 + l);
    assert(s[0] == 123);
    assert forall|k: int| 0 <= k < 15 implies s[1 + k] == random_number_key()[k] by {}
    assert(s[16] == 58);
    assert forall|k: int| 0 <= k < l implies s[17 + k] == d[k] by {}
    assert(s[17 + l] == 125);

    assert(spec_skip_ws(s, 0) == 0);
    assert(s[1] == 34);
    assert(spec_skip_ws(s, 1) == 1);
    assert(s.subrange(1, 16) =~= random_number_key());
    assert(spec_match_at(s, 1, random_number_key()));
    assert(spec_skip_ws(s, 16) == 16);
    assert(is_digit_byte(s[17]));
    assert(spec_skip_ws(s, 17) == 17);
    assert forall|k: int| 17 <= k < 17 + l implies is_digit_byte(#[trigger] s[k]) by {
        assert(s[k] == d[k - 17]);
    }
    lemma_digits_end_at(s, 17, 17 + l);
    assert(s.subrange(17, 17 + l) =~= d);
    lemma_digits_value_of_decimal(s, 17, n as nat);
    assert(!(s[17] == 48 && is_digit_byte(s[18]))) by {
        if s[17] == 48 {
            lemma_decimal_no_leading_zero(n as nat);
            assert(n as nat == 0);
            assert(l == 1);
            assert(s[18] == 125);
        }
    }
    assert(spec_parse_number(s, 17) == Some((n, 17 + l)));
    assert(spec_parse_after_key(s, 16) == Some((n, 17 + l)));
    assert(spec_parse_field(s, 1, random_number_key()) == Some((n, 17 + l)));
    assert(spec_skip_ws(s, 17 + l) == 17 + l);
    assert(spec_skip_ws(s, 18 + l) == s.len());
    assert(spec_parse_random_response(s) == Some(n));
}

} // verus!
