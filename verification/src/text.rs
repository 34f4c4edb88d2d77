//! Text handling: exact string comparison, whitespace trimming, and the
//! classification of trimmed text into typed JSON scalars.

use vstd::prelude::*;

use crate::config::JsonType;
use crate::value::JsonModel;
use crate::value::JsonValue;

verus! {

/// Exact equality of two strings, character by character.
pub fn str_eq(a: &str, b: &str) -> (r: bool)
    ensures
        r == (a@ == b@),
{
    let alen = a.unicode_len();
    let blen = b.unicode_len();
    if alen != blen {
        proof {
            assert(a@.len() != b@.len());
        }
        return false;
    }
    let mut i: usize = 0;
    while i < alen
        invariant
            0 <= i <= alen,
            alen == a@.len(),
            alen == b@.len(),
            forall|j: int| 0 <= j < i ==> a@[j] == b@[j],
        decreases alen - i,
    {
        if a.get_char(i) != b.get_char(i) {
            return false;
        }
        i += 1;
    }
    proof {
        assert(a@ =~= b@);
    }
    true
}

/// Whitespace as the trimming rules see it: the Unicode `White_Space`
/// code points.
pub open spec fn is_ws(c: char) -> bool {
    let u = c as u32;
    u == 0x09 || u == 0x0A || u == 0x0B || u == 0x0C || u == 0x0D || u == 0x20 || u == 0x85 || u
        == 0xA0 || u == 0x1680 || (0x2000 <= u && u <= 0x200A) || u == 0x2028 || u == 0x2029 || u
        == 0x202F || u == 0x205F || u == 0x3000
}

/// Whether `c` is whitespace for the trimming rules.
pub fn is_whitespace_char(c: char) -> (r: bool)
    ensures
        r == is_ws(c),
{
    let u = c as u32;
    u == 0x09 || u == 0x0A || u == 0x0B || u == 0x0C || u == 0x0D || u == 0x20 || u == 0x85 || u
        == 0xA0 || u == 0x1680 || (0x2000 <= u && u <= 0x200A) || u == 0x2028 || u == 0x2029 || u
        == 0x202F || u == 0x205F || u == 0x3000
}

/// `s` without its leading whitespace.
pub open spec fn drop_leading_ws(s: Seq<char>) -> Seq<char>
    decreases s.len(),
{
    if s.len() == 0 {
        s
    } else if is_ws(s[0]) {
        drop_leading_ws(s.drop_first())
    } else {
        s
    }
}

/// `s` without its trailing whitespace.
pub open spec fn drop_trailing_ws(s: Seq<char>) -> Seq<char>
    decreases s.len(),
{
    if s.len() == 0 {
        s
    } else if is_ws(s.last()) {
        drop_trailing_ws(s.drop_last())
    } else {
        s
    }
}

/// `s` without leading and trailing whitespace.
pub open spec fn trim_spec(s: Seq<char>) -> Seq<char> {
    drop_trailing_ws(drop_leading_ws(s))
}

/// A copy of `s` with leading and trailing whitespace removed.
pub fn trim_str(s: &str) -> (r: String)
    ensures
        r@ == trim_spec(s@),
{
    let len = s.unicode_len();
    let mut start: usize = 0;
    proof {
        assert(s@.skip(0) =~= s@);
    }
    while start < len
        invariant_except_break
            0 <= start <= len,
            len == s@.len(),
            drop_leading_ws(s@) == drop_leading_ws(s@.skip(start as int)),
        ensures
            0 <= start <= len,
            len == s@.len(),
            drop_leading_ws(s@) == s@.skip(start as int),
        decreases len - start,
    {
        if !is_whitespace_char(s.get_char(start)) {
            proof {
                assert(drop_leading_ws(s@.skip(start as int)) == s@.skip(start as int));
            }
            break ;
        }
        proof {
            assert(s@.skip(start as int).drop_first() =~= s@.skip(start as int + 1));
        }
        start += 1;
    }
    let ghost lead = s@.skip(start as int);
    let mut end: usize = len;
    while end > start
        invariant_except_break
            start <= end <= len,
            len == s@.len(),
            lead == s@.skip(start as int),
            drop_trailing_ws(lead) == drop_trailing_ws(s@.subrange(start as int, end as int)),
        ensures
            start <= end <= len,
            len == s@.len(),
            drop_trailing_ws(lead) == s@.subrange(start as int, end as int),
        decreases end,
    {
        if !is_whitespace_char(s.get_char(end - 1)) {
            proof {
                let part = s@.subrange(start as int, end as int);
                assert(part.last() == s@[end - 1]);
                assert(drop_trailing_ws(part) == part);
            }
            break ;
        }
        proof {
            let part = s@.subrange(start as int, end as int);
            assert(part.last() == s@[end - 1]);
            assert(part.drop_last() =~= s@.subrange(start as int, end as int - 1));
        }
        end -= 1;
    }
    proof {
        assert(lead =~= s@.subrange(start as int, len as int));
    }
    let r = s.substring_char(start, end).to_owned();
    proof {
        assert(r@ == trim_spec(s@));
    }
    r
}

/// Trimming changes nothing when neither end of the text is whitespace.
pub proof fn lemma_trim_id(s: Seq<char>)
    requires
        s.len() > 0 ==> !is_ws(s[0]) && !is_ws(s.last()),
    ensures
        trim_spec(s) == s,
{
    assert(drop_leading_ws(s) == s);
    assert(drop_trailing_ws(s) == s);
}

/// A decimal digit.
pub open spec fn is_digit(c: char) -> bool {
    0x30 <= c as u32 && c as u32 <= 0x39
}

/// The numeric value of a decimal digit.
pub open spec fn digit_val(c: char) -> int {
    c as u32 - 0x30
}

/// Every character of `s` is a decimal digit.
pub open spec fn all_digits(s: Seq<char>) -> bool {
    forall|i: int| 0 <= i < s.len() ==> is_digit(s[i])
}

/// The value of a digit sequence read as a decimal number.
pub open spec fn digits_val(s: Seq<char>) -> int
    decreases s.len(),
{
    if s.len() == 0 {
        0
    } else {
        10 * digits_val(s.drop_last()) + digit_val(s.last())
    }
}

/// The digit part of an unsigned decimal text: a single leading `+` sign
/// is allowed and skipped.
pub open spec fn u64_digits(s: Seq<char>) -> Seq<char> {
    if s.len() > 0 && s[0] == '+' {
        s.drop_first()
    } else {
        s
    }
}

/// Whether `s` is a decimal text that an unsigned 64-bit parse accepts:
/// an optional `+` sign, one or more digits, value at most `u64::MAX`.
pub open spec fn is_u64_text(s: Seq<char>) -> bool {
    let d = u64_digits(s);
    d.len() > 0 && all_digits(d) && digits_val(d) <= u64::MAX
}

/// The value of a decimal text accepted by the unsigned 64-bit parse.
pub open spec fn u64_text_val(s: Seq<char>) -> int {
    digits_val(u64_digits(s))
}

/// A digit sequence has a non-negative value.
pub proof fn lemma_digits_val_nonneg(s: Seq<char>)
    requires
        all_digits(s),
    ensures
        digits_val(s) >= 0,
    decreases s.len(),
{
    if s.len() > 0 {
        lemma_digits_val_nonneg(s.drop_last());
    }
}

/// A prefix of a digit sequence has a value no greater than the whole.
pub proof fn lemma_digits_val_prefix(s: Seq<char>, n: int)
    requires
        all_digits(s),
        0 <= n <= s.len(),
    ensures
        digits_val(s.subrange(0, n)) <= digits_val(s),
    decreases s.len() - n,
{
    if n == s.len() {
        assert(s.subrange(0, n) =~= s);
    } else {
        lemma_digits_val_nonneg(s.subrange(0, n));
        assert(s.subrange(0, n + 1).drop_last() =~= s.subrange(0, n));
        assert(digits_val(s.subrange(0, n + 1)) == 10 * digits_val(s.subrange(0, n)) + digit_val(
            s[n],
        ));
        lemma_digits_val_prefix(s, n + 1);
    }
}

/// Parse `s` as an unsigned 64-bit decimal number: an optional `+` sign,
/// then digits; fails on any other character and on overflow.
#[verifier::rlimit(50)]
pub fn parse_u64(s: &str) -> (r: Option<u64>)
    ensures
        r is Some <==> is_u64_text(s@),
        r matches Some(v) ==> v == u64_text_val(s@),
{
    let len = s.unicode_len();
    let mut start: usize = 0;
    if len > 0 && s.get_char(0) == '+' {
        start = 1;
    }
    let ghost d = u64_digits(s@);
    proof {
        if start == 1 {
            assert(d =~= s@.skip(1));
        } else {
            assert(d =~= s@.skip(0));
        }
    }
    if start >= len {
        return Option::None;
    }
    let mut acc: u64 = 0;
    let mut i: usize = start;
    while i < len
        invariant
            start <= i <= len,
            len == s@.len(),
            start < len,
            d == u64_digits(s@),
            d == s@.skip(start as int),
            d.len() == len - start,
            all_digits(d.subrange(0, i - start)),
            acc == digits_val(d.subrange(0, i - start)),
        decreases len - i,
    {
        let c = s.get_char(i);
        let u = c as u32;
        proof {
            assert(d[i - start] == s@[i as int]);
        }
        if u < 0x30 || u > 0x39 {
            proof {
                assert(!is_digit(d[i - start]));
                assert(!all_digits(d));
            }
            return Option::None;
        }
        let dv: u64 = ((u - 0x30) as u8) as u64;
        let ghost prefix = d.subrange(0, i - start);
        let ghost prefix2 = d.subrange(0, i - start + 1);
        proof {
            assert(prefix2.drop_last() =~= prefix);
            assert(prefix2.last() == d[i - start]);
            assert(digits_val(prefix2) == 10 * digits_val(prefix) + digit_val(d[i - start]));
        }
        if acc > (u64::MAX - dv) / 10 {
            proof {
                vstd::arithmetic::div_mod::lemma_fundamental_div_mod((u64::MAX - dv) as int, 10);
                vstd::arithmetic::div_mod::lemma_mod_bound((u64::MAX - dv) as int, 10);
                assert(10 * acc + dv > u64::MAX);
                assert(digits_val(prefix2) > u64::MAX);
                if all_digits(d) {
                    assert(all_digits(prefix2));
                    lemma_digits_val_prefix(d, i - start + 1);
                    assert(digits_val(d) > u64::MAX);
                }
                assert(!is_u64_text(s@));
            }
            return Option::None;
        }
        proof {
            vstd::arithmetic::div_mod::lemma_fundamental_div_mod((u64::MAX - dv) as int, 10);
            vstd::arithmetic::div_mod::lemma_mod_bound((u64::MAX - dv) as int, 10);
            assert(10 * acc + dv <= u64::MAX);
        }
        acc = acc * 10 + dv;
        i += 1;
    }
    proof {
        assert(d.subrange(0, len - start) =~= d);
        lemma_digits_val_nonneg(d);
    }
    Option::Some(acc)
}

/// The finite float that the text denotes, as a JSON number, if any: the
/// combined outcome of a 64-bit float parse and the finiteness check.
pub uninterp spec fn float_number_of(s: Seq<char>) -> Option<serde_json::Number>;

/// Relies on `str::parse::<f64>` and `serde_json::Number::from_f64`: `Some`
/// exactly when the text parses as a float and the parsed value is finite;
/// the outcome depends on the characters of the text alone.
#[verifier::external_body]
fn parse_float(s: &str) -> (r: Option<serde_json::Number>)
    ensures
        r == float_number_of(s@),
{
    s.parse().ok().and_then(serde_json::Number::from_f64)
}

/// The text begins with the digit zero.
pub open spec fn starts_with_zero(t: Seq<char>) -> bool {
    t.len() > 0 && t[0] == '0'
}

/// A leading-zero integer that the leading-zero rule keeps as a string:
/// anything starting with `0` except the single character `0`.
pub open spec fn lz_string_cond(t: Seq<char>) -> bool {
    starts_with_zero(t) && (u64_text_val(t) != 0 || t.len() > 1)
}

/// A float-looking text that is kept as a string: it starts with `0` but
/// not with `0.`.
pub open spec fn float_lz_cond(t: Seq<char>) -> bool {
    starts_with_zero(t) && !(t.len() >= 2 && t[1] == '.')
}

/// Classification of an already-trimmed text under the inference rules:
/// integer, then float, then boolean, else string.
pub open spec fn classify_infer_spec(t: Seq<char>, lz_active: bool) -> JsonModel {
    if is_u64_text(t) {
        if lz_active && lz_string_cond(t) {
            JsonModel::Str(t)
        } else {
            JsonModel::Int(u64_text_val(t) as u64)
        }
    } else {
        match float_number_of(t) {
            Option::Some(n) => if float_lz_cond(t) {
                JsonModel::Str(t)
            } else {
                JsonModel::Float(n)
            },
            Option::None => if t == "true"@ {
                JsonModel::Bool(true)
            } else if t == "false"@ {
                JsonModel::Bool(false)
            } else {
                JsonModel::Str(t)
            },
        }
    }
}

/// Whether the trimmed text equals one of the listed tokens.
pub open spec fn token_match(tokens: Seq<String>, t: Seq<char>) -> bool {
    exists|i: int| 0 <= i < tokens.len() && tokens[i]@ == t
}

/// Classification of a text under a directive: the text is trimmed, then
/// `AlwaysString` keeps it as a string, a `Bool` directive tests it against
/// the token list, and the inference directives detect integer, float and
/// boolean values. `StringIfLeadingZero` forces the leading-zero rule that
/// `leading_zero_as_string` switches on document-wide.
pub open spec fn classify_spec(text: Seq<char>, leading_zero_as_string: bool, d: JsonType) -> JsonModel {
    let t = trim_spec(text);
    match d {
        JsonType::AlwaysString => JsonModel::Str(t),
        JsonType::Bool(tokens) => JsonModel::Bool(token_match(tokens@, t)),
        JsonType::Infer => classify_infer_spec(t, leading_zero_as_string),
        JsonType::StringIfLeadingZero => classify_infer_spec(t, true),
    }
}

/// Whether `t` equals one of the tokens.
fn token_in_list(tokens: &Vec<String>, t: &str) -> (r: bool)
    ensures
        r == token_match(tokens@, t@),
{
    let mut i: usize = 0;
    while i < tokens.len()
        invariant
            0 <= i <= tokens@.len(),
            forall|j: int| 0 <= j < i ==> tokens@[j]@ != t@,
        decreases tokens@.len() - i,
    {
        if str_eq(tokens[i].as_str(), t) {
            proof {
                assert(tokens@[i as int]@ == t@);
            }
            return true;
        }
        i += 1;
    }
    false
}

/// Classify an already-trimmed text under the inference rules.
fn classify_trimmed(t: String, lz_active: bool) -> (r: JsonValue)
    ensures
        r.model() == classify_infer_spec(t@, lz_active),
{
    match parse_u64(t.as_str()) {
        Option::Some(v) => {
            proof {
                assert(t@.len() > 0);
            }
            let c0 = t.as_str().get_char(0);
            let tlen = t.as_str().unicode_len();
            if lz_active && c0 == '0' && (v != 0 || tlen > 1) {
                JsonValue::Str(t)
            } else {
                JsonValue::Int(v)
            }
        },
        Option::None => {
            match parse_float(t.as_str()) {
                Option::Some(n) => {
                    let tlen = t.as_str().unicode_len();
                    let leading_zero = tlen > 0 && t.as_str().get_char(0) == '0';
                    let zero_dot = tlen >= 2 && t.as_str().get_char(0) == '0' && t.as_str()
                        .get_char(1) == '.';
                    if leading_zero && !zero_dot {
                        JsonValue::Str(t)
                    } else {
                        JsonValue::Float(n)
                    }
                },
                Option::None => {
                    if str_eq(t.as_str(), "true") {
                        JsonValue::Bool(true)
                    } else if str_eq(t.as_str(), "false") {
                        JsonValue::Bool(false)
                    } else {
                        JsonValue::Str(t)
                    }
                },
            }
        },
    }
}

/// Turn a text into a typed JSON scalar: trim it, then apply the directive
/// as `classify_spec` states.
pub fn parse_text(text: &str, leading_zero_as_string: bool, json_type: &JsonType) -> (r: JsonValue)
    ensures
        r.model() == classify_spec(text@, leading_zero_as_string, *json_type),
{
    let t: String = trim_str(text);
    match json_type {
        JsonType::AlwaysString => JsonValue::Str(t),
        JsonType::Bool(tokens) => JsonValue::Bool(token_in_list(tokens, t.as_str())),
        JsonType::Infer => classify_trimmed(t, leading_zero_as_string),
        JsonType::StringIfLeadingZero => classify_trimmed(t, true),
    }
}

} // verus!
