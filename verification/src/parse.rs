//! Parsing of loosely-typed numeric field text.
//!
//! Source tables encode optional statistics as strings: a value, the
//! sentinel `--`, or blank text all appear in the same column. This module
//! gives that policy an exact meaning: trim surrounding whitespace, map
//! the sentinel or an empty remainder to an explicit absence, parse
//! anything else as a non-negative integer or fixed-point decimal, and
//! report any other text as an error.

use vstd::prelude::*;

verus! {

/// A non-negative fixed-point decimal with three fractional digits,
/// stored as a count of thousandths.
#[derive(Clone, Copy, Debug, PartialEq, Eq, Structural)]
pub struct Decimal {
    pub millis: u64,
}

/// A field whose text is neither a value of the expected numeric type
/// nor an explicit absence marker.
#[derive(Clone, Copy, Debug, PartialEq, Eq, Structural)]
pub struct FieldError {}

/// Largest value accepted for a parsed integer field, and for the
/// thousandths of a parsed decimal field.
pub const FIELD_MAX: u64 = 0xFFFF_FFFF;

/// The whitespace characters stripped from both ends of a field.
pub open spec fn is_space_char(c: char) -> bool {
    c == ' ' || c == '\t' || c == '\n' || c == '\r'
}

pub open spec fn is_digit_char(c: char) -> bool {
    48 <= c as int && c as int <= 57
}

pub open spec fn digit_val(c: char) -> int {
    c as int - 48
}

pub open spec fn all_digits(s: Seq<char>) -> bool {
    forall|i: int| 0 <= i < s.len() ==> is_digit_char(s[i])
}

/// Value of a digit string read left to right.
pub open spec fn digits_val(s: Seq<char>) -> int
    decreases s.len(),
{
    if s.len() == 0 {
        0
    } else {
        digits_val(s.drop_last()) * 10 + digit_val(s.last())
    }
}

pub open spec fn ltrim(s: Seq<char>) -> Seq<char>
    decreases s.len(),
{
    if s.len() > 0 && is_space_char(s[0]) {
        ltrim(s.skip(1))
    } else {
        s
    }
}

pub open spec fn rtrim(s: Seq<char>) -> Seq<char>
    decreases s.len(),
{
    if s.len() > 0 && is_space_char(s.last()) {
        rtrim(s.drop_last())
    } else {
        s
    }
}

/// The field text with whitespace removed from both ends.
pub open spec fn trimmed(s: Seq<char>) -> Seq<char> {
    rtrim(ltrim(s))
}

/// The literal `--` marking a value that was not recorded.
pub open spec fn is_sentinel(s: Seq<char>) -> bool {
    s.len() == 2 && s[0] == '-' && s[1] == '-'
}

/// Indices `(from, to)` into `s` such that the characters between them
/// are exactly the trimmed field text.
fn trim_bounds(s: &str) -> (r: (usize, usize))
    ensures
        r.0 <= r.1 <= s@.len(),
        s@.subrange(r.0 as int, r.1 as int) == trimmed(s@),
{
    let len = s.unicode_len();
    let mut from: usize = 0;
    proof {
        assert(s@.skip(0) =~= s@);
    }
    while from < len && is_space(s.get_char(from))
        invariant
            from <= len,
            len == s@.len(),
            ltrim(s@) == ltrim(s@.skip(from as int)),
        decreases len - from,
    {
        proof {
            assert(s@.skip(from as int).skip(1) =~= s@.skip(from + 1));
        }
        from = from + 1;
    }
    proof {
        if from < len {
            assert(ltrim(s@.skip(from as int)) == s@.skip(from as int));
        } else {
            assert(s@.skip(from as int) =~= Seq::<char>::empty());
        }
        assert(s@.skip(from as int) =~= s@.subrange(from as int, len as int));
    }
    let mut to: usize = len;
    while to > from && is_space(s.get_char(to - 1))
        invariant
            from <= to <= len,
            len == s@.len(),
            ltrim(s@) == s@.skip(from as int),
            trimmed(s@) == rtrim(s@.subrange(from as int, to as int)),
        decreases to,
    {
        proof {
            assert(s@.subrange(from as int, to as int).drop_last() =~= s@.subrange(
                from as int,
                to - 1,
            ));
        }
        to = to - 1;
    }
    proof {
        if to > from {
            assert(rtrim(s@.subrange(from as int, to as int)) == s@.subrange(
                from as int,
                to as int,
            ));
        } else {
            assert(s@.subrange(from as int, to as int) =~= Seq::<char>::empty());
        }
    }
    (from, to)
}

fn is_space(c: char) -> (r: bool)
    ensures
        r == is_space_char(c),
{
    c == ' ' || c == '\t' || c == '\n' || c == '\r'
}

pub proof fn lemma_digits_val_nonneg(s: Seq<char>)
    requires
        all_digits(s),
    ensures
        digits_val(s) >= 0,
    decreases s.len(),
{
    if s.len() > 0 {
        assert forall|i: int| 0 <= i < s.drop_last().len() implies is_digit_char(
            s.drop_last()[i],
        ) by {
            assert(s.drop_last()[i] == s[i]);
        }
        lemma_digits_val_nonneg(s.drop_last());
    }
}

/// Reading more digits never decreases the value already read.
pub proof fn lemma_digits_val_prefix_le(s: Seq<char>, k: int)
    requires
        all_digits(s),
        0 <= k <= s.len(),
    ensures
        digits_val(s.take(k)) <= digits_val(s),
    decreases s.len() - k,
{
    if k == s.len() {
        assert(s.take(k) =~= s);
    } else {
        assert(s.take(k + 1).drop_last() =~= s.take(k));
        assert forall|i: int| 0 <= i < s.take(k).len() implies is_digit_char(s.take(k)[i]) by {
            assert(s.take(k)[i] == s[i]);
        }
        lemma_digits_val_nonneg(s.take(k));
        assert(digits_val(s.take(k + 1)) == digits_val(s.take(k)) * 10 + digit_val(s[k]));
        lemma_digits_val_prefix_le(s, k + 1);
    }
}

/// Parses the characters of `s` between `from` and `to` as a run of
/// decimal digits whose value fits the field range.
fn parse_digits(s: &str, from: usize, to: usize) -> (r: Result<u64, FieldError>)
    requires
        from <= to <= s@.len(),
    ensures
        ({
            let t = s@.subrange(from as int, to as int);
            match r {
                Ok(v) => all_digits(t) && v == digits_val(t) && v <= FIELD_MAX,
                Err(_) => !(all_digits(t) && digits_val(t) <= FIELD_MAX),
            }
        }),
{
    let ghost t = s@.subrange(from as int, to as int);
    let mut acc: u64 = 0;
    let mut i = from;
    proof {
        assert(t.take(0) =~= Seq::<char>::empty());
    }
    while i < to
        invariant
            from <= i <= to <= s@.len(),
            t == s@.subrange(from as int, to as int),
            all_digits(t.take(i - from)),
            acc == digits_val(t.take(i - from)),
            acc <= FIELD_MAX,
        decreases to - i,
    {
        let c = s.get_char(i);
        proof {
            assert(t[i - from] == s@[i as int]);
        }
        let cv = c as u32;
        if cv < 48 || cv > 57 {
            return Err(FieldError {});
        }
        let d = (cv - 48) as u64;
        let new_acc = acc * 10 + d;
        proof {
            assert(t.take(i - from + 1).drop_last() =~= t.take(i - from));
            assert(t.take(i - from + 1).last() == t[i - from]);
            assert forall|j: int| 0 <= j < i - from + 1 implies #[trigger] is_digit_char(
                t.take(i - from + 1)[j],
            ) by {
                assert(t.take(i - from + 1)[j] == t[j]);
                if j < i - from {
                    assert(is_digit_char(t.take(i - from)[j]));
                    assert(t.take(i - from)[j] == t[j]);
                }
            }
        }
        if new_acc > FIELD_MAX {
            proof {
                if all_digits(t) {
                    lemma_digits_val_prefix_le(t, i - from + 1);
                }
            }
            return Err(FieldError {});
        }
        acc = new_acc;
        i = i + 1;
    }
    proof {
        assert(t.take(to - from) =~= t);
    }
    Ok(acc)
}

/// Index of the first `.` in `s`, or `s.len()` if there is none.
pub open spec fn find_dot(s: Seq<char>) -> int
    decreases s.len(),
{
    if s.len() == 0 {
        0
    } else if s[0] == '.' {
        0
    } else {
        1 + find_dot(s.skip(1))
    }
}

/// Weight of the last fractional digit when `n` digits follow the dot.
pub open spec fn frac_scale(n: int) -> int {
    if n == 1 {
        100
    } else if n == 2 {
        10
    } else {
        1
    }
}

/// Well-formed decimal field text: a digit run, or a digit run, a dot
/// and one to three fractional digits.
pub open spec fn is_dec_str(t: Seq<char>) -> bool {
    let d = find_dot(t);
    if d == t.len() {
        t.len() > 0 && all_digits(t)
    } else {
        all_digits(t.take(d)) && all_digits(t.skip(d + 1)) && 1 <= t.len() - d - 1 <= 3
    }
}

/// Value of well-formed decimal text, in thousandths.
pub open spec fn dec_millis(t: Seq<char>) -> int {
    let d = find_dot(t);
    if d == t.len() {
        digits_val(t) * 1000
    } else {
        digits_val(t.take(d)) * 1000 + digits_val(t.skip(d + 1)) * frac_scale(t.len() - d - 1)
    }
}

fn find_dot_exec(s: &str, from: usize, to: usize) -> (r: usize)
    requires
        from <= to <= s@.len(),
    ensures
        from <= r <= to,
        r - from == find_dot(s@.subrange(from as int, to as int)),
{
    let ghost t = s@.subrange(from as int, to as int);
    let mut i = from;
    proof {
        assert(t.skip(0) =~= t);
    }
    while i < to
        invariant
            from <= i <= to <= s@.len(),
            t == s@.subrange(from as int, to as int),
            find_dot(t) == (i - from) + find_dot(t.skip(i - from)),
            forall|j: int| 0 <= j < i - from ==> t[j] != '.',
        decreases to - i,
    {
        let c = s.get_char(i);
        proof {
            assert(t.skip(i - from)[0] == t[i - from]);
            assert(t[i - from] == s@[i as int]);
        }
        if c == '.' {
            proof {
                assert(find_dot(t.skip(i - from)) == 0);
            }
            return i;
        }
        proof {
            assert(t.skip(i - from).skip(1) =~= t.skip(i - from + 1));
        }
        i = i + 1;
    }
    proof {
        assert(t.skip(to - from) =~= Seq::<char>::empty());
    }
    to
}

/// Parses the trimmed field text between `from` and `to` as a
/// fixed-point decimal, in thousandths.
fn parse_decimal_core(s: &str, from: usize, to: usize) -> (r: Result<u64, FieldError>)
    requires
        from <= to <= s@.len(),
    ensures
        ({
            let t = s@.subrange(from as int, to as int);
            match r {
                Ok(v) => is_dec_str(t) && v == dec_millis(t) && v <= FIELD_MAX,
                Err(_) => !(is_dec_str(t) && dec_millis(t) <= FIELD_MAX),
            }
        }),
{
    let ghost t = s@.subrange(from as int, to as int);
    let d = find_dot_exec(s, from, to);
    if d == to {
        if from == to {
            return Err(FieldError {});
        }
        match parse_digits(s, from, to) {
            Ok(v) => {
                if v <= 4294967 {
                    Ok(v * 1000)
                } else {
                    proof {
                        if is_dec_str(t) {
                            // the digit run alone already exceeds the field range
                            assert(digits_val(t) * 1000 > FIELD_MAX);
                        }
                    }
                    Err(FieldError {})
                }
            },
            Err(e) => Err(e),
        }
    } else {
        let flen = to - d - 1;
        if flen < 1 || flen > 3 {
            return Err(FieldError {});
        }
        proof {
            assert(t.take(d - from) =~= s@.subrange(from as int, d as int));
            assert(t.skip(d - from + 1) =~= s@.subrange(d + 1, to as int));
        }
        let ip = match parse_digits(s, from, d) {
            Ok(v) => v,
            Err(e) => {
                proof {
                    if is_dec_str(t) {
                        lemma_digits_val_nonneg(t.skip(d - from + 1));
                    }
                }
                return Err(FieldError {});
            },
        };
        let fp = match parse_digits(s, d + 1, to) {
            Ok(v) => v,
            Err(e) => {
                proof {
                    if is_dec_str(t) {
                        lemma_digits_val_nonneg(t.take(d - from));
                    }
                }
                return Err(FieldError {});
            },
        };
        let scale: u64 = if flen == 1 {
            100
        } else if flen == 2 {
            10
        } else {
            1
        };
        let millis = ip * 1000 + fp * scale;
        if millis > FIELD_MAX {
            Err(FieldError {})
        } else {
            Ok(millis)
        }
    }
}

/// Meaning of an optional integer field: sentinel or blank is an
/// explicit absence, a digit run in range is a value, all else an error.
pub open spec fn spec_parse_opt_u32(s: Seq<char>) -> Result<Option<u32>, FieldError> {
    let t = trimmed(s);
    if t.len() == 0 || is_sentinel(t) {
        Ok(None)
    } else if all_digits(t) && digits_val(t) <= FIELD_MAX {
        Ok(Some(digits_val(t) as u32))
    } else {
        Err(FieldError {})
    }
}

/// Meaning of an optional decimal field, absence encoded as for
/// integers.
pub open spec fn spec_parse_opt_dec(s: Seq<char>) -> Result<Option<Decimal>, FieldError> {
    let t = trimmed(s);
    if t.len() == 0 || is_sentinel(t) {
        Ok(None)
    } else if is_dec_str(t) && dec_millis(t) <= FIELD_MAX {
        Ok(Some(Decimal { millis: dec_millis(t) as u64 }))
    } else {
        Err(FieldError {})
    }
}

/// Meaning of a required decimal field: there is no absence state, so
/// blank text and the sentinel are malformed like any other non-number.
pub open spec fn spec_parse_req_dec(s: Seq<char>) -> Result<Decimal, FieldError> {
    let t = trimmed(s);
    if is_dec_str(t) && dec_millis(t) <= FIELD_MAX {
        Ok(Decimal { millis: dec_millis(t) as u64 })
    } else {
        Err(FieldError {})
    }
}

/// True when the trimmed text between `from` and `to` is the sentinel.
fn is_sentinel_between(s: &str, from: usize, to: usize) -> (r: bool)
    requires
        from <= to <= s@.len(),
    ensures
        r == is_sentinel(s@.subrange(from as int, to as int)),
{
    let ghost t = s@.subrange(from as int, to as int);
    if to - from != 2 {
        return false;
    }
    proof {
        assert(t[0] == s@[from as int]);
        assert(t[1] == s@[from + 1]);
    }
    s.get_char(from) == '-' && s.get_char(from + 1) == '-'
}

/// Reads an optional integer field: `--` or blank text is an explicit
/// absence, a decimal digit run is a value, anything else is an error.
pub fn parse_optional_number(value: &str) -> (r: Result<Option<u32>, FieldError>)
    ensures
        r == spec_parse_opt_u32(value@),
{
    let (from, to) = trim_bounds(value);
    if from == to {
        return Ok(None);
    }
    if is_sentinel_between(value, from, to) {
        return Ok(None);
    }
    match parse_digits(value, from, to) {
        Ok(v) => Ok(Some(v as u32)),
        Err(e) => Err(e),
    }
}

/// Reads an optional decimal field under the same absence policy as
/// [`parse_optional_number`].
pub fn parse_optional_decimal(value: &str) -> (r: Result<Option<Decimal>, FieldError>)
    ensures
        r == spec_parse_opt_dec(value@),
        match r {
            Ok(Some(d)) => d.millis <= FIELD_MAX,
            _ => true,
        },
{
    let (from, to) = trim_bounds(value);
    if from == to {
        return Ok(None);
    }
    if is_sentinel_between(value, from, to) {
        return Ok(None);
    }
    match parse_decimal_core(value, from, to) {
        Ok(v) => Ok(Some(Decimal { millis: v })),
        Err(e) => Err(e),
    }
}

/// Reads an always-present decimal field; any text that is not a
/// well-formed decimal in range fails.
pub fn parse_required_decimal(value: &str) -> (r: Result<Decimal, FieldError>)
    ensures
        r == spec_parse_req_dec(value@),
        match r {
            Ok(d) => d.millis <= FIELD_MAX,
            _ => true,
        },
{
    let (from, to) = trim_bounds(value);
    match parse_decimal_core(value, from, to) {
        Ok(v) => Ok(Decimal { millis: v }),
        Err(e) => Err(e),
    }
}

} // verus!
