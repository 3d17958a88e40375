//! Rendering of normalized values back to field text.
//!
//! This is the inverse direction of the normalizer: every number is
//! written the way the parser reads it, and an absent value is written
//! as the sentinel. Rendering a whole record therefore yields a raw row
//! that normalizes back to the very same record — normalization is
//! idempotent across a round trip through text.

use vstd::prelude::*;

use crate::parse::{
    all_digits, dec_millis, digit_val, digits_val, find_dot, is_dec_str, is_digit_char,
    is_sentinel, is_space_char, ltrim, rtrim, spec_parse_opt_dec, spec_parse_opt_u32,
    spec_parse_req_dec, trimmed, Decimal, FieldError, FIELD_MAX,
};
use crate::record::{
    clone_optional_string, spec_normalize, NormalizationError, RawSeasonRow, SeasonRecord,
    SeasonView,
};

verus! {

/// The character of one decimal digit.
pub open spec fn digit_char(d: int) -> char {
    if d == 0 {
        '0'
    } else if d == 1 {
        '1'
    } else if d == 2 {
        '2'
    } else if d == 3 {
        '3'
    } else if d == 4 {
        '4'
    } else if d == 5 {
        '5'
    } else if d == 6 {
        '6'
    } else if d == 7 {
        '7'
    } else if d == 8 {
        '8'
    } else {
        '9'
    }
}

/// The shortest digit run denoting `n`.
pub open spec fn spec_fmt_nat(n: int) -> Seq<char>
    recommends
        n >= 0,
    decreases n,
{
    if n <= 9 {
        seq![digit_char(n)]
    } else {
        spec_fmt_nat(n / 10).push(digit_char(n % 10))
    }
}

/// A rendered number is a non-empty digit run and reads back as itself.
pub proof fn lemma_fmt_nat_reads_back(n: int)
    requires
        0 <= n,
    ensures
        spec_fmt_nat(n).len() >= 1,
        all_digits(spec_fmt_nat(n)),
        digits_val(spec_fmt_nat(n)) == n,
    decreases n,
{
    if n <= 9 {
        let s = spec_fmt_nat(n);
        assert(s.len() == 1);
        assert(s[0] == digit_char(n));
        assert(s.drop_last() =~= Seq::<char>::empty());
        assert(digits_val(Seq::<char>::empty()) == 0);
        assert(s.last() == digit_char(n));
        assert(digits_val(s) == digit_val(digit_char(n)));
    } else {
        lemma_fmt_nat_reads_back(n / 10);
        let p = spec_fmt_nat(n / 10);
        let s = spec_fmt_nat(n);
        assert(s == p.push(digit_char(n % 10)));
        assert(s.drop_last() =~= p);
        assert(s.last() == digit_char(n % 10));
        assert(digits_val(s) == digits_val(p) * 10 + digit_val(digit_char(n % 10)));
        assert(digit_val(digit_char(n % 10)) == n % 10);
        assert((n / 10) * 10 + n % 10 == n);
        assert forall|i: int| 0 <= i < s.len() implies is_digit_char(s[i]) by {
            if i < p.len() {
                assert(s[i] == p[i]);
            }
        }
    }
}

/// The single-character text of one digit.
fn digit_str(d: u32) -> (s: String)
    requires
        d <= 9,
    ensures
        s@ == seq![digit_char(d as int)],
{
    let s: &str = if d == 0 {
        "0"
    } else if d == 1 {
        "1"
    } else if d == 2 {
        "2"
    } else if d == 3 {
        "3"
    } else if d == 4 {
        "4"
    } else if d == 5 {
        "5"
    } else if d == 6 {
        "6"
    } else if d == 7 {
        "7"
    } else if d == 8 {
        "8"
    } else {
        "9"
    };
    proof {
        reveal_strlit("0");
        reveal_strlit("1");
        reveal_strlit("2");
        reveal_strlit("3");
        reveal_strlit("4");
        reveal_strlit("5");
        reveal_strlit("6");
        reveal_strlit("7");
        reveal_strlit("8");
        reveal_strlit("9");
        assert(s@ =~= seq![digit_char(d as int)]);
    }
    s.to_owned()
}

/// Writes `n` as decimal text, the way the parser reads it.
pub fn format_u32(n: u32) -> (s: String)
    ensures
        s@ == spec_fmt_nat(n as int),
    decreases n,
{
    if n <= 9 {
        digit_str(n)
    } else {
        let rest = format_u32(n / 10);
        let d = digit_str(n % 10);
        let s = rest.concat(d.as_str());
        proof {
            assert(s@ =~= spec_fmt_nat((n / 10) as int).push(digit_char((n % 10) as int)));
        }
        s
    }
}

/// A digit character is no whitespace, dot or dash.
pub proof fn lemma_digit_is_plain(c: char)
    requires
        is_digit_char(c),
    ensures
        !is_space_char(c),
        c != '.',
        c != '-',
{
}

/// Text that neither starts nor ends with whitespace trims to itself.
pub proof fn lemma_trim_id(s: Seq<char>)
    requires
        s.len() > 0,
        !is_space_char(s[0]),
        !is_space_char(s.last()),
    ensures
        trimmed(s) == s,
{
    assert(ltrim(s) == s);
    assert(rtrim(s) == s);
}

/// The three zero-padded digits of a value below one thousand.
pub open spec fn spec_frac3(f: int) -> Seq<char> {
    seq![digit_char(f / 100), digit_char((f / 10) % 10), digit_char(f % 10)]
}

pub proof fn lemma_frac3_reads_back(f: int)
    requires
        0 <= f < 1000,
    ensures
        spec_frac3(f).len() == 3,
        all_digits(spec_frac3(f)),
        digits_val(spec_frac3(f)) == f,
{
    let s = spec_frac3(f);
    let d2 = f / 100;
    let d1 = (f / 10) % 10;
    let d0 = f % 10;
    assert(0 <= d2 <= 9 && 0 <= d1 <= 9 && 0 <= d0 <= 9);
    let s2 = seq![digit_char(d2), digit_char(d1)];
    let s1 = seq![digit_char(d2)];
    assert(s1.drop_last() =~= Seq::<char>::empty());
    assert(digits_val(Seq::<char>::empty()) == 0);
    assert(s1.last() == digit_char(d2));
    assert(digits_val(s1) == digit_val(digit_char(d2)));
    assert(s2.drop_last() =~= s1);
    assert(s2.last() == digit_char(d1));
    assert(digits_val(s2) == digit_val(digit_char(d2)) * 10 + digit_val(digit_char(d1)));
    assert(s.drop_last() =~= s2);
    assert(s.last() == digit_char(d0));
    assert(digits_val(s) == (digit_val(digit_char(d2)) * 10 + digit_val(digit_char(d1))) * 10
        + digit_val(digit_char(d0)));
    assert(f / 10 == d2 * 10 + d1) by {
        assert(f / 100 == (f / 10) / 10);
        assert(f / 10 == ((f / 10) / 10) * 10 + (f / 10) % 10);
    }
    assert(f == (f / 10) * 10 + d0);
}

/// Rendered decimal text: the integer part, a dot, and exactly three
/// fractional digits.
pub open spec fn spec_fmt_dec(m: int) -> Seq<char>
    recommends
        m >= 0,
{
    spec_fmt_nat(m / 1000) + seq!['.'] + spec_frac3(m % 1000)
}

/// The first dot of `digits ++ dot ++ rest` is the one written.
pub proof fn lemma_find_dot_concat(s1: Seq<char>, s2: Seq<char>)
    requires
        all_digits(s1),
    ensures
        find_dot(s1 + seq!['.'] + s2) == s1.len(),
    decreases s1.len(),
{
    let s = s1 + seq!['.'] + s2;
    if s1.len() == 0 {
        assert(s[0] == '.');
    } else {
        assert(s[0] == s1[0]);
        lemma_digit_is_plain(s1[0]);
        assert(s.len() > 0 && s[0] != '.');
        assert forall|i: int| 0 <= i < s1.skip(1).len() implies is_digit_char(s1.skip(1)[i]) by {
            assert(s1.skip(1)[i] == s1[i + 1]);
        }
        lemma_find_dot_concat(s1.skip(1), s2);
        assert(s.skip(1) =~= s1.skip(1) + seq!['.'] + s2);
    }
}

/// Rendered decimal text is well-formed and reads back as the same
/// count of thousandths.
pub proof fn lemma_fmt_dec_reads_back(m: int)
    requires
        0 <= m,
    ensures
        is_dec_str(spec_fmt_dec(m)),
        dec_millis(spec_fmt_dec(m)) == m,
        spec_fmt_dec(m).len() > 0,
        is_digit_char(spec_fmt_dec(m)[0]),
        is_digit_char(spec_fmt_dec(m).last()),
        !is_sentinel(spec_fmt_dec(m)),
{
    let ip = spec_fmt_nat(m / 1000);
    let fp = spec_frac3(m % 1000);
    let s = spec_fmt_dec(m);
    lemma_fmt_nat_reads_back(m / 1000);
    lemma_frac3_reads_back(m % 1000);
    lemma_find_dot_concat(ip, fp);
    assert(find_dot(s) == ip.len());
    assert(s.take(ip.len() as int) =~= ip);
    assert(s.skip(ip.len() as int + 1) =~= fp);
    assert(s.len() - ip.len() - 1 == 3);
    assert(dec_millis(s) == digits_val(ip) * 1000 + digits_val(fp));
    assert((m / 1000) * 1000 + m % 1000 == m);
    assert(s[0] == ip[0]);
    assert(s.last() == fp[2]);
    lemma_digit_is_plain(s[0]);
}

/// Writes a fixed-point decimal as its field text.
pub fn format_decimal(d: Decimal) -> (s: String)
    ensures
        s@ == spec_fmt_dec(d.millis as int),
{
    let ip = d.millis / 1000;
    let f = d.millis % 1000;
    let ip_text = format_u64(ip);
    let s1 = ip_text.concat(".");
    let s2 = s1.concat(digit_str((f / 100) as u32).as_str());
    let s3 = s2.concat(digit_str(((f / 10) % 10) as u32).as_str());
    let s4 = s3.concat(digit_str((f % 10) as u32).as_str());
    proof {
        reveal_strlit(".");
        assert("."@ =~= seq!['.']);
        assert(s4@ =~= spec_fmt_dec(d.millis as int));
    }
    s4
}

/// The sentinel written for an absent value.
fn sentinel_text() -> (s: String)
    ensures
        trimmed(s@) == s@,
        is_sentinel(s@),
{
    let s = "--";
    proof {
        reveal_strlit("--");
        assert(s@.len() == 2 && s@[0] == '-' && s@[1] == '-');
        assert(!is_space_char('-'));
        assert(s@.last() == '-');
        lemma_trim_id(s@);
    }
    s.to_owned()
}

/// Writes an optional integer the way the parser reads it: the number,
/// or the sentinel for an absence.
pub fn opt_u32_text(v: &Option<u32>) -> (s: String)
    ensures
        spec_parse_opt_u32(s@) == Ok::<Option<u32>, FieldError>(*v),
{
    match v {
        Some(n) => {
            let s = format_u32(*n);
            proof {
                lemma_fmt_nat_reads_back(*n as int);
                lemma_digit_is_plain(s@[0]);
                lemma_digit_is_plain(s@.last());
                lemma_trim_id(s@);
                assert(!is_sentinel(s@));
                assert(digits_val(s@) <= FIELD_MAX);
            }
            s
        },
        None => sentinel_text(),
    }
}

/// Writes an optional decimal the way the parser reads it.
pub fn opt_dec_text(v: &Option<Decimal>) -> (s: String)
    requires
        match v {
            Some(d) => d.millis <= FIELD_MAX,
            None => true,
        },
    ensures
        spec_parse_opt_dec(s@) == Ok::<Option<Decimal>, FieldError>(*v),
{
    match v {
        Some(d) => dec_text(*d),
        None => sentinel_text(),
    }
}

/// Writes an always-present decimal the way the parser reads it.
pub fn dec_text(d: Decimal) -> (s: String)
    requires
        d.millis <= FIELD_MAX,
    ensures
        spec_parse_req_dec(s@) == Ok::<Decimal, FieldError>(d),
        spec_parse_opt_dec(s@) == Ok::<Option<Decimal>, FieldError>(Some(d)),
{
    let s = format_decimal(d);
    proof {
        lemma_fmt_dec_reads_back(d.millis as int);
        lemma_digit_is_plain(s@[0]);
        lemma_digit_is_plain(s@.last());
        lemma_trim_id(s@);
    }
    s
}

/// Writes `n` as decimal text, the way the parser reads it.
pub fn format_u64(n: u64) -> (s: String)
    ensures
        s@ == spec_fmt_nat(n as int),
    decreases n,
{
    if n <= 9 {
        digit_str(n as u32)
    } else {
        let rest = format_u64(n / 10);
        let d = digit_str((n % 10) as u32);
        let s = rest.concat(d.as_str());
        proof {
            assert(s@ =~= spec_fmt_nat((n / 10) as int).push(digit_char((n % 10) as int)));
        }
        s
    }
}

/// Writes a season record back as a raw row. Normalizing that row
/// yields the very same record: normalization is idempotent across a
/// round trip through field text.
pub fn raw_of(rec: &SeasonRecord) -> (raw: RawSeasonRow)
    requires
        rec@.valid(),
    ensures
        spec_normalize(raw@) == Ok::<SeasonView, NormalizationError>(rec@),
{
    let raw = RawSeasonRow {
        season: rec.season,
        first_name: clone_optional_string(&rec.first_name),
        last_name: rec.last_name.clone(),
        link: rec.player_link.clone(),
        position: rec.position.clone(),
        team: rec.team.clone(),
        games_played: rec.games_played,
        at_bats: rec.at_bats,
        runs: rec.runs,
        hits: rec.hits,
        doubles: rec.doubles,
        triples: rec.triples,
        homeruns: rec.homeruns,
        rbi: opt_u32_text(&rec.rbi),
        walks: rec.walks,
        strikeouts: opt_dec_text(&rec.strikeouts),
        stolen_bases: opt_u32_text(&rec.stolen_bases),
        caught_stealing: opt_u32_text(&rec.caught_stealing),
        batting_average: dec_text(rec.batting_average),
        on_base_percentage: opt_dec_text(&rec.on_base_percentage),
        slugging_percentage: dec_text(rec.slugging_percentage),
        on_base_plus_slugging: opt_dec_text(&rec.on_base_plus_slugging),
    };
    proof {
        let n = spec_normalize(raw@);
        assert(n is Ok);
        assert(n->Ok_0 == rec@);
    }
    raw
}

} // verus!
