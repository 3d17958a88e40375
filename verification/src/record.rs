//! Data model: raw ingested rows, normalized season records, and the
//! normalizer that turns one into the other.
//!
//! A raw row carries required fields in their native numeric type and
//! every optional or decimal statistic as uninterpreted text. The
//! normalizer resolves that text once, at this boundary: downstream code
//! never sees a string-encoded number again.

use vstd::prelude::*;

use crate::parse::{
    parse_optional_decimal, parse_optional_number, parse_required_decimal, spec_parse_opt_dec,
    spec_parse_opt_u32, spec_parse_req_dec, Decimal, FIELD_MAX,
};

verus! {

/// One season row as handed over by the external table reader: no
/// invariants, numeric text not yet interpreted.
pub struct RawSeasonRow {
    pub season: u32,
    pub first_name: Option<String>,
    pub last_name: String,
    pub link: String,
    pub position: String,
    pub team: String,
    pub games_played: u32,
    pub at_bats: u32,
    pub runs: u32,
    pub hits: u32,
    pub doubles: u32,
    pub triples: u32,
    pub homeruns: u32,
    pub rbi: String,
    pub walks: u32,
    pub strikeouts: String,
    pub stolen_bases: String,
    pub caught_stealing: String,
    pub batting_average: String,
    pub on_base_percentage: String,
    pub slugging_percentage: String,
    pub on_base_plus_slugging: String,
}

/// Mathematical image of a raw row: text as character sequences.
pub ghost struct RawView {
    pub season: u32,
    pub first_name: Option<Seq<char>>,
    pub last_name: Seq<char>,
    pub link: Seq<char>,
    pub position: Seq<char>,
    pub team: Seq<char>,
    pub games_played: u32,
    pub at_bats: u32,
    pub runs: u32,
    pub hits: u32,
    pub doubles: u32,
    pub triples: u32,
    pub homeruns: u32,
    pub rbi: Seq<char>,
    pub walks: u32,
    pub strikeouts: Seq<char>,
    pub stolen_bases: Seq<char>,
    pub caught_stealing: Seq<char>,
    pub batting_average: Seq<char>,
    pub on_base_percentage: Seq<char>,
    pub slugging_percentage: Seq<char>,
    pub on_base_plus_slugging: Seq<char>,
}

impl View for RawSeasonRow {
    type V = RawView;

    open spec fn view(&self) -> RawView {
        RawView {
            season: self.season,
            first_name: match self.first_name {
                Some(n) => Some(n@),
                None => None,
            },
            last_name: self.last_name@,
            link: self.link@,
            position: self.position@,
            team: self.team@,
            games_played: self.games_played,
            at_bats: self.at_bats,
            runs: self.runs,
            hits: self.hits,
            doubles: self.doubles,
            triples: self.triples,
            homeruns: self.homeruns,
            rbi: self.rbi@,
            walks: self.walks,
            strikeouts: self.strikeouts@,
            stolen_bases: self.stolen_bases@,
            caught_stealing: self.caught_stealing@,
            batting_average: self.batting_average@,
            on_base_percentage: self.on_base_percentage@,
            slugging_percentage: self.slugging_percentage@,
            on_base_plus_slugging: self.on_base_plus_slugging@,
        }
    }
}

/// One normalized season: every statistic either a number or an
/// explicit absence, never text. Immutable once created.
#[derive(Debug, PartialEq)]
pub struct SeasonRecord {
    pub player_link: String,
    pub season: u32,
    pub first_name: Option<String>,
    pub last_name: String,
    pub position: String,
    pub team: String,
    pub games_played: u32,
    pub at_bats: u32,
    pub runs: u32,
    pub hits: u32,
    pub doubles: u32,
    pub triples: u32,
    pub homeruns: u32,
    pub walks: u32,
    pub rbi: Option<u32>,
    pub strikeouts: Option<Decimal>,
    pub stolen_bases: Option<u32>,
    pub caught_stealing: Option<u32>,
    pub batting_average: Decimal,
    pub on_base_percentage: Option<Decimal>,
    pub slugging_percentage: Decimal,
    pub on_base_plus_slugging: Option<Decimal>,
}

/// Mathematical image of a normalized season record.
pub ghost struct SeasonView {
    pub player_link: Seq<char>,
    pub season: u32,
    pub first_name: Option<Seq<char>>,
    pub last_name: Seq<char>,
    pub position: Seq<char>,
    pub team: Seq<char>,
    pub games_played: u32,
    pub at_bats: u32,
    pub runs: u32,
    pub hits: u32,
    pub doubles: u32,
    pub triples: u32,
    pub homeruns: u32,
    pub walks: u32,
    pub rbi: Option<u32>,
    pub strikeouts: Option<Decimal>,
    pub stolen_bases: Option<u32>,
    pub caught_stealing: Option<u32>,
    pub batting_average: Decimal,
    pub on_base_percentage: Option<Decimal>,
    pub slugging_percentage: Decimal,
    pub on_base_plus_slugging: Option<Decimal>,
}

impl View for SeasonRecord {
    type V = SeasonView;

    open spec fn view(&self) -> SeasonView {
        SeasonView {
            player_link: self.player_link@,
            season: self.season,
            first_name: match self.first_name {
                Some(n) => Some(n@),
                None => None,
            },
            last_name: self.last_name@,
            position: self.position@,
            team: self.team@,
            games_played: self.games_played,
            at_bats: self.at_bats,
            runs: self.runs,
            hits: self.hits,
            doubles: self.doubles,
            triples: self.triples,
            homeruns: self.homeruns,
            walks: self.walks,
            rbi: self.rbi,
            strikeouts: self.strikeouts,
            stolen_bases: self.stolen_bases,
            caught_stealing: self.caught_stealing,
            batting_average: self.batting_average,
            on_base_percentage: self.on_base_percentage,
            slugging_percentage: self.slugging_percentage,
            on_base_plus_slugging: self.on_base_plus_slugging,
        }
    }
}

impl SeasonView {
    /// Every decimal statistic lies in the field range the normalizer
    /// admits.
    pub open spec fn valid(self) -> bool {
        &&& self.batting_average.millis <= FIELD_MAX
        &&& self.slugging_percentage.millis <= FIELD_MAX
        &&& match self.strikeouts {
            Some(d) => d.millis <= FIELD_MAX,
            None => true,
        }
        &&& match self.on_base_percentage {
            Some(d) => d.millis <= FIELD_MAX,
            None => true,
        }
        &&& match self.on_base_plus_slugging {
            Some(d) => d.millis <= FIELD_MAX,
            None => true,
        }
    }
}

/// The field whose text failed to normalize, in the order the fields
/// are checked.
#[derive(Clone, Copy, Debug, PartialEq, Eq, Structural)]
pub enum NormalizationError {
    Rbi,
    Strikeouts,
    StolenBases,
    CaughtStealing,
    BattingAverage,
    OnBasePercentage,
    SluggingPercentage,
    OnBasePlusSlugging,
}

/// The first field, in checking order, whose text neither parses nor
/// marks an absence.
pub open spec fn first_bad_field(r: RawView) -> NormalizationError {
    if spec_parse_opt_u32(r.rbi) is Err {
        NormalizationError::Rbi
    } else if spec_parse_opt_dec(r.strikeouts) is Err {
        NormalizationError::Strikeouts
    } else if spec_parse_opt_u32(r.stolen_bases) is Err {
        NormalizationError::StolenBases
    } else if spec_parse_opt_u32(r.caught_stealing) is Err {
        NormalizationError::CaughtStealing
    } else if spec_parse_req_dec(r.batting_average) is Err {
        NormalizationError::BattingAverage
    } else if spec_parse_opt_dec(r.on_base_percentage) is Err {
        NormalizationError::OnBasePercentage
    } else if spec_parse_req_dec(r.slugging_percentage) is Err {
        NormalizationError::SluggingPercentage
    } else {
        NormalizationError::OnBasePlusSlugging
    }
}

/// What normalization returns on each raw row: the typed record when
/// every dirty field parses or marks an absence, otherwise the first
/// offending field.
pub open spec fn spec_normalize(r: RawView) -> Result<SeasonView, NormalizationError> {
    match (spec_parse_opt_u32(r.rbi), spec_parse_opt_dec(r.strikeouts)) {
        (Ok(rbi), Ok(strikeouts)) => match (
            spec_parse_opt_u32(r.stolen_bases),
            spec_parse_opt_u32(r.caught_stealing),
        ) {
            (Ok(stolen_bases), Ok(caught_stealing)) => match (
                spec_parse_req_dec(r.batting_average),
                spec_parse_opt_dec(r.on_base_percentage),
            ) {
                (Ok(batting_average), Ok(on_base_percentage)) => match (
                    spec_parse_req_dec(r.slugging_percentage),
                    spec_parse_opt_dec(r.on_base_plus_slugging),
                ) {
                    (Ok(slugging_percentage), Ok(on_base_plus_slugging)) => Ok(
                        SeasonView {
                            player_link: r.link,
                            season: r.season,
                            first_name: r.first_name,
                            last_name: r.last_name,
                            position: r.position,
                            team: r.team,
                            games_played: r.games_played,
                            at_bats: r.at_bats,
                            runs: r.runs,
                            hits: r.hits,
                            doubles: r.doubles,
                            triples: r.triples,
                            homeruns: r.homeruns,
                            walks: r.walks,
                            rbi,
                            strikeouts,
                            stolen_bases,
                            caught_stealing,
                            batting_average,
                            on_base_percentage,
                            slugging_percentage,
                            on_base_plus_slugging,
                        },
                    ),
                    _ => Err(first_bad_field(r)),
                },
                _ => Err(first_bad_field(r)),
            },
            _ => Err(first_bad_field(r)),
        },
        _ => Err(first_bad_field(r)),
    }
}

/// Converts one raw row into a typed season record, or names the first
/// field whose text is junk. Pure: the only effect is the returned
/// value.
pub fn normalize(raw: &RawSeasonRow) -> (r: Result<SeasonRecord, NormalizationError>)
    ensures
        match (r, spec_normalize(raw@)) {
            (Ok(rec), Ok(v)) => rec@ == v && v.valid(),
            (Err(e1), Err(e2)) => e1 == e2,
            _ => false,
        },
{
    let rbi = match parse_optional_number(raw.rbi.as_str()) {
        Ok(v) => v,
        Err(_) => {
            return Err(NormalizationError::Rbi);
        },
    };
    let strikeouts = match parse_optional_decimal(raw.strikeouts.as_str()) {
        Ok(v) => v,
        Err(_) => {
            return Err(NormalizationError::Strikeouts);
        },
    };
    let stolen_bases = match parse_optional_number(raw.stolen_bases.as_str()) {
        Ok(v) => v,
        Err(_) => {
            return Err(NormalizationError::StolenBases);
        },
    };
    let caught_stealing = match parse_optional_number(raw.caught_stealing.as_str()) {
        Ok(v) => v,
        Err(_) => {
            return Err(NormalizationError::CaughtStealing);
        },
    };
    let batting_average = match parse_required_decimal(raw.batting_average.as_str()) {
        Ok(v) => v,
        Err(_) => {
            return Err(NormalizationError::BattingAverage);
        },
    };
    let on_base_percentage = match parse_optional_decimal(raw.on_base_percentage.as_str()) {
        Ok(v) => v,
        Err(_) => {
            return Err(NormalizationError::OnBasePercentage);
        },
    };
    let slugging_percentage = match parse_required_decimal(raw.slugging_percentage.as_str()) {
        Ok(v) => v,
        Err(_) => {
            return Err(NormalizationError::SluggingPercentage);
        },
    };
    let on_base_plus_slugging = match parse_optional_decimal(raw.on_base_plus_slugging.as_str()) {
        Ok(v) => v,
        Err(_) => {
            return Err(NormalizationError::OnBasePlusSlugging);
        },
    };
    Ok(
        SeasonRecord {
            player_link: raw.link.clone(),
            season: raw.season,
            first_name: clone_optional_string(&raw.first_name),
            last_name: raw.last_name.clone(),
            position: raw.position.clone(),
            team: raw.team.clone(),
            games_played: raw.games_played,
            at_bats: raw.at_bats,
            runs: raw.runs,
            hits: raw.hits,
            doubles: raw.doubles,
            triples: raw.triples,
            homeruns: raw.homeruns,
            walks: raw.walks,
            rbi,
            strikeouts,
            stolen_bases,
            caught_stealing,
            batting_average,
            on_base_percentage,
            slugging_percentage,
            on_base_plus_slugging,
        },
    )
}

/// How many malformed rows are reported individually; beyond this only
/// the error counter grows.
pub const DIAG_LIMIT: usize = 5;

pub open spec fn raw_views(rows: Seq<RawSeasonRow>) -> Seq<RawView> {
    rows.map_values(|r: RawSeasonRow| r@)
}

pub open spec fn season_views(recs: Seq<SeasonRecord>) -> Seq<SeasonView> {
    recs.map_values(|r: SeasonRecord| r@)
}

/// The season store a row batch yields: rows that normalize, in input
/// order; malformed rows are dropped.
pub open spec fn spec_store(rs: Seq<RawView>) -> Seq<SeasonView>
    decreases rs.len(),
{
    if rs.len() == 0 {
        Seq::empty()
    } else {
        let prev = spec_store(rs.drop_last());
        match spec_normalize(rs.last()) {
            Ok(v) => prev.push(v),
            Err(_) => prev,
        }
    }
}

/// The malformed rows of a batch: each row position with the field
/// that failed there, in input order.
pub open spec fn spec_row_errors(rs: Seq<RawView>) -> Seq<(int, NormalizationError)>
    decreases rs.len(),
{
    if rs.len() == 0 {
        Seq::empty()
    } else {
        let prev = spec_row_errors(rs.drop_last());
        match spec_normalize(rs.last()) {
            Ok(_) => prev,
            Err(e) => prev.push((rs.len() - 1, e)),
        }
    }
}

/// Normalizes a whole batch. A malformed row never aborts the run: it
/// is skipped, counted, and (for the first few) reported with its
/// position and cause.
pub fn build_season_store(rows: &Vec<RawSeasonRow>) -> (r: (
    Vec<SeasonRecord>,
    usize,
    Vec<(usize, NormalizationError)>,
))
    ensures
        season_views(r.0@) == spec_store(raw_views(rows@)),
        r.1 == spec_row_errors(raw_views(rows@)).len(),
        r.2@.len() == (if spec_row_errors(raw_views(rows@)).len() < DIAG_LIMIT {
            spec_row_errors(raw_views(rows@)).len() as int
        } else {
            DIAG_LIMIT as int
        }),
        forall|j: int|
            0 <= j < r.2@.len() ==> (#[trigger] r.2@[j]).0 as int == spec_row_errors(
                raw_views(rows@),
            )[j].0 && r.2@[j].1 == spec_row_errors(raw_views(rows@))[j].1,
        forall|j: int| 0 <= j < r.0@.len() ==> (#[trigger] r.0@[j])@.valid(),
{
    let ghost rv = raw_views(rows@);
    let mut store: Vec<SeasonRecord> = Vec::new();
    let mut errors: usize = 0;
    let mut diags: Vec<(usize, NormalizationError)> = Vec::new();
    let mut i: usize = 0;
    proof {
        assert(rv.take(0) =~= Seq::<RawView>::empty());
        assert(season_views(store@) =~= spec_store(rv.take(0)));
    }
    while i < rows.len()
        invariant
            i <= rows.len(),
            rv == raw_views(rows@),
            season_views(store@) == spec_store(rv.take(i as int)),
            errors == spec_row_errors(rv.take(i as int)).len(),
            diags@.len() == (if spec_row_errors(rv.take(i as int)).len() < DIAG_LIMIT {
                spec_row_errors(rv.take(i as int)).len() as int
            } else {
                DIAG_LIMIT as int
            }),
            forall|j: int|
                0 <= j < diags@.len() ==> (#[trigger] diags@[j]).0 as int == spec_row_errors(
                    rv.take(i as int),
                )[j].0 && diags@[j].1 == spec_row_errors(rv.take(i as int))[j].1,
            errors <= i,
            forall|j: int| 0 <= j < store@.len() ==> (#[trigger] store@[j])@.valid(),
        decreases rows.len() - i,
    {
        let ghost prefix = rv.take(i as int);
        let ghost prefix1 = rv.take(i + 1);
        proof {
            assert(prefix1.drop_last() =~= prefix);
            assert(prefix1.last() == rv[i as int]);
            assert(rv[i as int] == rows@[i as int]@);
        }
        match normalize(&rows[i]) {
            Ok(rec) => {
                store.push(rec);
                proof {
                    assert(season_views(store@) =~= season_views(store@.drop_last()).push(
                        store@.last()@,
                    ));
                }
            },
            Err(e) => {
                errors = errors + 1;
                if diags.len() < DIAG_LIMIT {
                    diags.push((i, e));
                    proof {
                        assert(spec_row_errors(prefix1) =~= spec_row_errors(prefix).push(
                            (i as int, e),
                        ));
                        assert forall|j: int| 0 <= j < diags@.len() implies (
                        #[trigger] diags@[j]).0 as int == spec_row_errors(prefix1)[j].0
                            && diags@[j].1 == spec_row_errors(prefix1)[j].1 by {
                            if j < diags@.len() - 1 {
                                assert(spec_row_errors(prefix1)[j] == spec_row_errors(prefix)[j]);
                            }
                        }
                    }
                } else {
                    proof {
                        assert(spec_row_errors(prefix1) =~= spec_row_errors(prefix).push(
                            (i as int, e),
                        ));
                        assert forall|j: int| 0 <= j < diags@.len() implies (
                        #[trigger] diags@[j]).0 as int == spec_row_errors(prefix1)[j].0
                            && diags@[j].1 == spec_row_errors(prefix1)[j].1 by {
                            assert(spec_row_errors(prefix1)[j] == spec_row_errors(prefix)[j]);
                        }
                    }
                }
            },
        }
        i = i + 1;
    }
    proof {
        assert(rv.take(rows@.len() as int) =~= rv);
    }
    (store, errors, diags)
}

/// A copy of an optional name with the same character content.
pub fn clone_optional_string(s: &Option<String>) -> (r: Option<String>)
    ensures
        match (r, s) {
            (Some(a), Some(b)) => a@ == b@,
            (None, None) => true,
            _ => false,
        },
{
    match s {
        Some(n) => Some(n.clone()),
        None => None,
    }
}

/// A copy of a season record with the same view.
pub fn clone_season(r: &SeasonRecord) -> (c: SeasonRecord)
    ensures
        c@ == r@,
{
    SeasonRecord {
        player_link: r.player_link.clone(),
        season: r.season,
        first_name: clone_optional_string(&r.first_name),
        last_name: r.last_name.clone(),
        position: r.position.clone(),
        team: r.team.clone(),
        games_played: r.games_played,
        at_bats: r.at_bats,
        runs: r.runs,
        hits: r.hits,
        doubles: r.doubles,
        triples: r.triples,
        homeruns: r.homeruns,
        walks: r.walks,
        rbi: r.rbi,
        strikeouts: r.strikeouts,
        stolen_bases: r.stolen_bases,
        caught_stealing: r.caught_stealing,
        batting_average: r.batting_average,
        on_base_percentage: r.on_base_percentage,
        slugging_percentage: r.slugging_percentage,
        on_base_plus_slugging: r.on_base_plus_slugging,
    }
}

} // verus!
