use baseball_stats::parse::{
    parse_optional_decimal, parse_optional_number, parse_required_decimal, Decimal,
};
use baseball_stats::record::{build_season_store, normalize, NormalizationError, RawSeasonRow};
use baseball_stats::render::raw_of;

fn raw_row(link: &str, season: u32) -> RawSeasonRow {
    RawSeasonRow {
        season,
        first_name: Some("George".to_string()),
        last_name: "Ruth".to_string(),
        link: link.to_string(),
        position: "RF".to_string(),
        team: "NYY".to_string(),
        games_played: 150,
        at_bats: 500,
        runs: 100,
        hits: 180,
        doubles: 30,
        triples: 5,
        homeruns: 40,
        rbi: "120".to_string(),
        walks: 90,
        strikeouts: "80.0".to_string(),
        stolen_bases: "10".to_string(),
        caught_stealing: "4".to_string(),
        batting_average: "0.342".to_string(),
        on_base_percentage: "0.474".to_string(),
        slugging_percentage: "0.690".to_string(),
        on_base_plus_slugging: "1.164".to_string(),
    }
}

#[test]
fn optional_number_sentinel_is_absent() {
    assert_eq!(parse_optional_number("--"), Ok(None));
}

#[test]
fn optional_number_blank_is_absent() {
    assert_eq!(parse_optional_number(""), Ok(None));
    assert_eq!(parse_optional_number("   "), Ok(None));
    assert_eq!(parse_optional_number(" \t "), Ok(None));
}

#[test]
fn optional_number_value_parses() {
    assert_eq!(parse_optional_number("88"), Ok(Some(88)));
    assert_eq!(parse_optional_number("  77  "), Ok(Some(77)));
    assert_eq!(parse_optional_number("0"), Ok(Some(0)));
    assert_eq!(parse_optional_number("4294967295"), Ok(Some(u32::MAX)));
}

#[test]
fn optional_number_junk_is_an_error() {
    assert!(parse_optional_number("abc").is_err());
    assert!(parse_optional_number("1x").is_err());
    assert!(parse_optional_number("-5").is_err());
    assert!(parse_optional_number("- -").is_err());
    assert!(parse_optional_number("4294967296").is_err());
}

#[test]
fn optional_decimal_policy() {
    assert_eq!(parse_optional_decimal("--"), Ok(None));
    assert_eq!(parse_optional_decimal("  "), Ok(None));
    assert_eq!(
        parse_optional_decimal("0.342"),
        Ok(Some(Decimal { millis: 342 }))
    );
    assert_eq!(
        parse_optional_decimal("12.5"),
        Ok(Some(Decimal { millis: 12500 }))
    );
    assert_eq!(
        parse_optional_decimal(".25"),
        Ok(Some(Decimal { millis: 250 }))
    );
    assert_eq!(
        parse_optional_decimal("80"),
        Ok(Some(Decimal { millis: 80000 }))
    );
    assert!(parse_optional_decimal("1.2345").is_err());
    assert!(parse_optional_decimal("1.").is_err());
    assert!(parse_optional_decimal("1.2.3").is_err());
    assert!(parse_optional_decimal("x.5").is_err());
    // one thousandth above the largest representable field value
    assert!(parse_optional_decimal("4294967.296").is_err());
}

#[test]
fn required_decimal_policy() {
    assert_eq!(parse_required_decimal("0.300"), Ok(Decimal { millis: 300 }));
    assert_eq!(
        parse_required_decimal(" 1.005 "),
        Ok(Decimal { millis: 1005 })
    );
    assert!(parse_required_decimal("--").is_err());
    assert!(parse_required_decimal("").is_err());
    assert!(parse_required_decimal("abc").is_err());
}

#[test]
fn normalize_reads_every_field() {
    let rec = normalize(&raw_row("ruth-babe", 1927)).unwrap();
    assert_eq!(rec.player_link, "ruth-babe");
    assert_eq!(rec.season, 1927);
    assert_eq!(rec.first_name.as_deref(), Some("George"));
    assert_eq!(rec.last_name, "Ruth");
    assert_eq!(rec.position, "RF");
    assert_eq!(rec.team, "NYY");
    assert_eq!(rec.games_played, 150);
    assert_eq!(rec.homeruns, 40);
    assert_eq!(rec.rbi, Some(120));
    assert_eq!(rec.strikeouts, Some(Decimal { millis: 80000 }));
    assert_eq!(rec.stolen_bases, Some(10));
    assert_eq!(rec.caught_stealing, Some(4));
    assert_eq!(rec.batting_average, Decimal { millis: 342 });
    assert_eq!(rec.on_base_percentage, Some(Decimal { millis: 474 }));
    assert_eq!(rec.slugging_percentage, Decimal { millis: 690 });
    assert_eq!(rec.on_base_plus_slugging, Some(Decimal { millis: 1164 }));
}

#[test]
fn normalize_rbi_sentinel_absent_value_and_junk() {
    let mut row = raw_row("a", 2000);
    row.rbi = "--".to_string();
    assert_eq!(normalize(&row).unwrap().rbi, None);

    let mut row = raw_row("a", 2000);
    row.rbi = "88".to_string();
    assert_eq!(normalize(&row).unwrap().rbi, Some(88));

    let mut row = raw_row("a", 2000);
    row.rbi = "abc".to_string();
    assert_eq!(normalize(&row), Err(NormalizationError::Rbi));
}

#[test]
fn normalize_reports_the_failing_field() {
    let mut row = raw_row("a", 2000);
    row.strikeouts = "junk".to_string();
    assert_eq!(normalize(&row), Err(NormalizationError::Strikeouts));

    let mut row = raw_row("a", 2000);
    row.stolen_bases = "?".to_string();
    assert_eq!(normalize(&row), Err(NormalizationError::StolenBases));

    let mut row = raw_row("a", 2000);
    row.caught_stealing = "1,5".to_string();
    assert_eq!(normalize(&row), Err(NormalizationError::CaughtStealing));

    let mut row = raw_row("a", 2000);
    row.batting_average = "--".to_string();
    assert_eq!(normalize(&row), Err(NormalizationError::BattingAverage));

    let mut row = raw_row("a", 2000);
    row.on_base_percentage = "x".to_string();
    assert_eq!(normalize(&row), Err(NormalizationError::OnBasePercentage));

    let mut row = raw_row("a", 2000);
    row.slugging_percentage = "".to_string();
    assert_eq!(normalize(&row), Err(NormalizationError::SluggingPercentage));

    let mut row = raw_row("a", 2000);
    row.on_base_plus_slugging = "1..164".to_string();
    assert_eq!(normalize(&row), Err(NormalizationError::OnBasePlusSlugging));
}

#[test]
fn normalize_first_failing_field_wins() {
    let mut row = raw_row("a", 2000);
    row.rbi = "bad".to_string();
    row.batting_average = "also bad".to_string();
    assert_eq!(normalize(&row), Err(NormalizationError::Rbi));
}

#[test]
fn round_trip_through_text_is_identity() {
    let mut row = raw_row("ruth-babe", 1927);
    row.rbi = "--".to_string();
    row.first_name = None;
    let rec = normalize(&row).unwrap();
    let again = normalize(&raw_of(&rec)).unwrap();
    assert_eq!(again.player_link, rec.player_link);
    assert_eq!(again.season, rec.season);
    assert_eq!(again.first_name, rec.first_name);
    assert_eq!(again.last_name, rec.last_name);
    assert_eq!(again.position, rec.position);
    assert_eq!(again.team, rec.team);
    assert_eq!(again.games_played, rec.games_played);
    assert_eq!(again.at_bats, rec.at_bats);
    assert_eq!(again.runs, rec.runs);
    assert_eq!(again.hits, rec.hits);
    assert_eq!(again.doubles, rec.doubles);
    assert_eq!(again.triples, rec.triples);
    assert_eq!(again.homeruns, rec.homeruns);
    assert_eq!(again.walks, rec.walks);
    assert_eq!(again.rbi, rec.rbi);
    assert_eq!(again.strikeouts, rec.strikeouts);
    assert_eq!(again.stolen_bases, rec.stolen_bases);
    assert_eq!(again.caught_stealing, rec.caught_stealing);
    assert_eq!(again.batting_average, rec.batting_average);
    assert_eq!(again.on_base_percentage, rec.on_base_percentage);
    assert_eq!(again.slugging_percentage, rec.slugging_percentage);
    assert_eq!(again.on_base_plus_slugging, rec.on_base_plus_slugging);
}

#[test]
fn store_keeps_good_rows_and_counts_bad_ones() {
    let mut bad = raw_row("x", 2001);
    bad.rbi = "junk".to_string();
    let rows = vec![raw_row("a", 2000), bad, raw_row("b", 2002)];
    let (store, errors, diags) = build_season_store(&rows);
    assert_eq!(store.len(), 2);
    assert_eq!(store[0].player_link, "a");
    assert_eq!(store[1].player_link, "b");
    assert_eq!(errors, 1);
    assert_eq!(diags.len(), 1);
    assert_eq!(diags[0], (1, NormalizationError::Rbi));
}

#[test]
fn store_reports_at_most_five_diagnostics() {
    let mut rows = Vec::new();
    for season in 0..7u32 {
        let mut row = raw_row("p", season);
        row.rbi = "junk".to_string();
        rows.push(row);
    }
    let (store, errors, diags) = build_season_store(&rows);
    assert_eq!(store.len(), 0);
    assert_eq!(errors, 7);
    assert_eq!(diags.len(), 5);
    for (j, d) in diags.iter().enumerate() {
        assert_eq!(*d, (j, NormalizationError::Rbi));
    }
}

#[test]
fn store_of_empty_batch_is_empty() {
    let rows: Vec<RawSeasonRow> = Vec::new();
    let (store, errors, diags) = build_season_store(&rows);
    assert!(store.is_empty());
    assert_eq!(errors, 0);
    assert!(diags.is_empty());
}

#[test]
fn surrounding_whitespace_is_trimmed_before_reading() {
    assert_eq!(parse_optional_number("\t40\r\n"), Ok(Some(40)));
    assert_eq!(parse_optional_number(" -- "), Ok(None));
    assert_eq!(
        parse_optional_decimal(" 0.5\n"),
        Ok(Some(Decimal { millis: 500 }))
    );
}

#[test]
fn whitespace_inside_a_number_is_junk() {
    assert!(parse_optional_number("4 0").is_err());
    assert!(parse_optional_decimal("0. 5").is_err());
}
