use baseball_stats::aggregate::aggregate;
use baseball_stats::parse::Decimal;
use baseball_stats::rank::{
    rank_careers, rank_order, rank_seasons, CareerMetric, InsufficientDataError, SeasonMetric,
};
use baseball_stats::record::{build_season_store, RawSeasonRow, SeasonRecord};
use baseball_stats::render::{format_decimal, format_u32};

fn season(link: &str, year: u32, homeruns: u32, hits: u32) -> SeasonRecord {
    SeasonRecord {
        player_link: link.to_string(),
        season: year,
        first_name: Some("First".to_string()),
        last_name: "Last".to_string(),
        position: "RF".to_string(),
        team: "NYY".to_string(),
        games_played: 150,
        at_bats: 500,
        runs: 100,
        hits,
        doubles: 30,
        triples: 5,
        homeruns,
        walks: 90,
        rbi: Some(100),
        strikeouts: Some(Decimal { millis: 80000 }),
        stolen_bases: Some(10),
        caught_stealing: Some(4),
        batting_average: Decimal { millis: 342 },
        on_base_percentage: Some(Decimal { millis: 474 }),
        slugging_percentage: Decimal { millis: 690 },
        on_base_plus_slugging: Some(Decimal { millis: 1164 }),
    }
}

#[test]
fn rank_order_sorts_descending_and_stable() {
    let keys: Vec<u64> = vec![10, 40, 40, 5, 25];
    let ord = rank_order(&keys);
    assert_eq!(ord, vec![1, 2, 4, 0, 3]);
}

#[test]
fn rank_order_of_empty_keys() {
    let ord = rank_order(&Vec::new());
    assert!(ord.is_empty());
}

#[test]
fn rank_order_all_equal_keeps_input_order() {
    let keys: Vec<u64> = vec![7, 7, 7, 7];
    let ord = rank_order(&keys);
    assert_eq!(ord, vec![0, 1, 2, 3]);
}

#[test]
fn top_three_homerun_seasons() {
    let seasons = vec![
        season("a", 2000, 10, 0),
        season("b", 2001, 40, 0),
        season("c", 2002, 40, 0),
        season("d", 2003, 5, 0),
        season("e", 2004, 25, 0),
    ];
    let top = rank_seasons(&seasons, SeasonMetric::Homeruns, 3).unwrap();
    let values: Vec<u32> = top.iter().map(|r| r.homeruns).collect();
    assert_eq!(values, vec![40, 40, 25]);
    // the two 40s keep their input order
    assert_eq!(top[0].player_link, "b");
    assert_eq!(top[1].player_link, "c");
    assert_eq!(top[2].player_link, "e");
}

#[test]
fn season_hits_metric_ranks_by_hits() {
    let seasons = vec![
        season("a", 2000, 0, 150),
        season("b", 2001, 0, 220),
        season("c", 2002, 0, 180),
    ];
    let top = rank_seasons(&seasons, SeasonMetric::Hits, 3).unwrap();
    let links: Vec<&str> = top.iter().map(|r| r.player_link.as_str()).collect();
    assert_eq!(links, vec!["b", "c", "a"]);
}

#[test]
fn asking_for_more_rows_than_exist_is_refused() {
    let seasons = vec![season("a", 2000, 1, 1)];
    assert_eq!(
        rank_seasons(&seasons, SeasonMetric::Homeruns, 2),
        Err(InsufficientDataError {})
    );
    let careers = aggregate(&seasons);
    assert_eq!(
        rank_careers(&careers, CareerMetric::TotalHomeruns, 2),
        Err(InsufficientDataError {})
    );
}

#[test]
fn asking_for_exactly_the_available_rows_succeeds() {
    let seasons = vec![season("a", 2000, 1, 1), season("b", 2001, 2, 2)];
    let top = rank_seasons(&seasons, SeasonMetric::Homeruns, 2).unwrap();
    assert_eq!(top.len(), 2);
}

#[test]
fn asking_for_nothing_returns_nothing() {
    let seasons = vec![season("a", 2000, 1, 1)];
    let top = rank_seasons(&seasons, SeasonMetric::Homeruns, 0).unwrap();
    assert!(top.is_empty());
}

#[test]
fn career_rankings_use_career_totals() {
    let seasons = vec![
        season("a", 2000, 30, 0),
        season("b", 2001, 45, 0),
        season("a", 2002, 25, 0),
    ];
    let careers = aggregate(&seasons);
    let by_homeruns = rank_careers(&careers, CareerMetric::TotalHomeruns, 2).unwrap();
    assert_eq!(by_homeruns[0].player_link, "a");
    assert_eq!(by_homeruns[0].total_homeruns, 55);
    assert_eq!(by_homeruns[1].player_link, "b");

    let by_games = rank_careers(&careers, CareerMetric::TotalGamesPlayed, 2).unwrap();
    assert_eq!(by_games[0].player_link, "a");
    assert_eq!(by_games[0].total_games_played, 300);
}

#[test]
fn career_ranking_ties_keep_first_seen_order() {
    let seasons = vec![
        season("a", 2000, 20, 0),
        season("b", 2001, 20, 0),
        season("c", 2002, 20, 0),
    ];
    let careers = aggregate(&seasons);
    let ranked = rank_careers(&careers, CareerMetric::TotalHomeruns, 3).unwrap();
    let links: Vec<&str> = ranked.iter().map(|c| c.player_link.as_str()).collect();
    assert_eq!(links, vec!["a", "b", "c"]);
}

#[test]
fn rendered_numbers_read_like_the_source() {
    assert_eq!(format_u32(0), "0");
    assert_eq!(format_u32(7), "7");
    assert_eq!(format_u32(173), "173");
    assert_eq!(format_u32(u32::MAX), "4294967295");
    assert_eq!(format_decimal(Decimal { millis: 342 }), "0.342");
    assert_eq!(format_decimal(Decimal { millis: 12500 }), "12.500");
    assert_eq!(format_decimal(Decimal { millis: 80000 }), "80.000");
}

fn raw(link: &str, year: u32, homeruns: u32, rbi: &str) -> RawSeasonRow {
    RawSeasonRow {
        season: year,
        first_name: None,
        last_name: "Ruth".to_string(),
        link: link.to_string(),
        position: "RF".to_string(),
        team: "NYY".to_string(),
        games_played: 150,
        at_bats: 500,
        runs: 100,
        hits: 180,
        doubles: 30,
        triples: 5,
        homeruns,
        rbi: rbi.to_string(),
        walks: 90,
        strikeouts: "--".to_string(),
        stolen_bases: "--".to_string(),
        caught_stealing: "--".to_string(),
        batting_average: "0.342".to_string(),
        on_base_percentage: "--".to_string(),
        slugging_percentage: "0.690".to_string(),
        on_base_plus_slugging: "--".to_string(),
    }
}

#[test]
fn whole_pipeline_from_raw_text() {
    let rows = vec![
        raw("ruth-babe", 1920, 54, "135"),
        raw("ruth-babe", 1921, 59, "--"),
        raw("gehrig-lou", 1927, 47, "173"),
        raw("bad-row", 1930, 1, "junk"),
    ];
    let (store, errors, _) = build_season_store(&rows);
    assert_eq!(store.len(), 3);
    assert_eq!(errors, 1);
    let careers = aggregate(&store);
    assert_eq!(careers.len(), 2);
    assert_eq!(careers[0].first_name, "N/A");
    assert_eq!(careers[0].total_homeruns, 113);
    assert_eq!(careers[0].total_rbi, 135);
    let ranked = rank_careers(&careers, CareerMetric::TotalHomeruns, 2).unwrap();
    assert_eq!(ranked[0].player_link, "ruth-babe");
    assert_eq!(ranked[1].player_link, "gehrig-lou");
}
