use baseball_stats::aggregate::{aggregate, aggregate_group};
use baseball_stats::parse::Decimal;
use baseball_stats::record::SeasonRecord;

fn season(link: &str, year: u32, homeruns: u32) -> SeasonRecord {
    SeasonRecord {
        player_link: link.to_string(),
        season: year,
        first_name: Some("First".to_string()),
        last_name: "Last".to_string(),
        position: "RF".to_string(),
        team: "NYY".to_string(),
        games_played: 150,
        at_bats: 500,
        runs: 100,
        hits: 180,
        doubles: 30,
        triples: 5,
        homeruns,
        walks: 90,
        rbi: Some(100),
        strikeouts: Some(Decimal { millis: 80000 }),
        stolen_bases: Some(10),
        caught_stealing: Some(4),
        batting_average: Decimal { millis: 342 },
        on_base_percentage: Some(Decimal { millis: 474 }),
        slugging_percentage: Decimal { millis: 690 },
        on_base_plus_slugging: Some(Decimal { millis: 1164 }),
    }
}

#[test]
fn ruth_career_totals() {
    let mut s1 = season("ruth-babe", 1920, 54);
    let mut s2 = season("ruth-babe", 1921, 59);
    let mut s3 = season("ruth-babe", 1927, 60);
    s1.rbi = Some(135);
    s2.rbi = None;
    s3.rbi = Some(165);
    let seasons = vec![s1, s2, s3];
    let careers = aggregate(&seasons);
    assert_eq!(careers.len(), 1);
    let c = &careers[0];
    assert_eq!(c.player_link, "ruth-babe");
    assert_eq!(c.total_homeruns, 54 + 59 + 60);
    assert_eq!(c.first_season, 1920);
    assert_eq!(c.last_season, 1927);
    assert_eq!(c.seasons_played, 3);
    // the absent rbi contributed zero to the total ...
    assert_eq!(c.total_rbi, 135 + 165);
    // ... while the season record itself still carries the absence
    assert_eq!(seasons[1].rbi, None);
}

#[test]
fn rookie_with_one_season() {
    let careers = aggregate(&vec![season("rookie", 2023, 12)]);
    assert_eq!(careers.len(), 1);
    let c = &careers[0];
    assert_eq!(c.first_season, 2023);
    assert_eq!(c.last_season, 2023);
    assert_eq!(c.seasons_played, 1);
    assert_eq!(c.total_homeruns, 12);
}

#[test]
fn groups_appear_in_first_seen_order() {
    let seasons = vec![
        season("b", 2001, 1),
        season("a", 2000, 2),
        season("b", 2002, 3),
        season("c", 2003, 4),
        season("a", 2004, 5),
    ];
    let careers = aggregate(&seasons);
    let links: Vec<&str> = careers.iter().map(|c| c.player_link.as_str()).collect();
    assert_eq!(links, vec!["b", "a", "c"]);
    assert_eq!(careers[0].total_homeruns, 1 + 3);
    assert_eq!(careers[1].total_homeruns, 2 + 5);
    assert_eq!(careers[2].total_homeruns, 4);
}

#[test]
fn seasons_played_counts_rows_with_the_link() {
    let seasons = vec![
        season("a", 2000, 0),
        season("b", 2001, 0),
        season("a", 2002, 0),
        season("a", 2003, 0),
    ];
    let careers = aggregate(&seasons);
    assert_eq!(careers[0].seasons_played, 3);
    assert_eq!(careers[1].seasons_played, 1);
    assert!(careers[0].first_season <= careers[0].last_season);
    assert!(careers[1].first_season <= careers[1].last_season);
}

#[test]
fn positions_and_teams_deduplicate_in_first_seen_order() {
    let mut s1 = season("a", 2000, 0);
    let mut s2 = season("a", 2001, 0);
    let mut s3 = season("a", 2002, 0);
    let mut s4 = season("a", 2003, 0);
    s1.position = "C".to_string();
    s2.position = "1B".to_string();
    s3.position = "C".to_string();
    s4.position = "SS".to_string();
    s1.team = "BOS".to_string();
    s2.team = "NYY".to_string();
    s3.team = "NYY".to_string();
    s4.team = "BOS".to_string();
    let careers = aggregate(&vec![s1, s2, s3, s4]);
    let positions: Vec<&str> = careers[0].positions.iter().map(|p| p.as_str()).collect();
    let teams: Vec<&str> = careers[0].teams.iter().map(|t| t.as_str()).collect();
    assert_eq!(positions, vec!["C", "1B", "SS"]);
    assert_eq!(teams, vec!["BOS", "NYY"]);
}

#[test]
fn identity_comes_from_the_earliest_season() {
    let mut s1 = season("a", 2001, 0);
    let mut s2 = season("a", 2000, 0);
    s1.first_name = Some("Early".to_string());
    s2.first_name = Some("Late".to_string());
    // group order is store order, not season order: s1 is first seen
    let careers = aggregate(&vec![s1, s2]);
    assert_eq!(careers[0].first_name, "Early");
    assert_eq!(careers[0].first_season, 2000);
    assert_eq!(careers[0].last_season, 2001);
}

#[test]
fn absent_first_name_renders_as_na() {
    let mut s1 = season("a", 2000, 0);
    s1.first_name = None;
    let careers = aggregate(&vec![s1]);
    assert_eq!(careers[0].first_name, "N/A");
}

#[test]
fn every_total_sums_its_field() {
    let mut s1 = season("a", 2000, 7);
    let mut s2 = season("a", 2001, 8);
    s1.strikeouts = Some(Decimal { millis: 1500 });
    s2.strikeouts = None;
    s1.stolen_bases = None;
    s2.stolen_bases = Some(9);
    let careers = aggregate_and_first(vec![s1, s2]);
    assert_eq!(careers.total_games_played, 300);
    assert_eq!(careers.total_at_bats, 1000);
    assert_eq!(careers.total_runs, 200);
    assert_eq!(careers.total_hits, 360);
    assert_eq!(careers.total_doubles, 60);
    assert_eq!(careers.total_triples, 10);
    assert_eq!(careers.total_homeruns, 15);
    assert_eq!(careers.total_walks, 180);
    assert_eq!(careers.total_rbi, 200);
    assert_eq!(careers.total_strikeouts, Decimal { millis: 1500 });
    assert_eq!(careers.total_stolen_bases, 9);
    assert_eq!(careers.total_caught_stealing, 8);
}

fn aggregate_and_first(seasons: Vec<SeasonRecord>) -> baseball_stats::aggregate::CareerRecord {
    let mut careers = aggregate(&seasons);
    careers.remove(0)
}

#[test]
fn aggregate_group_folds_one_group() {
    let c = aggregate_group(&vec![season("a", 1999, 20), season("a", 2005, 30)]);
    assert_eq!(c.player_link, "a");
    assert_eq!(c.first_season, 1999);
    assert_eq!(c.last_season, 2005);
    assert_eq!(c.seasons_played, 2);
    assert_eq!(c.total_homeruns, 50);
}

#[test]
fn aggregate_of_empty_store_is_empty() {
    let careers = aggregate(&Vec::new());
    assert!(careers.is_empty());
}
