//! Career aggregation: grouping season records by player identity and
//! folding each group into one career summary.
//!
//! Groups are keyed by `player_link` and appear in first-seen order.
//! Within a group, totals sum every counting statistic, substituting
//! zero for an absent optional value in the sum only — the season
//! records themselves are read, never changed.

use vstd::prelude::*;

use crate::parse::{Decimal, FIELD_MAX};
use crate::record::{clone_season, season_views, SeasonRecord, SeasonView};

verus! {

/// One player's career across all their seasons.
#[derive(Debug, PartialEq)]
pub struct CareerRecord {
    pub player_link: String,
    pub first_name: String,
    pub last_name: String,
    pub first_season: u32,
    pub last_season: u32,
    pub seasons_played: u32,
    pub positions: Vec<String>,
    pub teams: Vec<String>,
    pub total_games_played: u64,
    pub total_at_bats: u64,
    pub total_runs: u64,
    pub total_hits: u64,
    pub total_doubles: u64,
    pub total_triples: u64,
    pub total_homeruns: u64,
    pub total_rbi: u64,
    pub total_walks: u64,
    pub total_strikeouts: Decimal,
    pub total_stolen_bases: u64,
    pub total_caught_stealing: u64,
}

/// Mathematical image of a career record.
pub ghost struct CareerView {
    pub player_link: Seq<char>,
    pub first_name: Seq<char>,
    pub last_name: Seq<char>,
    pub first_season: u32,
    pub last_season: u32,
    pub seasons_played: u32,
    pub positions: Seq<Seq<char>>,
    pub teams: Seq<Seq<char>>,
    pub total_games_played: u64,
    pub total_at_bats: u64,
    pub total_runs: u64,
    pub total_hits: u64,
    pub total_doubles: u64,
    pub total_triples: u64,
    pub total_homeruns: u64,
    pub total_rbi: u64,
    pub total_walks: u64,
    pub total_strikeouts: Decimal,
    pub total_stolen_bases: u64,
    pub total_caught_stealing: u64,
}

pub open spec fn str_views(s: Seq<String>) -> Seq<Seq<char>> {
    s.map_values(|x: String| x@)
}

impl View for CareerRecord {
    type V = CareerView;

    open spec fn view(&self) -> CareerView {
        CareerView {
            player_link: self.player_link@,
            first_name: self.first_name@,
            last_name: self.last_name@,
            first_season: self.first_season,
            last_season: self.last_season,
            seasons_played: self.seasons_played,
            positions: str_views(self.positions@),
            teams: str_views(self.teams@),
            total_games_played: self.total_games_played,
            total_at_bats: self.total_at_bats,
            total_runs: self.total_runs,
            total_hits: self.total_hits,
            total_doubles: self.total_doubles,
            total_triples: self.total_triples,
            total_homeruns: self.total_homeruns,
            total_rbi: self.total_rbi,
            total_walks: self.total_walks,
            total_strikeouts: self.total_strikeouts,
            total_stolen_bases: self.total_stolen_bases,
            total_caught_stealing: self.total_caught_stealing,
        }
    }
}

pub open spec fn career_views(recs: Seq<CareerRecord>) -> Seq<CareerView> {
    recs.map_values(|r: CareerRecord| r@)
}

/// Appends a value to an order-preserving set of strings: kept only on
/// first appearance.
pub open spec fn distinct_push(prev: Seq<Seq<char>>, l: Seq<char>) -> Seq<Seq<char>> {
    if prev.contains(l) {
        prev
    } else {
        prev.push(l)
    }
}

/// The distinct values of `s` in first-seen order.
pub open spec fn distinct_strs(s: Seq<Seq<char>>) -> Seq<Seq<char>>
    decreases s.len(),
{
    if s.len() == 0 {
        Seq::empty()
    } else {
        distinct_push(distinct_strs(s.drop_last()), s.last())
    }
}

pub open spec fn plinks_of(s: Seq<SeasonView>) -> Seq<Seq<char>> {
    s.map_values(|r: SeasonView| r.player_link)
}

pub open spec fn positions_of(s: Seq<SeasonView>) -> Seq<Seq<char>> {
    s.map_values(|r: SeasonView| r.position)
}

pub open spec fn teams_of(s: Seq<SeasonView>) -> Seq<Seq<char>> {
    s.map_values(|r: SeasonView| r.team)
}

/// The distinct player links of a season store, in first-seen order:
/// one per output group.
pub open spec fn links_of(s: Seq<SeasonView>) -> Seq<Seq<char>> {
    distinct_strs(plinks_of(s))
}

/// The seasons of one player, in store order.
pub open spec fn group_of(s: Seq<SeasonView>, link: Seq<char>) -> Seq<SeasonView>
    decreases s.len(),
{
    if s.len() == 0 {
        Seq::empty()
    } else {
        let prev = group_of(s.drop_last(), link);
        if s.last().player_link == link {
            prev.push(s.last())
        } else {
            prev
        }
    }
}

pub open spec fn min_season(g: Seq<SeasonView>) -> u32
    recommends
        g.len() > 0,
    decreases g.len(),
{
    if g.len() <= 1 {
        g[0].season
    } else {
        let m = min_season(g.drop_last());
        if g.last().season < m {
            g.last().season
        } else {
            m
        }
    }
}

pub open spec fn max_season(g: Seq<SeasonView>) -> u32
    recommends
        g.len() > 0,
    decreases g.len(),
{
    if g.len() <= 1 {
        g[0].season
    } else {
        let m = max_season(g.drop_last());
        if g.last().season > m {
            g.last().season
        } else {
            m
        }
    }
}

pub open spec fn opt_u32_val(o: Option<u32>) -> int {
    match o {
        Some(v) => v as int,
        None => 0,
    }
}

pub open spec fn opt_dec_millis(o: Option<Decimal>) -> int {
    match o {
        Some(d) => d.millis as int,
        None => 0,
    }
}

pub open spec fn sum_games_played(g: Seq<SeasonView>) -> int
    decreases g.len(),
{
    if g.len() == 0 {
        0
    } else {
        sum_games_played(g.drop_last()) + g.last().games_played
    }
}

pub open spec fn sum_at_bats(g: Seq<SeasonView>) -> int
    decreases g.len(),
{
    if g.len() == 0 {
        0
    } else {
        sum_at_bats(g.drop_last()) + g.last().at_bats
    }
}

pub open spec fn sum_runs(g: Seq<SeasonView>) -> int
    decreases g.len(),
{
    if g.len() == 0 {
        0
    } else {
        sum_runs(g.drop_last()) + g.last().runs
    }
}

pub open spec fn sum_hits(g: Seq<SeasonView>) -> int
    decreases g.len(),
{
    if g.len() == 0 {
        0
    } else {
        sum_hits(g.drop_last()) + g.last().hits
    }
}

pub open spec fn sum_doubles(g: Seq<SeasonView>) -> int
    decreases g.len(),
{
    if g.len() == 0 {
        0
    } else {
        sum_doubles(g.drop_last()) + g.last().doubles
    }
}

pub open spec fn sum_triples(g: Seq<SeasonView>) -> int
    decreases g.len(),
{
    if g.len() == 0 {
        0
    } else {
        sum_triples(g.drop_last()) + g.last().triples
    }
}

pub open spec fn sum_homeruns(g: Seq<SeasonView>) -> int
    decreases g.len(),
{
    if g.len() == 0 {
        0
    } else {
        sum_homeruns(g.drop_last()) + g.last().homeruns
    }
}

pub open spec fn sum_rbi(g: Seq<SeasonView>) -> int
    decreases g.len(),
{
    if g.len() == 0 {
        0
    } else {
        sum_rbi(g.drop_last()) + opt_u32_val(g.last().rbi)
    }
}

pub open spec fn sum_walks(g: Seq<SeasonView>) -> int
    decreases g.len(),
{
    if g.len() == 0 {
        0
    } else {
        sum_walks(g.drop_last()) + g.last().walks
    }
}

pub open spec fn sum_strikeouts(g: Seq<SeasonView>) -> int
    decreases g.len(),
{
    if g.len() == 0 {
        0
    } else {
        sum_strikeouts(g.drop_last()) + opt_dec_millis(g.last().strikeouts)
    }
}

pub open spec fn sum_stolen_bases(g: Seq<SeasonView>) -> int
    decreases g.len(),
{
    if g.len() == 0 {
        0
    } else {
        sum_stolen_bases(g.drop_last()) + opt_u32_val(g.last().stolen_bases)
    }
}

pub open spec fn sum_caught_stealing(g: Seq<SeasonView>) -> int
    decreases g.len(),
{
    if g.len() == 0 {
        0
    } else {
        sum_caught_stealing(g.drop_last()) + opt_u32_val(g.last().caught_stealing)
    }
}

/// The career summary of one non-empty group of seasons: identity from
/// the first season, extremes and totals over the whole group, and the
/// distinct positions and teams in first-seen order. An absent optional
/// value counts as zero in its total, and nowhere else.
pub open spec fn career_of(g: Seq<SeasonView>) -> CareerView
    recommends
        g.len() > 0,
{
    CareerView {
        player_link: g[0].player_link,
        first_name: match g[0].first_name {
            Some(n) => n,
            None => "N/A"@,
        },
        last_name: g[0].last_name,
        first_season: min_season(g),
        last_season: max_season(g),
        seasons_played: g.len() as u32,
        positions: distinct_strs(positions_of(g)),
        teams: distinct_strs(teams_of(g)),
        total_games_played: sum_games_played(g) as u64,
        total_at_bats: sum_at_bats(g) as u64,
        total_runs: sum_runs(g) as u64,
        total_hits: sum_hits(g) as u64,
        total_doubles: sum_doubles(g) as u64,
        total_triples: sum_triples(g) as u64,
        total_homeruns: sum_homeruns(g) as u64,
        total_rbi: sum_rbi(g) as u64,
        total_walks: sum_walks(g) as u64,
        total_strikeouts: Decimal { millis: sum_strikeouts(g) as u64 },
        total_stolen_bases: sum_stolen_bases(g) as u64,
        total_caught_stealing: sum_caught_stealing(g) as u64,
    }
}

/// The whole aggregation: one career per distinct player link, in
/// first-seen order.
pub open spec fn spec_aggregate(s: Seq<SeasonView>) -> Seq<CareerView> {
    Seq::new(links_of(s).len(), |j: int| career_of(group_of(s, links_of(s)[j])))
}

/// A group never outgrows the store it was filtered from.
pub proof fn lemma_group_len_le(s: Seq<SeasonView>, link: Seq<char>)
    ensures
        group_of(s, link).len() <= s.len(),
    decreases s.len(),
{
    if s.len() > 0 {
        lemma_group_len_le(s.drop_last(), link);
    }
}

/// Every link the store mentions owns at least one season: groups are
/// non-empty by construction.
pub proof fn lemma_link_group_nonempty(s: Seq<SeasonView>, j: int)
    requires
        0 <= j < links_of(s).len(),
    ensures
        group_of(s, links_of(s)[j]).len() >= 1,
    decreases s.len(),
{
    if s.len() > 0 {
        let s0 = s.drop_last();
        assert(plinks_of(s).drop_last() =~= plinks_of(s0));
        assert(plinks_of(s).last() == s.last().player_link);
        let l = links_of(s)[j];
        if j < links_of(s0).len() {
            lemma_link_group_nonempty(s0, j);
        } else {
            assert(l == s.last().player_link);
        }
    }
}

/// No career starts after it ends: the least season of a non-empty
/// group is at most its greatest.
pub proof fn lemma_min_le_max(g: Seq<SeasonView>)
    requires
        g.len() > 0,
    ensures
        min_season(g) <= max_season(g),
    decreases g.len(),
{
    if g.len() > 1 {
        lemma_min_le_max(g.drop_last());
    }
}

/// An order-preserving set never holds a value twice.
pub proof fn lemma_distinct_strs_distinct(s: Seq<Seq<char>>)
    ensures
        forall|i: int, j: int|
            0 <= i < j < distinct_strs(s).len() ==> distinct_strs(s)[i] != distinct_strs(s)[j],
    decreases s.len(),
{
    if s.len() > 0 {
        lemma_distinct_strs_distinct(s.drop_last());
        let d = distinct_strs(s.drop_last());
        let x = s.last();
        if !d.contains(x) {
            assert forall|i: int, j: int|
                0 <= i < j < distinct_strs(s).len() implies distinct_strs(s)[i] != distinct_strs(
                s,
            )[j] by {
                if j == d.len() {
                    assert(distinct_strs(s)[i] == d[i]);
                    if d[i] == x {
                        assert(d.contains(x));
                    }
                }
            }
        }
    }
}

/// Aggregation output reads as a mapping: its keys, the links, are
/// pairwise distinct.
pub proof fn lemma_links_distinct(s: Seq<SeasonView>)
    ensures
        forall|i: int, j: int|
            0 <= i < j < links_of(s).len() ==> links_of(s)[i] != links_of(s)[j],
{
    lemma_distinct_strs_distinct(plinks_of(s));
}

/// Every season of a group carries the link the group is keyed by.
pub proof fn lemma_group_members(s: Seq<SeasonView>, link: Seq<char>)
    ensures
        forall|k: int|
            0 <= k < group_of(s, link).len() ==> (#[trigger] group_of(s, link)[k]).player_link
                == link,
    decreases s.len(),
{
    if s.len() > 0 {
        lemma_group_members(s.drop_last(), link);
    }
}

/// Each career record carries the link of the group it summarizes:
/// `player_link` is the lookup key of the mapping the aggregation
/// returns.
pub proof fn lemma_career_identity(s: Seq<SeasonView>, j: int)
    requires
        0 <= j < links_of(s).len(),
    ensures
        spec_aggregate(s)[j].player_link == links_of(s)[j],
{
    lemma_link_group_nonempty(s, j);
    lemma_group_members(s, links_of(s)[j]);
}

/// A season with an absent rbi contributes nothing to its career
/// total: dropping it from the group leaves the rbi sum unchanged.
/// Substitution of zero happens in the sum alone — the record itself
/// still carries the absence.
pub proof fn lemma_absent_rbi_adds_nothing(g: Seq<SeasonView>, i: int)
    requires
        0 <= i < g.len(),
        g[i].rbi is None,
    ensures
        sum_rbi(g) == sum_rbi(g.remove(i)),
    decreases g.len(),
{
    if i == g.len() - 1 {
        assert(g.remove(i) =~= g.drop_last());
        assert(opt_u32_val(g.last().rbi) == 0);
    } else {
        assert(g.remove(i).drop_last() =~= g.drop_last().remove(i));
        assert(g.remove(i).last() == g.last());
        lemma_absent_rbi_adds_nothing(g.drop_last(), i);
    }
}

/// Each career is shaped by its group: `seasons_played` counts exactly
/// the store rows that share the link, and no career starts after it
/// ends.
pub proof fn lemma_career_shape(s: Seq<SeasonView>, j: int)
    requires
        0 <= j < links_of(s).len(),
        s.len() <= FIELD_MAX,
    ensures
        spec_aggregate(s)[j].seasons_played == group_of(s, links_of(s)[j]).len(),
        spec_aggregate(s)[j].first_season <= spec_aggregate(s)[j].last_season,
{
    let g = group_of(s, links_of(s)[j]);
    lemma_link_group_nonempty(s, j);
    lemma_group_len_le(s, links_of(s)[j]);
    lemma_min_le_max(g);
}

/// Career totals are the sums over the group, exactly: shown here for
/// the always-present homeruns and the optional rbi.
pub proof fn lemma_career_totals(s: Seq<SeasonView>, j: int)
    requires
        0 <= j < links_of(s).len(),
        s.len() <= FIELD_MAX,
    ensures
        spec_aggregate(s)[j].total_homeruns == sum_homeruns(group_of(s, links_of(s)[j])),
        spec_aggregate(s)[j].total_rbi == sum_rbi(group_of(s, links_of(s)[j])),
{
    let g = group_of(s, links_of(s)[j]);
    lemma_group_len_le(s, links_of(s)[j]);
    lemma_sum_homeruns_bounds(g);
    lemma_sum_rbi_bounds(g);
}

/// The homerun sum of a group of `n` seasons lies between zero and
/// `n` times the largest season value.
pub proof fn lemma_sum_homeruns_bounds(g: Seq<SeasonView>)
    ensures
        0 <= sum_homeruns(g) <= g.len() * (FIELD_MAX as int),
    decreases g.len(),
{
    if g.len() > 0 {
        lemma_sum_homeruns_bounds(g.drop_last());
    }
}

/// The rbi sum of a group of `n` seasons lies between zero and `n`
/// times the largest season value.
pub proof fn lemma_sum_rbi_bounds(g: Seq<SeasonView>)
    ensures
        0 <= sum_rbi(g) <= g.len() * (FIELD_MAX as int),
    decreases g.len(),
{
    if g.len() > 0 {
        lemma_sum_rbi_bounds(g.drop_last());
    }
}

/// Index of the first element of `v` with the character content of
/// `s`, if any.
fn find_str(v: &Vec<String>, s: &String) -> (r: Option<usize>)
    ensures
        match r {
            Some(j) => j < v@.len() && str_views(v@)[j as int] == s@,
            None => !str_views(v@).contains(s@),
        },
{
    let mut i: usize = 0;
    while i < v.len()
        invariant
            i <= v@.len(),
            forall|j: int| 0 <= j < i ==> str_views(v@)[j] != s@,
        decreases v@.len() - i,
    {
        if v[i] == *s {
            proof {
                assert(str_views(v@)[i as int] == v@[i as int]@);
            }
            return Some(i);
        }
        proof {
            assert(str_views(v@)[i as int] == v@[i as int]@);
        }
        i = i + 1;
    }
    proof {
        if str_views(v@).contains(s@) {
            let j = choose|j: int| 0 <= j < str_views(v@).len() && str_views(v@)[j] == s@;
            assert(str_views(v@)[j] != s@);
        }
    }
    None
}

/// Folds one non-empty group of seasons into its career summary.
pub fn aggregate_group(grp: &Vec<SeasonRecord>) -> (c: CareerRecord)
    requires
        1 <= grp@.len() <= FIELD_MAX,
        forall|k: int| 0 <= k < grp@.len() ==> (#[trigger] grp@[k])@.valid(),
    ensures
        c@ == career_of(season_views(grp@)),
{
    let ghost g = season_views(grp@);
    let n = grp.len();
    let mut first_season = grp[0].season;
    let mut last_season = grp[0].season;
    let mut games_played: u64 = 0;
    let mut at_bats: u64 = 0;
    let mut runs: u64 = 0;
    let mut hits: u64 = 0;
    let mut doubles: u64 = 0;
    let mut triples: u64 = 0;
    let mut homeruns: u64 = 0;
    let mut rbi: u64 = 0;
    let mut walks: u64 = 0;
    let mut strikeouts: u64 = 0;
    let mut stolen_bases: u64 = 0;
    let mut caught_stealing: u64 = 0;
    let mut positions: Vec<String> = Vec::new();
    let mut teams: Vec<String> = Vec::new();
    let mut i: usize = 0;
    proof {
        assert(g.take(0) =~= Seq::<SeasonView>::empty());
        assert(positions_of(g.take(0)) =~= Seq::<Seq<char>>::empty());
        assert(teams_of(g.take(0)) =~= Seq::<Seq<char>>::empty());
        assert(str_views(positions@) =~= Seq::<Seq<char>>::empty());
        assert(str_views(teams@) =~= Seq::<Seq<char>>::empty());
    }
    while i < n
        invariant
            i <= n,
            n == grp@.len(),
            1 <= n <= FIELD_MAX,
            g == season_views(grp@),
            forall|k: int| 0 <= k < grp@.len() ==> (#[trigger] grp@[k])@.valid(),
            i == 0 ==> first_season == g[0].season && last_season == g[0].season,
            i >= 1 ==> first_season == min_season(g.take(i as int)),
            i >= 1 ==> last_season == max_season(g.take(i as int)),
            games_played == sum_games_played(g.take(i as int)),
            at_bats == sum_at_bats(g.take(i as int)),
            runs == sum_runs(g.take(i as int)),
            hits == sum_hits(g.take(i as int)),
            doubles == sum_doubles(g.take(i as int)),
            triples == sum_triples(g.take(i as int)),
            homeruns == sum_homeruns(g.take(i as int)),
            rbi == sum_rbi(g.take(i as int)),
            walks == sum_walks(g.take(i as int)),
            strikeouts == sum_strikeouts(g.take(i as int)),
            stolen_bases == sum_stolen_bases(g.take(i as int)),
            caught_stealing == sum_caught_stealing(g.take(i as int)),
            games_played <= i * (FIELD_MAX as int),
            at_bats <= i * (FIELD_MAX as int),
            runs <= i * (FIELD_MAX as int),
            hits <= i * (FIELD_MAX as int),
            doubles <= i * (FIELD_MAX as int),
            triples <= i * (FIELD_MAX as int),
            homeruns <= i * (FIELD_MAX as int),
            rbi <= i * (FIELD_MAX as int),
            walks <= i * (FIELD_MAX as int),
            strikeouts <= i * (FIELD_MAX as int),
            stolen_bases <= i * (FIELD_MAX as int),
            caught_stealing <= i * (FIELD_MAX as int),
            str_views(positions@) == distinct_strs(positions_of(g.take(i as int))),
            str_views(teams@) == distinct_strs(teams_of(g.take(i as int))),
        decreases n - i,
    {
        proof {
            assert(g.take(i + 1).drop_last() =~= g.take(i as int));
            assert(g.take(i + 1).last() == g[i as int]);
            assert(g[i as int] == grp@[i as int]@);
            assert(positions_of(g.take(i + 1)).drop_last() =~= positions_of(g.take(i as int)));
            assert(positions_of(g.take(i + 1)).last() == g[i as int].position);
            assert(teams_of(g.take(i + 1)).drop_last() =~= teams_of(g.take(i as int)));
            assert(teams_of(g.take(i + 1)).last() == g[i as int].team);
            if i >= 1 {
                assert(min_season(g.take(i + 1)) == (if g[i as int].season < min_season(
                    g.take(i as int),
                ) {
                    g[i as int].season
                } else {
                    min_season(g.take(i as int))
                }));
            } else {
                assert(g.take(1)[0] == g[0]);
            }
        }
        let r = &grp[i];
        if r.season < first_season {
            first_season = r.season;
        }
        if r.season > last_season {
            last_season = r.season;
        }
        games_played = games_played + (r.games_played as u64);
        at_bats = at_bats + (r.at_bats as u64);
        runs = runs + (r.runs as u64);
        hits = hits + (r.hits as u64);
        doubles = doubles + (r.doubles as u64);
        triples = triples + (r.triples as u64);
        homeruns = homeruns + (r.homeruns as u64);
        walks = walks + (r.walks as u64);
        match r.rbi {
            Some(v) => {
                rbi = rbi + (v as u64);
            },
            None => {},
        }
        match r.strikeouts {
            Some(d) => {
                strikeouts = strikeouts + d.millis;
            },
            None => {},
        }
        match r.stolen_bases {
            Some(v) => {
                stolen_bases = stolen_bases + (v as u64);
            },
            None => {},
        }
        match r.caught_stealing {
            Some(v) => {
                caught_stealing = caught_stealing + (v as u64);
            },
            None => {},
        }
        match find_str(&positions, &r.position) {
            Some(_) => {
                proof {
                    assert(str_views(positions@).contains(g[i as int].position));
                }
            },
            None => {
                positions.push(r.position.clone());
                proof {
                    assert(str_views(positions@) =~= str_views(positions@.drop_last()).push(
                        g[i as int].position,
                    ));
                }
            },
        }
        match find_str(&teams, &r.team) {
            Some(_) => {
                proof {
                    assert(str_views(teams@).contains(g[i as int].team));
                }
            },
            None => {
                teams.push(r.team.clone());
                proof {
                    assert(str_views(teams@) =~= str_views(teams@.drop_last()).push(
                        g[i as int].team,
                    ));
                }
            },
        }
        i = i + 1;
    }
    proof {
        assert(g.take(n as int) =~= g);
        assert(g[0] == grp@[0]@);
    }
    let first = &grp[0];
    CareerRecord {
        player_link: first.player_link.clone(),
        first_name: match &first.first_name {
            Some(name) => name.clone(),
            None => "N/A".to_owned(),
        },
        last_name: first.last_name.clone(),
        first_season,
        last_season,
        seasons_played: n as u32,
        positions,
        teams,
        total_games_played: games_played,
        total_at_bats: at_bats,
        total_runs: runs,
        total_hits: hits,
        total_doubles: doubles,
        total_triples: triples,
        total_homeruns: homeruns,
        total_rbi: rbi,
        total_walks: walks,
        total_strikeouts: Decimal { millis: strikeouts },
        total_stolen_bases: stolen_bases,
        total_caught_stealing: caught_stealing,
    }
}

/// Groups a season store by player link and folds every group into a
/// career record, one per distinct link, in first-seen order. The store
/// itself is only read.
pub fn aggregate(seasons: &Vec<SeasonRecord>) -> (out: Vec<CareerRecord>)
    requires
        seasons@.len() <= FIELD_MAX,
        forall|k: int| 0 <= k < seasons@.len() ==> (#[trigger] seasons@[k])@.valid(),
    ensures
        career_views(out@) == spec_aggregate(season_views(seasons@)),
{
    let ghost sv = season_views(seasons@);
    let mut links: Vec<String> = Vec::new();
    let mut i: usize = 0;
    proof {
        assert(sv.take(0) =~= Seq::<SeasonView>::empty());
        assert(plinks_of(sv.take(0)) =~= Seq::<Seq<char>>::empty());
        assert(str_views(links@) =~= Seq::<Seq<char>>::empty());
    }
    while i < seasons.len()
        invariant
            i <= seasons@.len(),
            sv == season_views(seasons@),
            str_views(links@) == links_of(sv.take(i as int)),
        decreases seasons@.len() - i,
    {
        proof {
            assert(plinks_of(sv.take(i + 1)).drop_last() =~= plinks_of(sv.take(i as int)));
            assert(plinks_of(sv.take(i + 1)).last() == sv[i as int].player_link);
            assert(sv[i as int] == seasons@[i as int]@);
        }
        match find_str(&links, &seasons[i].player_link) {
            Some(_) => {
                proof {
                    assert(str_views(links@).contains(sv[i as int].player_link));
                }
            },
            None => {
                links.push(seasons[i].player_link.clone());
                proof {
                    assert(str_views(links@) =~= str_views(links@.drop_last()).push(
                        sv[i as int].player_link,
                    ));
                }
            },
        }
        i = i + 1;
    }
    proof {
        assert(sv.take(seasons@.len() as int) =~= sv);
    }
    let mut out: Vec<CareerRecord> = Vec::new();
    let mut j: usize = 0;
    while j < links.len()
        invariant
            j <= links@.len(),
            sv == season_views(seasons@),
            seasons@.len() <= FIELD_MAX,
            forall|k: int| 0 <= k < seasons@.len() ==> (#[trigger] seasons@[k])@.valid(),
            str_views(links@) == links_of(sv),
            out@.len() == j,
            forall|k: int| 0 <= k < j ==> career_views(out@)[k] == spec_aggregate(sv)[k],
        decreases links@.len() - j,
    {
        let ghost l = links_of(sv)[j as int];
        proof {
            assert(links@[j as int]@ == str_views(links@)[j as int]);
        }
        let mut grp: Vec<SeasonRecord> = Vec::new();
        let mut i2: usize = 0;
        proof {
            assert(sv.take(0) =~= Seq::<SeasonView>::empty());
        }
        while i2 < seasons.len()
            invariant
                i2 <= seasons@.len(),
                sv == season_views(seasons@),
                j < links@.len(),
                links@[j as int]@ == l,
                forall|k: int| 0 <= k < seasons@.len() ==> (#[trigger] seasons@[k])@.valid(),
                season_views(grp@) == group_of(sv.take(i2 as int), l),
                grp@.len() <= i2,
                forall|k: int| 0 <= k < grp@.len() ==> (#[trigger] grp@[k])@.valid(),
            decreases seasons@.len() - i2,
        {
            proof {
                assert(sv.take(i2 + 1).drop_last() =~= sv.take(i2 as int));
                assert(sv.take(i2 + 1).last() == sv[i2 as int]);
                assert(sv[i2 as int] == seasons@[i2 as int]@);
            }
            if seasons[i2].player_link == links[j] {
                grp.push(clone_season(&seasons[i2]));
                proof {
                    assert(season_views(grp@) =~= season_views(grp@.drop_last()).push(
                        sv[i2 as int],
                    ));
                }
            }
            i2 = i2 + 1;
        }
        proof {
            assert(sv.take(seasons@.len() as int) =~= sv);
            lemma_link_group_nonempty(sv, j as int);
            lemma_group_len_le(sv, l);
        }
        let career = aggregate_group(&grp);
        out.push(career);
        proof {
            assert forall|k: int| 0 <= k < j + 1 implies career_views(out@)[k] == spec_aggregate(
                sv,
            )[k] by {
                if k < j {
                    assert(career_views(out@)[k] == career_views(out@.drop_last())[k]);
                } else {
                    assert(career_views(out@)[k] == out@[k]@);
                }
            }
        }
        j = j + 1;
    }
    proof {
        assert(career_views(out@) =~= spec_aggregate(sv));
    }
    out
}

} // verus!
