//! Ranking engine: top-K selection under a stable descending order.
//!
//! A ranking is described by the permutation of input positions it
//! reads the records through: keys weakly decrease along it, and equal
//! keys keep their input order. That permutation is unique, so the
//! contracts here pin the output exactly.

use vstd::prelude::*;

use crate::aggregate::{career_views, CareerRecord, CareerView};
use crate::record::{clone_season, season_views, SeasonRecord, SeasonView};

verus! {

/// Fewer records exist than the caller asked to rank. The engine fails
/// fast rather than silently returning a shorter table.
#[derive(Clone, Copy, Debug, PartialEq, Eq, Structural)]
pub struct InsufficientDataError {}

/// The season-level metrics a ranking can use.
#[derive(Clone, Copy, Debug, PartialEq, Eq, Structural)]
pub enum SeasonMetric {
    Homeruns,
    Hits,
}

/// The career-level metrics a ranking can use.
#[derive(Clone, Copy, Debug, PartialEq, Eq, Structural)]
pub enum CareerMetric {
    TotalHomeruns,
    TotalGamesPlayed,
}

pub open spec fn season_key(r: SeasonView, m: SeasonMetric) -> u64 {
    match m {
        SeasonMetric::Homeruns => r.homeruns as u64,
        SeasonMetric::Hits => r.hits as u64,
    }
}

pub open spec fn career_key(c: CareerView, m: CareerMetric) -> u64 {
    match m {
        CareerMetric::TotalHomeruns => c.total_homeruns,
        CareerMetric::TotalGamesPlayed => c.total_games_played,
    }
}

pub open spec fn season_keys(s: Seq<SeasonView>, m: SeasonMetric) -> Seq<u64> {
    s.map_values(|r: SeasonView| season_key(r, m))
}

pub open spec fn career_keys(s: Seq<CareerView>, m: CareerMetric) -> Seq<u64> {
    s.map_values(|c: CareerView| career_key(c, m))
}

/// `r` reads the key list in stable descending order: it is a
/// permutation of all input positions along which keys weakly decrease,
/// and positions with equal keys stay in input order. Exactly one such
/// permutation exists.
pub open spec fn rank_ordered(keys: Seq<u64>, r: Seq<usize>) -> bool {
    &&& r.len() == keys.len()
    &&& forall|a: int| 0 <= a < r.len() ==> (#[trigger] r[a]) < keys.len()
    &&& forall|a: int, b: int|
        0 <= a < b < r.len() ==> keys[(#[trigger] r[a]) as int] > keys[(#[trigger] r[b]) as int]
            || (keys[r[a] as int] == keys[r[b] as int] && r[a] < r[b])
    &&& forall|v: usize| v < keys.len() ==> #[trigger] r.contains(v)
}

/// Keys never increase along a ranking.
pub proof fn lemma_rank_sorted(keys: Seq<u64>, r: Seq<usize>, a: int, b: int)
    requires
        rank_ordered(keys, r),
        0 <= a < b < r.len(),
    ensures
        keys[r[a] as int] >= keys[r[b] as int],
{
}

/// Ties keep their input order: two positions with equal keys appear in
/// the ranking in the order the input gave them.
pub proof fn lemma_rank_stability(keys: Seq<u64>, r: Seq<usize>, a: int, b: int)
    requires
        rank_ordered(keys, r),
        0 <= a < b < r.len(),
        keys[r[a] as int] == keys[r[b] as int],
    ensures
        r[a] < r[b],
{
}

/// The stable descending order of positions of `keys`: an insertion
/// sort that places each new position after every at-least-as-large key
/// already placed.
pub fn rank_order(keys: &Vec<u64>) -> (r: Vec<usize>)
    ensures
        rank_ordered(keys@, r@),
{
    let mut r: Vec<usize> = Vec::new();
    let mut i: usize = 0;
    while i < keys.len()
        invariant
            i <= keys@.len(),
            r@.len() == i,
            forall|a: int| 0 <= a < r@.len() ==> (#[trigger] r@[a]) < i,
            forall|a: int, b: int|
                0 <= a < b < r@.len() ==> keys@[(#[trigger] r@[a]) as int] > keys@[(
                #[trigger] r@[b]) as int] || (keys@[r@[a] as int] == keys@[r@[b] as int] && r@[a]
                    < r@[b]),
            forall|v: usize| v < i ==> #[trigger] r@.contains(v),
        decreases keys@.len() - i,
    {
        let mut pos: usize = 0;
        while pos < r.len() && keys[r[pos]] >= keys[i]
            invariant
                pos <= r@.len(),
                i < keys@.len(),
                r@.len() == i,
                forall|a: int| 0 <= a < r@.len() ==> (#[trigger] r@[a]) < i,
                forall|a: int| 0 <= a < pos ==> keys@[(#[trigger] r@[a]) as int] >= keys@[i as int],
            decreases r@.len() - pos,
        {
            pos = pos + 1;
        }
        let ghost old_r = r@;
        r.insert(pos, i);
        proof {
            assert forall|a: int, b: int| 0 <= a < b < r@.len() implies keys@[(
            #[trigger] r@[a]) as int] > keys@[(#[trigger] r@[b]) as int] || (keys@[r@[a] as int]
                == keys@[r@[b] as int] && r@[a] < r@[b]) by {
                if b < pos {
                    assert(r@[a] == old_r[a] && r@[b] == old_r[b]);
                } else if a < pos && b == pos {
                    assert(r@[a] == old_r[a] && r@[b] == i);
                    assert(keys@[old_r[a] as int] >= keys@[i as int]);
                    assert(old_r[a] < i);
                } else if a < pos && b > pos {
                    assert(r@[a] == old_r[a] && r@[b] == old_r[b - 1]);
                } else if a == pos {
                    assert(r@[a] == i && r@[b] == old_r[b - 1]);
                    assert(pos <= b - 1 < old_r.len());
                    if pos < b - 1 {
                        assert(keys@[old_r[pos as int] as int] > keys@[old_r[b - 1] as int] || (
                        keys@[old_r[pos as int] as int] == keys@[old_r[b - 1] as int] && old_r[
                            pos as int] < old_r[b - 1]));
                    }
                    assert(keys@[old_r[pos as int] as int] < keys@[i as int]);
                } else {
                    assert(r@[a] == old_r[a - 1] && r@[b] == old_r[b - 1]);
                }
            }
            assert forall|v: usize| v < i + 1 implies #[trigger] r@.contains(v) by {
                if v == i {
                    assert(r@[pos as int] == v);
                } else {
                    assert(old_r.contains(v));
                    let a = choose|a: int| 0 <= a < old_r.len() && old_r[a] == v;
                    if a < pos {
                        assert(r@[a] == v);
                    } else {
                        assert(r@[a + 1] == v);
                    }
                }
            }
        }
        i = i + 1;
    }
    r
}

/// `out` is the `k` first records of `s` read through its stable
/// descending ranking under `m`.
pub open spec fn season_ranked(
    s: Seq<SeasonView>,
    m: SeasonMetric,
    k: int,
    out: Seq<SeasonView>,
) -> bool {
    exists|ord: Seq<usize>|
        #![trigger rank_ordered(season_keys(s, m), ord)]
        rank_ordered(season_keys(s, m), ord) && out.len() == k && (forall|a: int|
            0 <= a < k ==> out[a] == s[(#[trigger] ord[a]) as int])
}

/// `out` is the `k` first careers of `s` read through its stable
/// descending ranking under `m`.
pub open spec fn career_ranked(
    s: Seq<CareerView>,
    m: CareerMetric,
    k: int,
    out: Seq<CareerView>,
) -> bool {
    exists|ord: Seq<usize>|
        #![trigger rank_ordered(career_keys(s, m), ord)]
        rank_ordered(career_keys(s, m), ord) && out.len() == k && (forall|a: int|
            0 <= a < k ==> out[a] == s[(#[trigger] ord[a]) as int])
}

/// The top `k` seasons under `metric`, stable descending. Asking for
/// more rows than exist is refused, never silently truncated.
pub fn rank_seasons(seasons: &Vec<SeasonRecord>, metric: SeasonMetric, k: usize) -> (res: Result<
    Vec<SeasonRecord>,
    InsufficientDataError,
>)
    ensures
        match res {
            Ok(v) => k <= seasons@.len() && season_ranked(
                season_views(seasons@),
                metric,
                k as int,
                season_views(v@),
            ),
            Err(_) => k > seasons@.len(),
        },
{
    let ghost sv = season_views(seasons@);
    if k > seasons.len() {
        return Err(InsufficientDataError {});
    }
    let mut keys: Vec<u64> = Vec::new();
    let mut i: usize = 0;
    proof {
        assert(season_keys(sv.take(0), metric) =~= Seq::<u64>::empty());
    }
    while i < seasons.len()
        invariant
            i <= seasons@.len(),
            sv == season_views(seasons@),
            keys@ == season_keys(sv.take(i as int), metric),
        decreases seasons@.len() - i,
    {
        proof {
            assert(season_keys(sv.take(i + 1), metric).drop_last() =~= season_keys(
                sv.take(i as int),
                metric,
            ));
            assert(season_keys(sv.take(i + 1), metric).last() == season_key(sv[i as int], metric));
            assert(sv[i as int] == seasons@[i as int]@);
        }
        let key = match metric {
            SeasonMetric::Homeruns => seasons[i].homeruns as u64,
            SeasonMetric::Hits => seasons[i].hits as u64,
        };
        keys.push(key);
        proof {
            assert(keys@ =~= season_keys(sv.take(i + 1), metric));
        }
        i = i + 1;
    }
    proof {
        assert(sv.take(seasons@.len() as int) =~= sv);
    }
    let ord = rank_order(&keys);
    let mut out: Vec<SeasonRecord> = Vec::new();
    let mut a: usize = 0;
    while a < k
        invariant
            a <= k <= seasons@.len(),
            sv == season_views(seasons@),
            keys@ == season_keys(sv, metric),
            rank_ordered(keys@, ord@),
            out@.len() == a,
            forall|b: int| 0 <= b < a ==> season_views(out@)[b] == sv[(#[trigger] ord@[b]) as int],
        decreases k - a,
    {
        let idx = ord[a];
        out.push(clone_season(&seasons[idx]));
        proof {
            assert forall|b: int| 0 <= b < a + 1 implies season_views(out@)[b] == sv[(
            #[trigger] ord@[b]) as int] by {
                if b < a {
                    assert(season_views(out@)[b] == out@[b]@);
                    assert(season_views(out@.drop_last())[b] == out@.drop_last()[b]@);
                } else {
                    assert(season_views(out@)[b] == out@[b]@);
                }
            }
        }
        a = a + 1;
    }
    proof {
        assert(rank_ordered(season_keys(sv, metric), ord@));
        assert(season_views(out@).len() == k as int);
    }
    Ok(out)
}

/// A copy of a list of names with the same character content.
fn clone_string_vec(v: &Vec<String>) -> (r: Vec<String>)
    ensures
        crate::aggregate::str_views(r@) == crate::aggregate::str_views(v@),
{
    let mut r: Vec<String> = Vec::new();
    let mut i: usize = 0;
    while i < v.len()
        invariant
            i <= v@.len(),
            r@.len() == i,
            forall|j: int| 0 <= j < i ==> (#[trigger] r@[j])@ == v@[j]@,
        decreases v@.len() - i,
    {
        r.push(v[i].clone());
        i = i + 1;
    }
    proof {
        assert(crate::aggregate::str_views(r@) =~= crate::aggregate::str_views(v@));
    }
    r
}

/// A copy of a career record with the same view.
pub fn clone_career(c: &CareerRecord) -> (r: CareerRecord)
    ensures
        r@ == c@,
{
    let r = CareerRecord {
        player_link: c.player_link.clone(),
        first_name: c.first_name.clone(),
        last_name: c.last_name.clone(),
        first_season: c.first_season,
        last_season: c.last_season,
        seasons_played: c.seasons_played,
        positions: clone_string_vec(&c.positions),
        teams: clone_string_vec(&c.teams),
        total_games_played: c.total_games_played,
        total_at_bats: c.total_at_bats,
        total_runs: c.total_runs,
        total_hits: c.total_hits,
        total_doubles: c.total_doubles,
        total_triples: c.total_triples,
        total_homeruns: c.total_homeruns,
        total_rbi: c.total_rbi,
        total_walks: c.total_walks,
        total_strikeouts: c.total_strikeouts,
        total_stolen_bases: c.total_stolen_bases,
        total_caught_stealing: c.total_caught_stealing,
    };
    r
}

/// The top `k` careers under `metric`, stable descending. Asking for
/// more rows than exist is refused, never silently truncated.
pub fn rank_careers(careers: &Vec<CareerRecord>, metric: CareerMetric, k: usize) -> (res: Result<
    Vec<CareerRecord>,
    InsufficientDataError,
>)
    ensures
        match res {
            Ok(v) => k <= careers@.len() && career_ranked(
                career_views(careers@),
                metric,
                k as int,
                career_views(v@),
            ),
            Err(_) => k > careers@.len(),
        },
{
    let ghost cv = career_views(careers@);
    if k > careers.len() {
        return Err(InsufficientDataError {});
    }
    let mut keys: Vec<u64> = Vec::new();
    let mut i: usize = 0;
    proof {
        assert(career_keys(cv.take(0), metric) =~= Seq::<u64>::empty());
    }
    while i < careers.len()
        invariant
            i <= careers@.len(),
            cv == career_views(careers@),
            keys@ == career_keys(cv.take(i as int), metric),
        decreases careers@.len() - i,
    {
        proof {
            assert(career_keys(cv.take(i + 1), metric).drop_last() =~= career_keys(
                cv.take(i as int),
                metric,
            ));
            assert(career_keys(cv.take(i + 1), metric).last() == career_key(cv[i as int], metric));
            assert(cv[i as int] == careers@[i as int]@);
        }
        let key = match metric {
            CareerMetric::TotalHomeruns => careers[i].total_homeruns,
            CareerMetric::TotalGamesPlayed => careers[i].total_games_played,
        };
        keys.push(key);
        proof {
            assert(keys@ =~= career_keys(cv.take(i + 1), metric));
        }
        i = i + 1;
    }
    proof {
        assert(cv.take(careers@.len() as int) =~= cv);
    }
    let ord = rank_order(&keys);
    let mut out: Vec<CareerRecord> = Vec::new();
    let mut a: usize = 0;
    while a < k
        invariant
            a <= k <= careers@.len(),
            cv == career_views(careers@),
            keys@ == career_keys(cv, metric),
            rank_ordered(keys@, ord@),
            out@.len() == a,
            forall|b: int| 0 <= b < a ==> career_views(out@)[b] == cv[(#[trigger] ord@[b]) as int],
        decreases k - a,
    {
        let idx = ord[a];
        out.push(clone_career(&careers[idx]));
        proof {
            assert forall|b: int| 0 <= b < a + 1 implies career_views(out@)[b] == cv[(
            #[trigger] ord@[b]) as int] by {
                if b < a {
                    assert(career_views(out@)[b] == out@[b]@);
                    assert(career_views(out@.drop_last())[b] == out@.drop_last()[b]@);
                } else {
                    assert(career_views(out@)[b] == out@[b]@);
                }
            }
        }
        a = a + 1;
    }
    proof {
        assert(rank_ordered(career_keys(cv, metric), ord@));
        assert(career_views(out@).len() == k as int);
    }
    Ok(out)
}

} // verus!
