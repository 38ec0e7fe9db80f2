//! The time-series trainer: folds real matches, in input order, into a
//! rating table.
//!
//! Each match asks the rating system for one update; the exchange (what
//! was handed over and what came back) is recorded in a ghost log. The
//! contracts pin everything but the arithmetic itself: which ratings were
//! looked up, which weight the division selected, which result was rated,
//! and how the returned ratings were folded into the table.

use vstd::prelude::*;
use crate::bits::{abs_bits, f64_bits_of_u64, f64_abs, f64_from_u64};
use crate::errors::EloError;
use crate::game::{Game, GameV, games_view, spec_abs_goal_diff, year_filter};
use crate::run_config::{ConfigV, RunConfig, RunHyperparameters, RatingSystem, CustomElo,
    RateCall, config_view_or_default};
use crate::seasons::{construct_seasons, get_seasons_in_season_map, check_time_series_interval,
    has_year, years_contain};
use crate::table::{CustomRating, RatingTable, lookup};

verus! {

/// One training step's exchanges: what `sub` returned for the two market
/// values, and the rating call (the record `CustomElo::rate` produced).
pub struct RateExchange {
    /// What `sub` returned for the two market values.
    pub market_sub: u64,
    /// The rating call: the handed-over request and the answered pair.
    pub call: RateCall,
}

/// The table after folding the logged updates of `games` into `start`:
/// per match, the home entry is overwritten, then the away entry.
pub open spec fn table_after(
    start: Map<Seq<char>, u64>,
    games: Seq<GameV>,
    log: Seq<RateExchange>,
) -> Map<Seq<char>, u64>
    decreases games.len(),
{
    if games.len() == 0 || games.len() != log.len() {
        start
    } else {
        let t = table_after(start, games.drop_last(), log.drop_last());
        t.insert(games.last().home, log.last().call.new_one).insert(
            games.last().away,
            log.last().call.new_two,
        )
    }
}

/// What one training step must have handed to the rating system, given
/// the table `t` it saw: the current ratings of the two teams (the
/// default for unseen ones), the record's goal difference and real
/// result, the absolute market-value difference, and the weight of the
/// record's 1-based division.
pub open spec fn rate_request_ok(
    t: Map<Seq<char>, u64>,
    g: GameV,
    e: RateExchange,
    cfg: ConfigV,
    default: u64,
) -> bool {
    &&& e.call.player_one == lookup(t, g.home, default)
    &&& e.call.player_two == lookup(t, g.away, default)
    &&& e.call.goal_diff_bits == f64_bits_of_u64(spec_abs_goal_diff(g) as u64)
    &&& e.call.market_value_diff == abs_bits(e.market_sub)
    &&& 1 <= g.division <= cfg.w_division.len()
    &&& e.call.division_weight == cfg.w_division[g.division - 1]
    &&& e.call.outcome == g.result
}

/// Every logged exchange of a training pass handed over exactly what the
/// table built so far dictated.
pub open spec fn train_log_ok(
    start: Map<Seq<char>, u64>,
    games: Seq<GameV>,
    log: Seq<RateExchange>,
    cfg: ConfigV,
    default: u64,
) -> bool
    decreases games.len(),
{
    if games.len() != log.len() {
        false
    } else if games.len() == 0 {
        true
    } else {
        &&& train_log_ok(start, games.drop_last(), log.drop_last(), cfg, default)
        &&& rate_request_ok(
            table_after(start, games.drop_last(), log.drop_last()),
            games.last(),
            log.last(),
            cfg,
            default,
        )
    }
}

/// Every record names a division inside the weight vector.
pub open spec fn valid_divisions(s: Seq<GameV>, cfg: ConfigV) -> bool {
    forall|i: int| 0 <= i < s.len() ==> 1 <= #[trigger] s[i].division <= cfg.w_division.len()
}

/// The starting table's map, empty when none is handed in.
pub open spec fn start_map(starting: Option<RatingTable>) -> Map<Seq<char>, u64> {
    match starting {
        Some(t) => t@,
        None => Map::empty(),
    }
}

/// Trains one season: folds the matches in input order into the starting
/// table (the default when none is given), rating each match with the
/// given configuration (the default when none is given) and overwriting
/// both teams' entries. Returns the table and the log of rating-system
/// exchanges; the table equals the logged fold exactly.
pub fn construct_elo_table_for_year<K: RatingSystem>(
    kernel: &K,
    matches: &Vec<Game>,
    starting_elos: Option<RatingTable>,
    elo_config: Option<&RunConfig>,
    run_hyperparameters: &RunHyperparameters,
) -> (r: (RatingTable, Ghost<Seq<RateExchange>>))
    requires
        (starting_elos matches Some(t) ==> t.wf()),
        valid_divisions(games_view(matches@), config_view_or_default(elo_config)),
    ensures
        r.0.wf(),
        train_log_ok(
            start_map(starting_elos),
            games_view(matches@),
            r.1@,
            config_view_or_default(elo_config),
            f64_bits_of_u64(run_hyperparameters.starting_elo as u64),
        ),
        r.0@ == table_after(start_map(starting_elos), games_view(matches@), r.1@),
{
    let ghost cfg_v = config_view_or_default(elo_config);
    let ghost all = games_view(matches@);
    let custom_elo = CustomElo { config: RunConfig::clone_or_default(elo_config) };
    let default_bits = f64_from_u64(run_hyperparameters.starting_elo as u64);
    let mut elo_table = match starting_elos {
        Some(elos) => elos,
        None => RatingTable::new(),
    };
    let ghost start = elo_table@;
    proof {
        assert(start == start_map(starting_elos));
    }
    let mut log: Ghost<Seq<RateExchange>> = Ghost(Seq::empty());
    let n = matches.len();
    let mut i: usize = 0;
    proof {
        assert(all.take(0) =~= Seq::<GameV>::empty());
    }
    while i < n
        invariant
            i <= n,
            n == matches@.len(),
            all == games_view(matches@),
            custom_elo.config@ == cfg_v,
            valid_divisions(all, cfg_v),
            default_bits == f64_bits_of_u64(run_hyperparameters.starting_elo as u64),
            elo_table.wf(),
            log@.len() == i,
            train_log_ok(start, all.take(i as int), log@, cfg_v, default_bits),
            elo_table@ == table_after(start, all.take(i as int), log@),
        decreases n - i,
    {
        assert(all[i as int] == matches@[i as int]@);
        let home_rating = elo_table.rating_or(&matches[i].home, default_bits);
        let away_rating = elo_table.rating_or(&matches[i].away, default_bits);
        let goal_diff = matches[i].abs_goal_diff();
        let market_sub = kernel.sub(matches[i].home_value, matches[i].away_value);
        let market_value_diff = f64_abs(market_sub);
        let division = matches[i].division as usize;
        proof {
            assert(1 <= all[i as int].division <= cfg_v.w_division.len());
        }
        let (new_home, new_away, rate_call) = custom_elo.rate(
            kernel,
            &CustomRating { rating: home_rating },
            &CustomRating { rating: away_rating },
            matches[i].result,
            goal_diff,
            market_value_diff,
            division,
        );
        let ghost e = RateExchange { market_sub, call: rate_call@ };
        let ghost table_before = elo_table@;
        elo_table.insert(matches[i].home.clone(), new_home.rating);
        elo_table.insert(matches[i].away.clone(), new_away.rating);
        proof {
            let prev = log@;
            log@ = log@.push(e);
            assert(all.take(i + 1).drop_last() =~= all.take(i as int));
            assert(log@.drop_last() =~= prev);
            assert(all.take(i + 1).last() == all[i as int]);
            assert(rate_request_ok(table_before, all[i as int], e, cfg_v, default_bits));
            assert(train_log_ok(start, all.take(i + 1), log@, cfg_v, default_bits));
            assert(elo_table@ == table_after(start, all.take(i + 1), log@));
        }
        i = i + 1;
    }
    proof {
        assert(all.take(n as int) =~= all);
    }
    (elo_table, log)
}

/// Training is a fold: training on one list and then on a second, the
/// second seeded with the first's table, is the same as training once on
/// the concatenation (with the concatenated exchange logs).
pub proof fn lemma_train_fold_concat(
    start: Map<Seq<char>, u64>,
    g1: Seq<GameV>,
    g2: Seq<GameV>,
    l1: Seq<RateExchange>,
    l2: Seq<RateExchange>,
    cfg: ConfigV,
    default: u64,
)
    requires
        train_log_ok(start, g1, l1, cfg, default),
        train_log_ok(table_after(start, g1, l1), g2, l2, cfg, default),
    ensures
        train_log_ok(start, g1 + g2, l1 + l2, cfg, default),
        table_after(start, g1 + g2, l1 + l2) == table_after(table_after(start, g1, l1), g2, l2),
    decreases g2.len(),
{
    let t1 = table_after(start, g1, l1);
    if g2.len() == 0 {
        assert(g1 + g2 =~= g1);
        assert(l1 + l2 =~= l1);
    } else {
        lemma_train_fold_concat(start, g1, g2.drop_last(), l1, l2.drop_last(), cfg, default);
        assert((g1 + g2).drop_last() =~= g1 + g2.drop_last());
        assert((l1 + l2).drop_last() =~= l1 + l2.drop_last());
        assert((g1 + g2).last() == g2.last());
        assert((l1 + l2).last() == l2.last());
        assert((g1 + g2).len() == (l1 + l2).len());
    }
}

/// Training is deterministic: the final table is a function of the
/// starting table, the match list and the recorded arithmetic answers
/// alone — two runs that agree on those agree on the table. (The
/// training functions' contracts equate their output with this very
/// fold of their explicit inputs, so nothing else can influence it.)
pub proof fn lemma_training_deterministic(
    s1: Map<Seq<char>, u64>,
    s2: Map<Seq<char>, u64>,
    g1: Seq<GameV>,
    g2: Seq<GameV>,
    l1: Seq<RateExchange>,
    l2: Seq<RateExchange>,
)
    requires
        s1 == s2,
        g1 == g2,
        l1 == l2,
    ensures
        table_after(s1, g1, l1) == table_after(s2, g2, l2),
{
}

/// Time-series training is deterministic in the same way: the chained
/// table is a function of the match list, the year range and the
/// recorded arithmetic answers alone.
pub proof fn lemma_time_series_deterministic(
    s1: Map<Seq<char>, u64>,
    s2: Map<Seq<char>, u64>,
    all1: Seq<GameV>,
    all2: Seq<GameV>,
    logs1: Seq<Seq<RateExchange>>,
    logs2: Seq<Seq<RateExchange>>,
    start_year: u16,
    count: nat,
)
    requires
        s1 == s2,
        all1 == all2,
        logs1 == logs2,
    ensures
        series_table_after(s1, all1, logs1, start_year, count) == series_table_after(
            s2,
            all2,
            logs2,
            start_year,
            count,
        ),
{
}

/// A season with no matches leaves the starting table unchanged.
pub proof fn lemma_empty_season_training(start: Map<Seq<char>, u64>)
    ensures
        table_after(start, Seq::<GameV>::empty(), Seq::<RateExchange>::empty()) == start,
{
}

/// The table after chaining one season's fold per year, `count` years
/// from `start_year` upward, each season being its year's slice of the
/// full match list.
pub open spec fn series_table_after(
    start: Map<Seq<char>, u64>,
    all: Seq<GameV>,
    logs: Seq<Seq<RateExchange>>,
    start_year: u16,
    count: nat,
) -> Map<Seq<char>, u64>
    decreases count,
{
    if count == 0 || logs.len() != count {
        start
    } else {
        let prev = series_table_after(start, all, logs.drop_last(), start_year, (count - 1) as nat);
        table_after(prev, year_filter(all, (start_year + count - 1) as u16), logs.last())
    }
}

/// Every season's log of the chain is a valid training log of its year's
/// slice, seeded from the table the chain had built so far.
pub open spec fn series_log_ok(
    start: Map<Seq<char>, u64>,
    all: Seq<GameV>,
    logs: Seq<Seq<RateExchange>>,
    cfg: ConfigV,
    default: u64,
    start_year: u16,
    count: nat,
) -> bool
    decreases count,
{
    if logs.len() != count {
        false
    } else if count == 0 {
        true
    } else {
        &&& series_log_ok(start, all, logs.drop_last(), cfg, default, start_year, (count - 1) as nat)
        &&& train_log_ok(
            series_table_after(start, all, logs.drop_last(), start_year, (count - 1) as nat),
            year_filter(all, (start_year + count - 1) as u16),
            logs.last(),
            cfg,
            default,
        )
    }
}

/// Elements of a year's slice come from the full list.
proof fn lemma_year_filter_element_of(s: Seq<GameV>, year: u16, i: int)
    requires
        0 <= i < year_filter(s, year).len(),
    ensures
        exists|j: int| 0 <= j < s.len() && s[j] == year_filter(s, year)[i],
    decreases s.len(),
{
    if s.len() > 0 {
        let f = year_filter(s, year);
        let fd = year_filter(s.drop_last(), year);
        assert(f == if s.last().year == year {
            fd.push(s.last())
        } else {
            fd
        }) by {
            reveal_with_fuel(Seq::filter, 2);
        }
        if s.last().year == year && i == f.len() - 1 {
            assert(s[s.len() - 1] == f[i]);
        } else {
            assert(f[i] == fd[i]);
            lemma_year_filter_element_of(s.drop_last(), year, i);
            let j = choose|j: int| 0 <= j < s.drop_last().len() && s.drop_last()[j] == fd[i];
            assert(s[j] == f[i]);
        }
    }
}

/// A division-valid match list stays division-valid when sliced by year.
pub proof fn lemma_valid_divisions_filter(s: Seq<GameV>, year: u16, cfg: ConfigV)
    requires
        valid_divisions(s, cfg),
    ensures
        valid_divisions(year_filter(s, year), cfg),
{
    let f = year_filter(s, year);
    assert forall|i: int| 0 <= i < f.len() implies 1 <= #[trigger] f[i].division
        <= cfg.w_division.len() by {
        lemma_year_filter_element_of(s, year, i);
    }
}

/// Trains a contiguous range of years in ascending order, feeding each
/// year's table into the next (ratings persist across seasons). Fails
/// with the first year of the range that has no matches; never otherwise.
pub fn construct_elo_table_for_time_series<K: RatingSystem>(
    kernel: &K,
    all_matches: &Vec<Game>,
    elo_config: Option<&RunConfig>,
    run_hyperparameters: &RunHyperparameters,
    start_year: u16,
    end_year: u16,
) -> (r: Result<(RatingTable, Ghost<Seq<Seq<RateExchange>>>), EloError>)
    requires
        start_year <= end_year,
        valid_divisions(games_view(all_matches@), config_view_or_default(elo_config)),
    ensures
        match r {
            Ok((table, logs)) => {
                &&& forall|y: u16| start_year <= y <= end_year ==> has_year(
                    games_view(all_matches@),
                    y,
                )
                &&& table.wf()
                &&& logs@.len() == end_year - start_year + 1
                &&& series_log_ok(
                    Map::empty(),
                    games_view(all_matches@),
                    logs@,
                    config_view_or_default(elo_config),
                    f64_bits_of_u64(run_hyperparameters.starting_elo as u64),
                    start_year,
                    (end_year - start_year + 1) as nat,
                )
                &&& table@ == series_table_after(
                    Map::empty(),
                    games_view(all_matches@),
                    logs@,
                    start_year,
                    (end_year - start_year + 1) as nat,
                )
            },
            Err(e) => e matches EloError::MissingYear(y) && start_year <= y <= end_year
                && !has_year(games_view(all_matches@), y),
        },
{
    let ghost all = games_view(all_matches@);
    let ghost cfg_v = config_view_or_default(elo_config);
    let ghost default_bits = f64_bits_of_u64(run_hyperparameters.starting_elo as u64);
    let seasons_map = construct_seasons(all_matches);
    let years_in_season_map = get_seasons_in_season_map(&seasons_map);
    proof {
        assert forall|z: u16| years_in_season_map@.contains(z) <==> has_year(all, z) by {}
    }
    if !check_time_series_interval(&years_in_season_map, start_year, end_year) {
        let mut y: u16 = start_year;
        while y < end_year
            invariant
                start_year <= y <= end_year,
                all == games_view(all_matches@),
                forall|z: u16| years_in_season_map@.contains(z) <==> has_year(all, z),
                !(forall|z: u16| start_year <= z <= end_year
                    ==> years_in_season_map@.contains(z)),
                forall|z: u16| start_year <= z < y ==> years_in_season_map@.contains(z),
            decreases end_year - y,
        {
            if !years_contain(&years_in_season_map, y) {
                return Err(EloError::MissingYear(y));
            }
            y = y + 1;
        }
        if !years_contain(&years_in_season_map, end_year) {
            return Err(EloError::MissingYear(end_year));
        }
        proof {
            assert(forall|z: u16| start_year <= z <= end_year ==> years_in_season_map@.contains(
                z,
            ));
            assert(false);
        }
        return Err(EloError::MissingYear(start_year));
    }
    proof {
        assert forall|y: u16| start_year <= y <= end_year implies has_year(all, y) by {
            assert(years_in_season_map@.contains(y));
        }
    }
    let total: usize = (end_year - start_year) as usize + 1;
    let mut table = RatingTable::new();
    let mut logs: Ghost<Seq<Seq<RateExchange>>> = Ghost(Seq::empty());
    let mut c: usize = 0;
    while c < total
        invariant
            c <= total,
            total == end_year - start_year + 1,
            start_year <= end_year,
            all == games_view(all_matches@),
            cfg_v == config_view_or_default(elo_config),
            default_bits == f64_bits_of_u64(run_hyperparameters.starting_elo as u64),
            seasons_map.wf(),
            forall|y: u16| seasons_map@.contains_key(y) <==> has_year(all, y),
            forall|y: u16| seasons_map@.contains_key(y) ==> seasons_map@[y] == year_filter(all, y),
            forall|y: u16| start_year <= y <= end_year ==> has_year(all, y),
            valid_divisions(all, cfg_v),
            table.wf(),
            logs@.len() == c,
            series_log_ok(Map::empty(), all, logs@, cfg_v, default_bits, start_year, c as nat),
            table@ == series_table_after(Map::empty(), all, logs@, start_year, c as nat),
        decreases total - c,
    {
        let year = start_year + (c as u16);
        let season = match seasons_map.get(year) {
            Some(games) => games,
            None => {
                proof {
                    assert(has_year(all, year));
                    assert(false);
                }
                return Err(EloError::MissingYear(year));
            },
        };
        proof {
            lemma_valid_divisions_filter(all, year, cfg_v);
            assert(games_view(season@) == year_filter(all, year));
        }
        let ghost table_before = table@;
        let (new_table, season_log) = construct_elo_table_for_year(
            kernel,
            season,
            Some(table),
            elo_config,
            run_hyperparameters,
        );
        table = new_table;
        proof {
            let prev = logs@;
            logs@ = logs@.push(season_log@);
            assert(logs@.drop_last() =~= prev);
            assert(logs@.last() == season_log@);
            assert(start_year + (c + 1) - 1 == year);
            assert(series_log_ok(
                Map::empty(),
                all,
                logs@,
                cfg_v,
                default_bits,
                start_year,
                (c + 1) as nat,
            ));
            assert(table@ == series_table_after(
                Map::empty(),
                all,
                logs@,
                start_year,
                (c + 1) as nat,
            ));
        }
        c = c + 1;
    }
    Ok((table, logs))
}

} // verus!
