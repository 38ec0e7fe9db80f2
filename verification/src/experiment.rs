//! The backtest harness.
//!
//! One evaluation trains a starting table over the training window, then
//! replays every later season under several independent seeds: each
//! replay simulates the season, recomputes the real table under the
//! season's adapted configuration, compares the two standings, and
//! reduces the comparison to one error value. The real table — never the
//! simulated one — is carried into the next season, so simulation error
//! does not compound. The per-variation error rows are transposed and
//! averaged into one mean error per season: the fitness signal.

use vstd::prelude::*;
use crate::bits::{f64_bits_of_u64, f64_bits_of_i64};
use crate::errors::EloError;
use crate::game::{Game, GameV, games_view, year_filter};
use crate::math::{RmseLog, MeanLog, rmse_result, calculate_rmse, transpose_matrix, mean,
    BITS_1000};
use crate::run_config::{ConfigV, RunConfig, RunHyperparameters, RatingSystem, parsed_config,
    parsed_hyperparameters};
use crate::seasons::{SeasonMap, construct_seasons, get_seasons_in_season_map,
    check_time_series_interval, has_year, years_contain, lemma_year_filter_nonempty};
use crate::simulate::{SimLog, simulate_season, adapted_config, sim_log_ok, sim_summary_ok,
    sim_table_after, sim_games_view};
use crate::standings::{compare_standing_tables, count_unique_teams, points_after,
    standings_diff, unique_home_count, lemma_points_bounds, lemma_unique_home_positive};
use crate::table::RatingTable;
use crate::train::{RateExchange, construct_elo_table_for_year,
    construct_elo_table_for_time_series, table_after, train_log_ok, series_log_ok,
    series_table_after, valid_divisions, lemma_valid_divisions_filter};

verus! {

/// Everything one season's replay exchanged: the simulation record, the
/// real-table retraining record, the standings comparison, and the error
/// aggregation record with the error it produced.
pub struct SeasonLog {
    pub sim: SimLog,
    pub train: Seq<RateExchange>,
    pub standings: Seq<(Seq<char>, i64)>,
    pub rmse: RmseLog,
    pub error: u64,
}

/// One season's replay, seeded from table `t` and configuration `c`:
/// the simulation and the retraining both start from `t`; the retraining
/// rates under the adapted configuration; the standings comparison holds
/// real against simulated points; the aggregation reads the comparison's
/// differences over the count of distinct home teams; and the error is
/// the aggregation cascade's exact outcome.
pub open spec fn season_log_ok(
    t: Map<Seq<char>, u64>,
    c: ConfigV,
    season_games: Seq<GameV>,
    l: SeasonLog,
    default: u64,
    seed: u64,
) -> bool {
    let adapted = adapted_config(c, l.sim.summary, season_games.len());
    let real_pts = points_after(season_games);
    let sim_pts = points_after(sim_games_view(season_games, l.sim.exchanges));
    &&& sim_log_ok(t, season_games, l.sim.exchanges, c, default, seed)
    &&& sim_summary_ok(l.sim.summary, season_games)
    &&& train_log_ok(t, season_games, l.train, adapted, default)
    &&& forall|j: int| 0 <= j < l.standings.len() ==> real_pts.contains_key(
        (#[trigger] l.standings[j]).0,
    ) && l.standings[j].1 == standings_diff(real_pts, sim_pts, l.standings[j].0)
    &&& forall|k: Seq<char>| real_pts.contains_key(k) ==> exists|j: int|
        0 <= j < l.standings.len() && (#[trigger] l.standings[j]).0 == k
    &&& l.rmse.n == unique_home_count(season_games)
    &&& l.rmse.diff_bits.len() == l.standings.len()
    &&& forall|j: int| 0 <= j < l.standings.len() ==> l.rmse.diff_bits[j] == f64_bits_of_i64(
        (#[trigger] l.standings[j]).1,
    )
    &&& l.error == rmse_result(l.rmse)
}

/// Replays one season: simulates it from the current table, retrains the
/// real table under the season's adapted configuration, compares the two
/// standings, and aggregates the differences over the distinct home
/// teams. Fails exactly when the season names no team.
pub fn run_season_experiment<K: RatingSystem>(
    kernel: &K,
    season_games: &Vec<Game>,
    starting_elo: &RatingTable,
    run_config: &RunConfig,
    experiment_config: &RunHyperparameters,
    random_seed: u32,
) -> (r: Result<(u64, RatingTable, RatingTable, RunConfig, Ghost<SeasonLog>), EloError>)
    requires
        starting_elo.wf(),
        valid_divisions(games_view(season_games@), run_config@),
        season_games@.len() < 0x80000000,
    ensures
        r is Err <==> unique_home_count(games_view(season_games@)) == 0,
        r matches Err(e) ==> e == EloError::EmptyDenominator,
        r matches Ok((error, simulated, retrained, next_config, l)) ==> {
            let sg = games_view(season_games@);
            let default = f64_bits_of_u64(experiment_config.starting_elo as u64);
            &&& season_log_ok(starting_elo@, run_config@, sg, l@, default, random_seed as u64)
            &&& simulated.wf()
            &&& simulated@ == sim_table_after(starting_elo@, sg, l@.sim.exchanges)
            &&& retrained.wf()
            &&& retrained@ == table_after(starting_elo@, sg, l@.train)
            &&& next_config@ == adapted_config(run_config@, l@.sim.summary, sg.len())
            &&& error == l@.error
        },
{
    let ghost sg = games_view(season_games@);
    let ghost default = f64_bits_of_u64(experiment_config.starting_elo as u64);
    let (elo_simulated, simulated_matches, config_after_run, sim_log) = simulate_season(
        kernel,
        season_games,
        starting_elo,
        run_config,
        experiment_config,
        random_seed,
    );
    proof {
        assert(adapted_config(run_config@, sim_log@.summary, sg.len()).w_division
            == run_config@.w_division);
    }
    proof {
        assert(games_view(simulated_matches@).len() == simulated_matches@.len());
        assert(sim_games_view(sg, sim_log@.exchanges).len() == sg.len());
        assert(simulated_matches@.len() == sg.len());
    }
    let (real_elo, train_log) = construct_elo_table_for_year(
        kernel,
        season_games,
        Some(starting_elo.duplicate()),
        Some(&config_after_run),
        experiment_config,
    );
    let points_diff = compare_standing_tables(season_games, &simulated_matches);
    let games_count = count_unique_teams(season_games);
    proof {
        lemma_points_bounds(games_view(season_games@));
        lemma_points_bounds(games_view(simulated_matches@));
        assert forall|j: int| 0 <= j < points_diff@.len() implies -0x20000000000000 < (
        #[trigger] points_diff@[j]).1 < 0x20000000000000 by {
            let real_pts = points_after(games_view(season_games@));
            let sim_pts = points_after(games_view(simulated_matches@));
            assert(real_pts.contains_key(points_diff@[j].0@));
            assert(0 <= real_pts[points_diff@[j].0@] <= 3 * sg.len());
            if sim_pts.contains_key(points_diff@[j].0@) {
                assert(0 <= sim_pts[points_diff@[j].0@] <= 3 * games_view(
                    simulated_matches@,
                ).len());
            }
        }
    }
    let rmse = calculate_rmse(kernel, &points_diff, Some(games_count));
    match rmse {
        Ok((rmse_points, rmse_log)) => {
            let ghost l = SeasonLog {
                sim: sim_log@,
                train: train_log@,
                standings: points_diff@.map_values(|p: (String, i64)| (p.0@, p.1)),
                rmse: rmse_log@,
                error: rmse_points,
            };
            proof {
                assert(games_view(simulated_matches@) == sim_games_view(sg, l.sim.exchanges));
                let real_pts = points_after(sg);
                let sim_pts = points_after(sim_games_view(sg, l.sim.exchanges));
                assert(sim_pts == points_after(games_view(simulated_matches@)));
                assert forall|j: int| 0 <= j < l.standings.len() implies real_pts.contains_key(
                    (#[trigger] l.standings[j]).0,
                ) && l.standings[j].1 == standings_diff(real_pts, sim_pts, l.standings[j].0) by {
                    assert(l.standings[j] == (points_diff@[j].0@, points_diff@[j].1));
                }
                assert forall|k: Seq<char>| real_pts.contains_key(k) implies exists|j: int|
                    0 <= j < l.standings.len() && (#[trigger] l.standings[j]).0 == k by {
                    let j = choose|j: int| 0 <= j < points_diff@.len() && #[trigger] points_diff@[
                        j
                    ].0@ == k;
                    assert((l.standings[j]).0 == k);
                }
                assert forall|j: int| 0 <= j < l.standings.len() implies l.rmse.diff_bits[j]
                    == f64_bits_of_i64((#[trigger] l.standings[j]).1) by {
                    assert(l.standings[j].1 == points_diff@[j].1);
                }
            }
            Ok((rmse_points, elo_simulated, real_elo, config_after_run, Ghost(l)))
        },
        Err(e) => {
            proof {
                assert(e == EloError::EmptyDenominator);
            }
            Err(EloError::EmptyDenominator)
        },
    }
}

/// The real table after a chain of season replays: each season's
/// retrained table feeds the next.
pub open spec fn variation_table(
    t0: Map<Seq<char>, u64>,
    all: Seq<GameV>,
    logs: Seq<SeasonLog>,
    start_t: u16,
    count: nat,
) -> Map<Seq<char>, u64>
    decreases count,
{
    if count == 0 || logs.len() != count {
        t0
    } else {
        let prev = variation_table(t0, all, logs.drop_last(), start_t, (count - 1) as nat);
        table_after(prev, year_filter(all, (start_t + count - 1) as u16), logs.last().train)
    }
}

/// The configuration after a chain of season replays: each season's
/// adapted copy feeds the next.
pub open spec fn variation_config(
    c0: ConfigV,
    all: Seq<GameV>,
    logs: Seq<SeasonLog>,
    start_t: u16,
    count: nat,
) -> ConfigV
    decreases count,
{
    if count == 0 || logs.len() != count {
        c0
    } else {
        let prev = variation_config(c0, all, logs.drop_last(), start_t, (count - 1) as nat);
        adapted_config(
            prev,
            logs.last().sim.summary,
            year_filter(all, (start_t + count - 1) as u16).len(),
        )
    }
}

/// Every season replay of one variation was seeded from the table and
/// configuration its predecessors left behind.
pub open spec fn variation_ok(
    t0: Map<Seq<char>, u64>,
    c0: ConfigV,
    all: Seq<GameV>,
    logs: Seq<SeasonLog>,
    default: u64,
    seed: u64,
    start_t: u16,
    count: nat,
) -> bool
    decreases count,
{
    if logs.len() != count {
        false
    } else if count == 0 {
        true
    } else {
        &&& variation_ok(t0, c0, all, logs.drop_last(), default, seed, start_t, (count - 1) as nat)
        &&& season_log_ok(
            variation_table(t0, all, logs.drop_last(), start_t, (count - 1) as nat),
            variation_config(c0, all, logs.drop_last(), start_t, (count - 1) as nat),
            year_filter(all, (start_t + count - 1) as u16),
            logs.last(),
            default,
            seed,
        )
    }
}

/// Adaptation never touches the division weights.
proof fn lemma_variation_config_divisions(
    c0: ConfigV,
    all: Seq<GameV>,
    logs: Seq<SeasonLog>,
    start_t: u16,
    count: nat,
)
    ensures
        variation_config(c0, all, logs, start_t, count).w_division == c0.w_division,
    decreases count,
{
    if count != 0 && logs.len() == count {
        lemma_variation_config_divisions(c0, all, logs.drop_last(), start_t, (count - 1) as nat);
    }
}

/// Replays every season of `[start_t, end_t]`, in ascending order, under
/// one seed: the real table and the adapted configuration are carried
/// from season to season, and each season contributes one error value.
fn run_variation<K: RatingSystem>(
    kernel: &K,
    all_games: &Vec<Game>,
    seasons_map: &SeasonMap,
    elo_table_at_start: &RatingTable,
    elo_config: &RunConfig,
    experiment_config: &RunHyperparameters,
    seed: u32,
    start_t: u16,
    end_t: u16,
) -> (r: (Vec<u64>, Ghost<Seq<SeasonLog>>))
    requires
        start_t <= end_t,
        elo_table_at_start.wf(),
        valid_divisions(games_view(all_games@), elo_config@),
        all_games@.len() < 0x80000000,
        seasons_map.wf(),
        forall|y: u16| seasons_map@.contains_key(y) <==> has_year(games_view(all_games@), y),
        forall|y: u16| seasons_map@.contains_key(y) ==> seasons_map@[y] == year_filter(
            games_view(all_games@),
            y,
        ),
        forall|y: u16| start_t <= y <= end_t ==> has_year(games_view(all_games@), y),
    ensures
        r.0@.len() == end_t - start_t + 1,
        r.1@.len() == end_t - start_t + 1,
        variation_ok(
            elo_table_at_start@,
            elo_config@,
            games_view(all_games@),
            r.1@,
            f64_bits_of_u64(experiment_config.starting_elo as u64),
            seed as u64,
            start_t,
            (end_t - start_t + 1) as nat,
        ),
        forall|s: int| 0 <= s < r.1@.len() ==> r.0@[s] == (#[trigger] r.1@[s]).error,
{
    let ghost all = games_view(all_games@);
    let ghost default = f64_bits_of_u64(experiment_config.starting_elo as u64);
    let ghost c0 = elo_config@;
    let ghost t0 = elo_table_at_start@;
    let mut errors_per_season: Vec<u64> = Vec::new();
    let mut logs: Ghost<Seq<SeasonLog>> = Ghost(Seq::empty());
    let mut last_season_config = elo_config.clone();
    let mut elo_table = elo_table_at_start.duplicate();
    let total: usize = (end_t - start_t) as usize + 1;
    let mut s: usize = 0;
    while s < total
        invariant
            s <= total,
            total == end_t - start_t + 1,
            start_t <= end_t,
            all == games_view(all_games@),
            default == f64_bits_of_u64(experiment_config.starting_elo as u64),
            c0 == elo_config@,
            t0 == elo_table_at_start@,
            valid_divisions(all, c0),
            all_games@.len() < 0x80000000,
            seasons_map.wf(),
            forall|y: u16| seasons_map@.contains_key(y) <==> has_year(all, y),
            forall|y: u16| seasons_map@.contains_key(y) ==> seasons_map@[y] == year_filter(
                all,
                y,
            ),
            forall|y: u16| start_t <= y <= end_t ==> has_year(all, y),
            logs@.len() == s,
            errors_per_season@.len() == s,
            variation_ok(t0, c0, all, logs@, default, seed as u64, start_t, s as nat),
            elo_table.wf(),
            elo_table@ == variation_table(t0, all, logs@, start_t, s as nat),
            last_season_config@ == variation_config(c0, all, logs@, start_t, s as nat),
            forall|k: int| 0 <= k < s ==> errors_per_season@[k] == (#[trigger] logs@[k]).error,
        decreases total - s,
    {
        let s_year = start_t + (s as u16);
        let season_games = match seasons_map.get(s_year) {
            Some(games) => games,
            None => {
                proof {
                    assert(has_year(all, s_year));
                    assert(false);
                }
                return (errors_per_season, logs);
            },
        };
        proof {
            assert(games_view(season_games@) == year_filter(all, s_year));
            lemma_valid_divisions_filter(all, s_year, c0);
            lemma_variation_config_divisions(c0, all, logs@, start_t, s as nat);
            assert(valid_divisions(games_view(season_games@), last_season_config@));
            assert(year_filter(all, s_year).len() <= all.len()) by {
                all.lemma_filter_len(|g: GameV| g.year == s_year);
            }
            lemma_year_filter_nonempty(all, s_year);
            lemma_unique_home_positive(year_filter(all, s_year));
        }
        let outcome = run_season_experiment(
            kernel,
            season_games,
            &elo_table,
            &last_season_config,
            experiment_config,
            seed,
        );
        match outcome {
            Ok((rmse, _simulated_elo, real_elo, season_config, season_log)) => {
                last_season_config = season_config;
                elo_table = real_elo;
                errors_per_season.push(rmse);
                proof {
                    let prev = logs@;
                    logs@ = logs@.push(season_log@);
                    assert(logs@.drop_last() =~= prev);
                    assert(logs@.last() == season_log@);
                    assert(start_t + (s + 1) - 1 == s_year);
                    assert(variation_ok(
                        t0,
                        c0,
                        all,
                        logs@,
                        default,
                        seed as u64,
                        start_t,
                        (s + 1) as nat,
                    ));
                    assert(elo_table@ == variation_table(t0, all, logs@, start_t, (s + 1) as nat));
                    assert(last_season_config@ == variation_config(
                        c0,
                        all,
                        logs@,
                        start_t,
                        (s + 1) as nat,
                    ));
                }
            },
            Err(_) => {
                proof {
                    assert(false);
                }
                return (errors_per_season, logs);
            },
        }
        s = s + 1;
    }
    (errors_per_season, logs)
}

/// The whole record of one evaluation: the training chain and each
/// variation's season replays.
pub struct RunLog {
    pub training: Seq<Seq<RateExchange>>,
    pub start_table: Map<Seq<char>, u64>,
    pub variations: Seq<Seq<SeasonLog>>,
    /// One averaging record per simulated season.
    pub means: Seq<MeanLog>,
}

/// When an evaluation goes through: the divisions index the weight
/// vector, every training year has matches, at least one season follows
/// the window, no gap stands between the window and the last season, and
/// at least one variation was requested.
pub open spec fn run_conditions_ok(all: Seq<GameV>, cfg: ConfigV, h: RunHyperparameters) -> bool {
    let endy = h.starting_year + h.backtest_years;
    &&& valid_divisions(all, cfg)
    &&& forall|y: u16| h.starting_year <= y <= endy ==> has_year(all, y)
    &&& exists|y: u16| y > endy && has_year(all, y)
    &&& forall|y: u16, z: u16| endy < y < z && has_year(all, z) ==> has_year(all, y)
    &&& h.random_variations > 0
}

/// What each failure testifies: a missing year really lacks matches, a
/// division complaint really names one outside the weights, an uncovered
/// range really has no season after the window, and the no-variation
/// error really was asked for zero replays — and nothing else fails.
pub open spec fn run_error_ok(all: Seq<GameV>, cfg: ConfigV, h: RunHyperparameters, e: EloError) -> bool {
    let endy = h.starting_year + h.backtest_years;
    &&& (e matches EloError::MissingYear(y) ==> h.starting_year <= y && !has_year(all, y))
    &&& (e == EloError::DivisionOutOfRange ==> !valid_divisions(all, cfg))
    &&& (e == EloError::YearRangeNotCovered ==> !(exists|y: u16| y > endy && has_year(all, y)))
    &&& (e == EloError::NoVariations ==> h.random_variations == 0)
    &&& (e matches EloError::MissingYear(_) || e == EloError::DivisionOutOfRange || e
        == EloError::YearRangeNotCovered || e == EloError::NoVariations)
}

/// What a successful evaluation's record shows: the starting table is
/// the training chain over the window; every variation's season-by-season
/// replay is seeded by its index and chained through the real tables and
/// adapted configurations; and element `s` of the result is the recorded
/// mean of exactly the variations' errors for season `s`.
pub open spec fn run_log_ok(
    all: Seq<GameV>,
    cfg: ConfigV,
    h: RunHyperparameters,
    errors: Seq<u64>,
    log: RunLog,
) -> bool {
    let endy = h.starting_year + h.backtest_years;
    let default = f64_bits_of_u64(h.starting_elo as u64);
    &&& series_log_ok(
        Map::empty(),
        all,
        log.training,
        cfg,
        default,
        h.starting_year,
        (h.backtest_years + 1) as nat,
    )
    &&& log.start_table == series_table_after(
        Map::empty(),
        all,
        log.training,
        h.starting_year,
        (h.backtest_years + 1) as nat,
    )
    &&& log.variations.len() == h.random_variations
    &&& log.means.len() == errors.len()
    &&& forall|s: int| 0 <= s < errors.len() ==> errors[s] == (#[trigger] log.means[s]).quotient
    &&& forall|s: int| 0 <= s < errors.len() ==> (#[trigger] log.means[s]).values == Seq::new(
        log.variations.len(),
        |v: int| log.variations[v][s].error,
    )
    &&& exists|end_t: u16| end_t > endy && has_year(all, end_t) && (forall|z: u16| z > end_t
        ==> !has_year(all, z)) && errors.len() == end_t - endy && (forall|v: int|
        0 <= v < log.variations.len() ==> variation_ok(
            log.start_table,
            cfg,
            all,
            #[trigger] log.variations[v],
            default,
            v as u64,
            (endy + 1) as u16,
            (end_t - endy) as nat,
        ))
}

/// Performs the backtesting over the training window, then replays every
/// later season under `random_variations` seeds (the seed is the
/// variation's index) and averages the error across variations, one mean
/// per season. The real seasons drive the chains; the simulated ones are
/// only compared against.
pub fn run_experiments<K: RatingSystem>(
    kernel: &K,
    all_games: &Vec<Game>,
    run_config: &RunConfig,
    experiment_config: &RunHyperparameters,
) -> (r: Result<(Vec<u64>, Ghost<RunLog>), EloError>)
    requires
        experiment_config.starting_year + experiment_config.backtest_years + 1 <= u16::MAX,
        all_games@.len() < 0x80000000,
    ensures
        r is Ok <==> run_conditions_ok(games_view(all_games@), run_config@, *experiment_config),
        r matches Err(e) ==> run_error_ok(
            games_view(all_games@),
            run_config@,
            *experiment_config,
            e,
        ),
        r matches Ok((errors, log)) ==> run_log_ok(
            games_view(all_games@),
            run_config@,
            *experiment_config,
            errors@,
            log@,
        ),
{
    let ghost all = games_view(all_games@);
    let ghost cfg = run_config@;
    let ghost default = f64_bits_of_u64(experiment_config.starting_elo as u64);
    if !divisions_ok(all_games, run_config) {
        return Err(EloError::DivisionOutOfRange);
    }
    let end_year = experiment_config.starting_year + experiment_config.backtest_years;
    let seasons_map = construct_seasons(all_games);
    let trained = construct_elo_table_for_time_series(
        kernel,
        all_games,
        Some(run_config),
        experiment_config,
        experiment_config.starting_year,
        end_year,
    );
    let (elo_table_at_start, training_logs) = match trained {
        Ok(t) => t,
        Err(e) => {
            return Err(e);
        },
    };
    let start_t = end_year + 1;
    let end_t = match seasons_map.max_year() {
        Some(m) => m,
        None => {
            proof {
                assert(has_year(all, experiment_config.starting_year));
                assert(seasons_map@.contains_key(experiment_config.starting_year));
                seasons_map.lemma_years_match_view();
                assert(seasons_map.years_seq().contains(experiment_config.starting_year));
                assert(false);
            }
            return Err(EloError::YearRangeNotCovered);
        },
    };
    proof {
        seasons_map.lemma_years_match_view();
        assert(has_year(all, end_t));
        assert forall|z: u16| z > end_t implies !has_year(all, z) by {
            if has_year(all, z) {
                assert(seasons_map@.contains_key(z));
                assert(seasons_map.years_seq().contains(z));
                let k = choose|k: int|
                    0 <= k < seasons_map.years_seq().len() && seasons_map.years_seq()[k] == z;
                assert(seasons_map.years_seq()[k] <= end_t);
            }
        }
    }
    if end_t < start_t {
        proof {
            assert forall|y: u16| y > end_year implies !has_year(all, y) by {
                if y > end_t {
                } else {
                    assert(y <= end_t < start_t == end_year + 1);
                    assert(false);
                }
            }
        }
        return Err(EloError::YearRangeNotCovered);
    }
    let years_in_map = get_seasons_in_season_map(&seasons_map);
    proof {
        assert forall|z: u16| years_in_map@.contains(z) <==> has_year(all, z) by {}
    }
    if !check_time_series_interval(&years_in_map, start_t, end_t) {
        let mut y: u16 = start_t;
        while y < end_t
            invariant
                start_t <= y <= end_t,
                start_t == experiment_config.starting_year + experiment_config.backtest_years
                    + 1,
                all == games_view(all_games@),
                has_year(all, end_t),
                forall|z: u16| years_in_map@.contains(z) <==> has_year(all, z),
                !(forall|z: u16| start_t <= z <= end_t ==> years_in_map@.contains(z)),
                forall|z: u16| start_t <= z < y ==> years_in_map@.contains(z),
            decreases end_t - y,
        {
            if !years_contain(&years_in_map, y) {
                proof {
                    assert(!has_year(all, y));
                    assert(experiment_config.starting_year + experiment_config.backtest_years
                        < y < end_t && has_year(all, end_t));
                    assert(!run_conditions_ok(all, run_config@, *experiment_config));
                }
                return Err(EloError::MissingYear(y));
            }
            y = y + 1;
        }
        proof {
            assert(years_in_map@.contains(end_t));
            assert(forall|z: u16| start_t <= z <= end_t ==> years_in_map@.contains(z));
            assert(false);
        }
        return Err(EloError::MissingYear(start_t));
    }
    proof {
        assert forall|y: u16, z: u16| end_year < y < z && has_year(all, z) implies has_year(
            all,
            y,
        ) by {
            if z > end_t {
                assert(!has_year(all, z));
            } else {
                assert(start_t <= y <= end_t);
                assert(years_in_map@.contains(y));
            }
        }
    }
    if experiment_config.random_variations == 0 {
        return Err(EloError::NoVariations);
    }
    proof {
        assert(end_t > end_year && has_year(all, end_t));
        assert(run_conditions_ok(all, run_config@, *experiment_config));
    }
    let variations = experiment_config.random_variations;
    let mut errors_for_each_run: Vec<Vec<u64>> = Vec::new();
    let mut var_logs: Ghost<Seq<Seq<SeasonLog>>> = Ghost(Seq::empty());
    let total_seasons: usize = (end_t - start_t) as usize + 1;
    let mut i: u16 = 0;
    while i < variations
        invariant
            i <= variations,
            all == games_view(all_games@),
            cfg == run_config@,
            default == f64_bits_of_u64(experiment_config.starting_elo as u64),
            valid_divisions(all, cfg),
            all_games@.len() < 0x80000000,
            seasons_map.wf(),
            forall|y: u16| seasons_map@.contains_key(y) <==> has_year(all, y),
            forall|y: u16| seasons_map@.contains_key(y) ==> seasons_map@[y] == year_filter(
                all,
                y,
            ),
            forall|y: u16| start_t <= y <= end_t ==> has_year(all, y),
            start_t <= end_t,
            total_seasons == end_t - start_t + 1,
            elo_table_at_start.wf(),
            errors_for_each_run@.len() == i,
            var_logs@.len() == i,
            forall|v: int| 0 <= v < i ==> (#[trigger] errors_for_each_run@[v])@.len()
                == total_seasons,
            forall|v: int| 0 <= v < i ==> variation_ok(
                elo_table_at_start@,
                cfg,
                all,
                #[trigger] var_logs@[v],
                default,
                v as u64,
                start_t,
                (end_t - start_t + 1) as nat,
            ),
            forall|v: int, s: int| 0 <= v < i && 0 <= s < total_seasons
                ==> #[trigger] errors_for_each_run@[v]@[s] == var_logs@[v][s].error,
        decreases variations - i,
    {
        let (errors_per_season, season_logs) = run_variation(
            kernel,
            all_games,
            &seasons_map,
            &elo_table_at_start,
            run_config,
            experiment_config,
            i as u32,
            start_t,
            end_t,
        );
        errors_for_each_run.push(errors_per_season);
        proof {
            var_logs@ = var_logs@.push(season_logs@);
        }
        i = i + 1;
    }
    let season_errors = transpose_matrix(errors_for_each_run);
    let n_rows = season_errors.len();
    let mut mean_errors_for_each_season: Vec<u64> = Vec::new();
    let mut mean_logs: Ghost<Seq<MeanLog>> = Ghost(Seq::empty());
    let mut s: usize = 0;
    while s < n_rows
        invariant
            s <= n_rows,
            n_rows == season_errors@.len(),
            n_rows == total_seasons,
            var_logs@.len() == variations,
            forall|k: int| 0 <= k < n_rows ==> (#[trigger] season_errors@[k])@.len() == variations,
            forall|k: int, v: int| 0 <= k < n_rows && 0 <= v < variations
                ==> #[trigger] season_errors@[k]@[v] == var_logs@[v][k].error,
            variations >= 1,
            mean_errors_for_each_season@.len() == s,
            mean_logs@.len() == s,
            forall|k: int| 0 <= k < s ==> mean_errors_for_each_season@[k]
                == (#[trigger] mean_logs@[k]).quotient,
            forall|k: int| 0 <= k < s ==> (#[trigger] mean_logs@[k]).values
                == season_errors@[k]@,
        decreases n_rows - s,
    {
        let m: u64 = match mean(kernel, &season_errors[s]) {
            Some((m, l)) => {
                proof {
                    mean_logs@ = mean_logs@.push(l@);
                }
                m
            },
            None => {
                proof {
                    assert(false);
                }
                BITS_1000
            },
        };
        mean_errors_for_each_season.push(m);
        s = s + 1;
    }
    let ghost log = RunLog {
        training: training_logs@,
        start_table: elo_table_at_start@,
        variations: var_logs@,
        means: mean_logs@,
    };
    proof {
        assert(errors_for_each_run@.len() == variations as int);
        assert(mean_errors_for_each_season@.len() == total_seasons);
        assert forall|k: int| 0 <= k < total_seasons implies (#[trigger] log.means[k]).values
            == Seq::new(log.variations.len(), |v: int| log.variations[v][k].error) by {
            assert(log.means[k].values == season_errors@[k]@);
            assert(season_errors@[k]@.len() == variations as int);
            assert forall|v: int| 0 <= v < variations implies season_errors@[k]@[v] == Seq::new(
                log.variations.len(),
                |v2: int| log.variations[v2][k].error,
            )[v] by {
                assert(season_errors@[k]@[v] == var_logs@[v][k].error);
            }
            assert(log.means[k].values =~= Seq::new(
                log.variations.len(),
                |v: int| log.variations[v][k].error,
            ));
        }
        assert(end_t > end_year && has_year(all, end_t) && (forall|z: u16| z > end_t
            ==> !has_year(all, z)) && mean_errors_for_each_season@.len() == end_t - end_year
            && (forall|v: int| 0 <= v < log.variations.len() ==> variation_ok(
            log.start_table,
            cfg,
            all,
            #[trigger] log.variations[v],
            default,
            v as u64,
            (end_year + 1) as u16,
            (end_t - end_year) as nat,
        )));
        assert(run_log_ok(all, cfg, *experiment_config, mean_errors_for_each_season@, log));
    }
    Ok((mean_errors_for_each_season, Ghost(log)))
}

/// Every match names a division inside the weight vector.
fn divisions_ok(games: &Vec<Game>, config: &RunConfig) -> (r: bool)
    ensures
        r == valid_divisions(games_view(games@), config@),
{
    let ghost all = games_view(games@);
    let n = games.len();
    let w = config.w_division.len();
    let mut i: usize = 0;
    while i < n
        invariant
            i <= n,
            n == games@.len(),
            w == config@.w_division.len(),
            all == games_view(games@),
            forall|j: int| 0 <= j < i ==> 1 <= #[trigger] all[j].division <= w,
        decreases n - i,
    {
        proof {
            assert(all[i as int] == games@[i as int]@);
        }
        let d = games[i].division;
        if d == 0 || d as usize > w {
            assert(!(1 <= all[i as int].division <= w));
            return false;
        }
        i = i + 1;
    }
    true
}

/// Evaluates one genome: parses the flat parameter lists, then runs the
/// whole backtest and returns the per-season mean errors, the fitness
/// signal handed back to the optimizer. A window whose end does not fit
/// a year is never covered by data; otherwise the result carries the
/// whole backtest contract for the parsed parameters.
pub fn fitness_function<K: RatingSystem>(
    kernel: &K,
    partidas: &Vec<Game>,
    run_config_list: Vec<u64>,
    hyperparameters_list: Vec<u16>,
) -> (r: Result<(Vec<u64>, Ghost<RunLog>), EloError>)
    requires
        partidas@.len() < 0x80000000,
    ensures
        run_config_list@.len() < 7 ==> r == Err::<(Vec<u64>, Ghost<RunLog>), EloError>(
            EloError::BadConfigLength,
        ),
        run_config_list@.len() >= 7 && hyperparameters_list@.len() != 8 ==> r == Err::<(
            Vec<u64>,
            Ghost<RunLog>,
        ), EloError>(EloError::BadHyperparameterLength),
        run_config_list@.len() >= 7 && hyperparameters_list@.len() == 8 ==> {
            let all = games_view(partidas@);
            let cfg = parsed_config(run_config_list@);
            let h = parsed_hyperparameters(hyperparameters_list@);
            &&& (h.starting_year + h.backtest_years + 1 > u16::MAX ==> r == Err::<(
                Vec<u64>,
                Ghost<RunLog>,
            ), EloError>(EloError::YearRangeNotCovered))
            &&& (h.starting_year + h.backtest_years + 1 <= u16::MAX ==> {
                &&& (r is Ok <==> run_conditions_ok(all, cfg, h))
                &&& (r matches Err(e) ==> run_error_ok(all, cfg, h, e))
                &&& (r matches Ok((errors, log)) ==> run_log_ok(all, cfg, h, errors@, log@))
            })
        },
{
    let run_config = match RunConfig::from_list(run_config_list) {
        Ok(c) => c,
        Err(e) => {
            return Err(e);
        },
    };
    let hyperparameters = match RunHyperparameters::from_list(hyperparameters_list) {
        Ok(h) => h,
        Err(e) => {
            return Err(e);
        },
    };
    if hyperparameters.starting_year as u32 + hyperparameters.backtest_years as u32 + 1
        > u16::MAX as u32 {
        return Err(EloError::YearRangeNotCovered);
    }
    run_experiments(kernel, partidas, &run_config, &hyperparameters)
}

} // verus!
