//! End-to-end tests of the rating engine with a double-precision rating
//! system.

use elo_compnat::bits::{f64_abs, f64_from_i64, f64_from_raw_draw, f64_from_u64, f64_lt};
use elo_compnat::errors::EloError;
use elo_compnat::game::{filter_by_year, Game, GameResult, MatchOutcome};
use elo_compnat::experiment::{fitness_function, run_experiments, run_season_experiment};
use elo_compnat::math::{calculate_rmse, mean, transpose_matrix};
use elo_compnat::run_config::{expected_score, CustomElo, RatingSystem, RunConfig,
    RunHyperparameters};
use elo_compnat::seasons::{check_time_series_interval, construct_seasons,
    get_seasons_in_season_map};
use elo_compnat::simulate::{decide_outcome, simulate_season};
use elo_compnat::standings::{calculate_points, compare_standing_tables, count_unique_teams};
use elo_compnat::table::{CustomRating, RatingTable};
use elo_compnat::train::{construct_elo_table_for_time_series, construct_elo_table_for_year};
use rand::{Rng, SeedableRng};

/// The reference rating system: plain IEEE 754 double arithmetic.
struct F64Kernel;

impl RatingSystem for F64Kernel {
    fn expected_score(&self, player_one: u64, player_two: u64, config: &RunConfig) -> (u64, u64, u64) {
        let ra = f64::from_bits(player_one);
        let rb = f64::from_bits(player_two);
        let home_advantage = f64::from_bits(config.home_advantage);
        let tie_frequency = f64::from_bits(config.tie_frequency);
        let exponent = (rb - ra - home_advantage) / 400.0;
        let p = 10.0f64.powf(exponent);
        let q = 10.0f64.powf(-1.0 * exponent);
        let denominator = p + q + tie_frequency;
        let exp_one = p / denominator;
        let exp_two = q / denominator;
        let exp_tie = 1.0 - exp_one - exp_two;
        (exp_tie.to_bits(), exp_one.to_bits(), exp_two.to_bits())
    }

    fn rate(
        &self,
        player_one: u64,
        player_two: u64,
        outcome: GameResult,
        absolute_goal_diff: u64,
        absolute_market_value_diff: u64,
        division_weight: u64,
        config: &RunConfig,
    ) -> (u64, u64) {
        let (_tie, e_one, e_two) = self.expected_score(player_one, player_two, config);
        let one_expected = f64::from_bits(e_one);
        let two_expected = f64::from_bits(e_two);
        let k_factor = f64::from_bits(config.k_factor);
        let gamma = f64::from_bits(config.gamma);
        let market_value_weight = f64::from_bits(config.market_value_weight);
        let real_one: f64 = match outcome {
            GameResult::H => 1.0,
            GameResult::D => 0.5,
            GameResult::A => 0.0,
        };
        let real_two = 1.0 - real_one;
        let base = k_factor * f64::from_bits(division_weight)
            * (1.0 + f64::from_bits(absolute_market_value_diff)).powf(market_value_weight)
            * (1.0 + f64::from_bits(absolute_goal_diff)).powf(gamma);
        let new_one = f64::from_bits(player_one) + base * (real_one - one_expected);
        let new_two = f64::from_bits(player_two) + base * (real_two - two_expected);
        (new_one.to_bits(), new_two.to_bits())
    }

    fn add(&self, a: u64, b: u64) -> u64 {
        (f64::from_bits(a) + f64::from_bits(b)).to_bits()
    }

    fn sub(&self, a: u64, b: u64) -> u64 {
        (f64::from_bits(a) - f64::from_bits(b)).to_bits()
    }

    fn mul(&self, a: u64, b: u64) -> u64 {
        (f64::from_bits(a) * f64::from_bits(b)).to_bits()
    }

    fn div(&self, a: u64, b: u64) -> u64 {
        (f64::from_bits(a) / f64::from_bits(b)).to_bits()
    }

    fn sqrt(&self, a: u64) -> u64 {
        f64::from_bits(a).sqrt().to_bits()
    }

    fn log(&self, a: u64, base: u64) -> u64 {
        f64::from_bits(a).log(f64::from_bits(base)).to_bits()
    }
}

fn game(home: &str, away: &str, hs: u16, gs: u16, result: GameResult, year: u16) -> Game {
    Game {
        home: home.to_string(),
        away: away.to_string(),
        home_score: hs,
        away_score: gs,
        result,
        year,
        division: 1,
        home_value: 0.0f64.to_bits(),
        away_value: 0.0f64.to_bits(),
        home_elo: None,
        away_elo: None,
    }
}

fn test_config() -> RunConfig {
    RunConfig {
        k_factor: 20.0f64.to_bits(),
        gamma: 1.0f64.to_bits(),
        home_advantage: 0.0f64.to_bits(),
        home_field_advantage_weight: 0.075f64.to_bits(),
        market_value_weight: 1.0f64.to_bits(),
        tie_frequency: 0.5f64.to_bits(),
        w_division: vec![20.0f64.to_bits()],
    }
}

fn test_hyper() -> RunHyperparameters {
    RunHyperparameters {
        starting_elo: 1000,
        starting_year: 2000,
        backtest_years: 1,
        random_variations: 2,
        use_goals_diff: false,
        use_home_advantage: false,
        use_market_values: false,
        leagues_to_use: 1,
    }
}

fn table_to_pairs(t: &RatingTable) -> Vec<(String, u64)> {
    let mut out = Vec::new();
    for i in 0..t.len() {
        out.push((t.team_at(i).clone(), t.rating_at(i)));
    }
    out
}

#[test]
fn integer_to_double_conversions_are_exact() {
    assert_eq!(f64_from_u64(0), 0.0f64.to_bits());
    assert_eq!(f64_from_u64(1), 1.0f64.to_bits());
    assert_eq!(f64_from_u64(1000), 1000.0f64.to_bits());
    assert_eq!(f64_from_u64(65535), 65535.0f64.to_bits());
    assert_eq!(f64_from_u64((1u64 << 53) - 1), (((1u64 << 53) - 1) as f64).to_bits());
    assert_eq!(f64_from_i64(-5), (-5.0f64).to_bits());
    assert_eq!(f64_from_i64(42), 42.0f64.to_bits());
}

#[test]
fn raw_draw_matches_standard_uniform_sampler() {
    for raw in [0u64, 1, 0x800, 0xFFFF_FFFF_FFFF_FFFF, 0x1234_5678_9ABC_DEF0, 1u64 << 63] {
        let expected = ((raw >> 11) as f64 * (1.0 / (1u64 << 53) as f64)).to_bits();
        assert_eq!(f64_from_raw_draw(raw), expected);
    }
}

#[test]
fn bit_level_comparison_matches_ieee() {
    let values = [
        0.0f64, -0.0, 1.0, -1.0, 0.5, 1000.0, -273.15, f64::INFINITY, f64::NEG_INFINITY,
        f64::NAN, f64::MIN_POSITIVE,
    ];
    for &a in &values {
        for &b in &values {
            assert_eq!(f64_lt(a.to_bits(), b.to_bits()), a < b, "{} < {}", a, b);
        }
    }
    assert_eq!(f64_abs((-2.5f64).to_bits()), 2.5f64.to_bits());
}

#[test]
fn expected_score_outputs_sum_to_one_and_stay_in_range() {
    let kernel = F64Kernel;
    let config = test_config();
    for (ra, rb) in [(1000.0, 1000.0), (1200.0, 900.0), (850.0, 1500.0), (1000.0, 1003.5)] {
        let (t, h, a, _) = expected_score(
            &kernel,
            &CustomRating { rating: (ra as f64).to_bits() },
            &CustomRating { rating: (rb as f64).to_bits() },
            &config,
        );
        let (t, h, a) = (f64::from_bits(t), f64::from_bits(h), f64::from_bits(a));
        assert!((t + h + a - 1.0).abs() < 1e-12);
        for p in [t, h, a] {
            assert!((0.0..=1.0).contains(&p), "probability {} out of range", p);
        }
    }
}

#[test]
fn rate_is_sign_consistent() {
    let kernel = F64Kernel;
    let elo = CustomElo { config: test_config() };
    let one = CustomRating { rating: 1000.0f64.to_bits() };
    let two = CustomRating { rating: 1000.0f64.to_bits() };
    // A home win: actual 1.0 exceeds the expected score, so the home side
    // rises; the away side's actual 0.0 is below its expectation, so it falls.
    let (nh, na, _) = elo.rate(&kernel, &one, &two, GameResult::H, 0, 0.0f64.to_bits(), 1);
    assert!(f64::from_bits(nh.rating) > 1000.0);
    assert!(f64::from_bits(na.rating) < 1000.0);
    // An away win mirrors it.
    let (nh, na, _) = elo.rate(&kernel, &one, &two, GameResult::A, 0, 0.0f64.to_bits(), 1);
    assert!(f64::from_bits(nh.rating) < 1000.0);
    assert!(f64::from_bits(na.rating) > 1000.0);
    // With no tie mass, equal ratings expect 0.5 each: a draw changes nothing.
    let mut no_tie = test_config();
    no_tie.tie_frequency = 0.0f64.to_bits();
    let elo = CustomElo { config: no_tie };
    let (nh, na, _) = elo.rate(&kernel, &one, &two, GameResult::D, 0, 0.0f64.to_bits(), 1);
    assert_eq!(f64::from_bits(nh.rating), 1000.0);
    assert_eq!(f64::from_bits(na.rating), 1000.0);
}

#[test]
fn single_match_update_is_zero_sum_without_tie_mass() {
    // Two teams at 1000, home advantage 0, k 20, one division of weight 20,
    // gamma 1, market-value weight 1, zero differences. With no tie mass the
    // expectations are 0.5 each and a home win moves both sides by exactly
    // 200, in opposite directions.
    let kernel = F64Kernel;
    let mut config = test_config();
    config.tie_frequency = 0.0f64.to_bits();
    let elo = CustomElo { config };
    let one = CustomRating { rating: 1000.0f64.to_bits() };
    let two = CustomRating { rating: 1000.0f64.to_bits() };
    let (nh, na, _) = elo.rate(&kernel, &one, &two, GameResult::H, 0, 0.0f64.to_bits(), 1);
    let dh = f64::from_bits(nh.rating) - 1000.0;
    let da = f64::from_bits(na.rating) - 1000.0;
    assert_eq!(dh, 200.0);
    assert_eq!(da, -200.0);
    assert_eq!(dh, -da);
    // With tie frequency 0.5 the expectations are 0.4 each and the two
    // deltas are not opposite: +240 for the winner, -160 for the loser.
    let elo = CustomElo { config: test_config() };
    let (nh, na, _) = elo.rate(&kernel, &one, &two, GameResult::H, 0, 0.0f64.to_bits(), 1);
    assert_eq!(f64::from_bits(nh.rating), 1240.0);
    assert_eq!(f64::from_bits(na.rating), 840.0);
}

#[test]
fn training_folds_matches_in_order() {
    let kernel = F64Kernel;
    let games = vec![
        game("alfa", "beta", 2, 0, GameResult::H, 2000),
        game("beta", "gama", 1, 1, GameResult::D, 2000),
    ];
    let (table, _) = construct_elo_table_for_year(
        &kernel,
        &games,
        None,
        Some(&test_config()),
        &test_hyper(),
    );
    assert_eq!(table.len(), 3);
    // Replay the arithmetic by hand through the kernel.
    let elo = CustomElo { config: test_config() };
    let start = CustomRating { rating: 1000.0f64.to_bits() };
    let (a1, b1, _) = elo.rate(&kernel, &start, &start, GameResult::H, 2, 0.0f64.to_bits(), 1);
    let (b2, c1, _) = elo.rate(&kernel, &b1, &start, GameResult::D, 0, 0.0f64.to_bits(), 1);
    let mut expected = RatingTable::new();
    expected.insert("alfa".to_string(), a1.rating);
    expected.insert("beta".to_string(), b2.rating);
    expected.insert("gama".to_string(), c1.rating);
    let mut actual = table_to_pairs(&table);
    let mut wanted = table_to_pairs(&expected);
    actual.sort();
    wanted.sort();
    assert_eq!(actual, wanted);
}

#[test]
fn training_round_trips_across_split_seasons() {
    let kernel = F64Kernel;
    let g1 = vec![
        game("alfa", "beta", 1, 0, GameResult::H, 2000),
        game("gama", "alfa", 0, 0, GameResult::D, 2000),
    ];
    let g2 = vec![
        game("beta", "gama", 0, 2, GameResult::A, 2000),
        game("alfa", "gama", 3, 1, GameResult::H, 2000),
    ];
    let mut joined = Vec::new();
    joined.extend(g1.iter().cloned());
    joined.extend(g2.iter().cloned());
    let config = test_config();
    let hyper = test_hyper();
    let (first, _) = construct_elo_table_for_year(&kernel, &g1, None, Some(&config), &hyper);
    let (second, _) = construct_elo_table_for_year(
        &kernel,
        &g2,
        Some(first),
        Some(&config),
        &hyper,
    );
    let (once, _) = construct_elo_table_for_year(&kernel, &joined, None, Some(&config), &hyper);
    let mut split = table_to_pairs(&second);
    let mut whole = table_to_pairs(&once);
    split.sort();
    whole.sort();
    assert_eq!(split, whole);
}

#[test]
fn training_with_no_matches_keeps_the_table() {
    let kernel = F64Kernel;
    let mut start = RatingTable::new();
    start.insert("alfa".to_string(), 1234.5f64.to_bits());
    let (table, _) = construct_elo_table_for_year(
        &kernel,
        &Vec::<Game>::new(),
        Some(start),
        Some(&test_config()),
        &test_hyper(),
    );
    assert_eq!(table_to_pairs(&table), vec![("alfa".to_string(), 1234.5f64.to_bits())]);
}

#[test]
fn time_series_training_is_deterministic() {
    let kernel = F64Kernel;
    let games = vec![
        game("alfa", "beta", 1, 0, GameResult::H, 2000),
        game("beta", "alfa", 2, 2, GameResult::D, 2001),
        game("alfa", "beta", 0, 1, GameResult::A, 2002),
    ];
    let run = |seed_games: &Vec<Game>| {
        construct_elo_table_for_time_series(
            &F64Kernel,
            seed_games,
            Some(&test_config()),
            &test_hyper(),
            2000,
            2002,
        )
        .map(|(t, _)| table_to_pairs(&t))
    };
    let first = run(&games).unwrap();
    let second = run(&games).unwrap();
    assert_eq!(first, second);
    let _ = kernel;
}

#[test]
fn time_series_training_chains_years_in_ascending_order() {
    let kernel = F64Kernel;
    let config = test_config();
    let hyper = test_hyper();
    let games = vec![
        game("alfa", "beta", 1, 0, GameResult::H, 2000),
        game("beta", "alfa", 2, 2, GameResult::D, 2001),
    ];
    let (chained, _) = construct_elo_table_for_time_series(
        &kernel, &games, Some(&config), &hyper, 2000, 2001,
    )
    .unwrap();
    // ratings persist across seasons: the second year starts from the
    // first year's table
    let y2000 = filter_by_year(&games, 2000);
    let y2001 = filter_by_year(&games, 2001);
    let (after_2000, _) = construct_elo_table_for_year(&kernel, &y2000, None, Some(&config), &hyper);
    let (after_2001, _) = construct_elo_table_for_year(
        &kernel, &y2001, Some(after_2000), Some(&config), &hyper,
    );
    let mut a = table_to_pairs(&chained);
    let mut b = table_to_pairs(&after_2001);
    a.sort();
    b.sort();
    assert_eq!(a, b);
}

#[test]
fn time_series_training_reports_the_first_missing_year() {
    let games = vec![
        game("alfa", "beta", 1, 0, GameResult::H, 2000),
        game("beta", "alfa", 0, 1, GameResult::A, 2002),
    ];
    let r = construct_elo_table_for_time_series(
        &F64Kernel,
        &games,
        Some(&test_config()),
        &test_hyper(),
        2000,
        2002,
    );
    match r {
        Err(EloError::MissingYear(y)) => assert_eq!(y, 2001),
        other => panic!("unexpected outcome: {:?}", other.map(|(t, _)| table_to_pairs(&t))),
    }
}

#[test]
fn seasons_group_matches_by_year_in_order() {
    let games = vec![
        game("alfa", "beta", 1, 0, GameResult::H, 2001),
        game("beta", "gama", 0, 0, GameResult::D, 2000),
        game("gama", "alfa", 2, 1, GameResult::H, 2001),
    ];
    let seasons = construct_seasons(&games);
    let years = get_seasons_in_season_map(&seasons);
    assert_eq!(years, vec![2001, 2000]);
    let of_2001 = seasons.get(2001).unwrap();
    assert_eq!(of_2001.len(), 2);
    assert_eq!(of_2001[0].home, "alfa");
    assert_eq!(of_2001[1].home, "gama");
    assert!(seasons.get(1999).is_none());
    assert_eq!(seasons.max_year(), Some(2001));
    assert!(check_time_series_interval(&years, 2000, 2001));
    assert!(!check_time_series_interval(&years, 2000, 2002));
    assert!(check_time_series_interval(&years, 2002, 2001));
}

#[test]
fn filter_by_year_keeps_input_order() {
    let games = vec![
        game("alfa", "beta", 1, 0, GameResult::H, 2001),
        game("beta", "gama", 0, 0, GameResult::D, 2000),
        game("gama", "alfa", 2, 1, GameResult::H, 2001),
    ];
    let only = filter_by_year(&games, 2001);
    assert_eq!(only.len(), 2);
    assert_eq!(only[0].home, "alfa");
    assert_eq!(only[1].home, "gama");
}

#[test]
fn match_outcome_follows_the_result() {
    let g = game("alfa", "beta", 1, 0, GameResult::H, 2000);
    assert_eq!(g.get_match_outcome(), (MatchOutcome::Win, MatchOutcome::Loss));
    let g = game("alfa", "beta", 0, 1, GameResult::A, 2000);
    assert_eq!(g.get_match_outcome(), (MatchOutcome::Loss, MatchOutcome::Win));
    let g = game("alfa", "beta", 1, 1, GameResult::D, 2000);
    assert_eq!(g.get_match_outcome(), (MatchOutcome::Draw, MatchOutcome::Draw));
}

#[test]
fn points_table_awards_three_one_zero() {
    let games = vec![
        game("alfa", "beta", 2, 0, GameResult::H, 2000),
        game("beta", "gama", 1, 1, GameResult::D, 2000),
        game("gama", "alfa", 0, 3, GameResult::A, 2000),
    ];
    let points = calculate_points(&games);
    assert_eq!(points.get(&"alfa".to_string()), Some(6));
    assert_eq!(points.get(&"beta".to_string()), Some(1));
    assert_eq!(points.get(&"gama".to_string()), Some(1));
    assert_eq!(points.get(&"delta".to_string()), None);
}

#[test]
fn standings_comparison_diffs_real_minus_simulated() {
    let real = vec![
        game("alfa", "beta", 2, 0, GameResult::H, 2000),
        game("beta", "alfa", 1, 1, GameResult::D, 2000),
    ];
    let simulated = vec![
        game("alfa", "beta", 0, 1, GameResult::A, 2000),
        game("beta", "alfa", 1, 1, GameResult::D, 2000),
    ];
    let diff = compare_standing_tables(&real, &simulated);
    let mut diff_sorted = diff.clone();
    diff_sorted.sort();
    // Real: alfa 4, beta 1. Simulated: beta 4, alfa 1.
    assert_eq!(
        diff_sorted,
        vec![("alfa".to_string(), 3i64), ("beta".to_string(), -3i64)]
    );
    assert_eq!(count_unique_teams(&real), 2);
}

#[test]
fn rmse_rejects_a_zero_denominator() {
    let kernel = F64Kernel;
    let diffs: Vec<(String, i64)> = Vec::new();
    assert_eq!(
        calculate_rmse(&kernel, &diffs, Some(0)).err(),
        Some(EloError::EmptyDenominator)
    );
    assert_eq!(
        calculate_rmse(&kernel, &diffs, None).err(),
        Some(EloError::EmptyDenominator)
    );
}

#[test]
fn rmse_matches_the_documented_cascade() {
    let kernel = F64Kernel;
    // Spread 3: mean 0, variance 9, std 3 >= 1: the plain root, exactly 3.
    let diffs = vec![("alfa".to_string(), 3i64), ("beta".to_string(), -3i64)];
    let (v, _) = calculate_rmse(&kernel, &diffs, Some(2)).unwrap();
    assert_eq!(f64::from_bits(v), 3.0);
    // No spread at all: the degenerate-spread sentinel.
    let diffs = vec![("alfa".to_string(), 0i64), ("beta".to_string(), 0i64)];
    let (v, _) = calculate_rmse(&kernel, &diffs, Some(2)).unwrap();
    assert_eq!(f64::from_bits(v), 10000.0);
    // Spread 1/3: the log-regularised branch; replay the formula by hand.
    let diffs = vec![
        ("alfa".to_string(), 1i64),
        ("beta".to_string(), 0i64),
        ("gama".to_string(), 0i64),
    ];
    let (v, _) = calculate_rmse(&kernel, &diffs, Some(3)).unwrap();
    let sum: f64 = 0.0 + 1.0 + 0.0 + 0.0;
    let mean_v = sum / 3.0;
    // match the engine's evaluation order: sequential additions
    let s1 = 0.0 + (1.0 - mean_v) * (1.0 - mean_v);
    let s2 = s1 + (0.0 - mean_v) * (0.0 - mean_v);
    let ss = s2 + (0.0 - mean_v) * (0.0 - mean_v);
    let variance = ss / 3.0 - mean_v * mean_v;
    let std = variance.sqrt();
    assert!(std >= 0.2 && std < 1.0);
    let expected = (ss / 3.0).sqrt() / std.log(2.0);
    assert_eq!(f64::from_bits(v), expected);
}

#[test]
fn mean_averages_in_order_and_rejects_empty() {
    let kernel = F64Kernel;
    assert!(mean(&kernel, &Vec::new()).is_none());
    let xs = vec![1.0f64.to_bits(), 2.0f64.to_bits(), 6.0f64.to_bits()];
    let (m, _) = mean(&kernel, &xs).unwrap();
    assert_eq!(f64::from_bits(m), 3.0);
}

#[test]
fn transpose_swaps_rows_and_columns() {
    let m = vec![vec![1u64, 2, 3], vec![4, 5, 6]];
    assert_eq!(transpose_matrix(m), vec![vec![1u64, 4], vec![2, 5], vec![3, 6]]);
}

#[test]
fn outcome_bands_cover_the_unit_interval() {
    let p_tie = 0.2f64.to_bits();
    let tie_plus_home = 0.6f64.to_bits();
    assert_eq!(decide_outcome(0.0f64.to_bits(), p_tie, tie_plus_home), GameResult::D);
    assert_eq!(decide_outcome(0.1999f64.to_bits(), p_tie, tie_plus_home), GameResult::D);
    // the lower bound of the home band is inclusive
    assert_eq!(decide_outcome(0.2f64.to_bits(), p_tie, tie_plus_home), GameResult::H);
    assert_eq!(decide_outcome(0.5999f64.to_bits(), p_tie, tie_plus_home), GameResult::H);
    assert_eq!(decide_outcome(0.6f64.to_bits(), p_tie, tie_plus_home), GameResult::A);
    assert_eq!(decide_outcome(0.9999f64.to_bits(), p_tie, tie_plus_home), GameResult::A);
}

#[test]
fn simulation_is_reproducible_and_hits_every_band() {
    let kernel = F64Kernel;
    let config = test_config();
    let hyper = test_hyper();
    let season = vec![game("alfa", "beta", 2, 0, GameResult::H, 2002)];
    let mut start = RatingTable::new();
    start.insert("alfa".to_string(), 1000.0f64.to_bits());
    start.insert("beta".to_string(), 1000.0f64.to_bits());
    // The three-way split for equal ratings: p_tie = 0.2, p_home = 0.4.
    let (pt, ph, _) = kernel.expected_score(
        1000.0f64.to_bits(),
        1000.0f64.to_bits(),
        &config,
    );
    let (pt, ph) = (f64::from_bits(pt), f64::from_bits(ph));
    let mut seen = [false, false, false];
    for seed in 0u32..200 {
        let u: f64 = rand::rngs::StdRng::seed_from_u64(seed as u64).gen();
        let expected = if u < pt {
            GameResult::D
        } else if u < pt + ph {
            GameResult::H
        } else {
            GameResult::A
        };
        let (table_a, games_a, config_a, _) = simulate_season(
            &kernel, &season, &start, &config, &hyper, seed,
        );
        assert_eq!(games_a[0].result, expected);
        match expected {
            GameResult::D => seen[0] = true,
            GameResult::H => seen[1] = true,
            GameResult::A => seen[2] = true,
        }
        // byte-identical replay under the same seed
        let (table_b, games_b, config_b, _) = simulate_season(
            &kernel, &season, &start, &config, &hyper, seed,
        );
        assert_eq!(table_to_pairs(&table_a), table_to_pairs(&table_b));
        assert_eq!(games_a.len(), games_b.len());
        for (ga, gb) in games_a.iter().zip(games_b.iter()) {
            assert_eq!(ga.result, gb.result);
            assert_eq!((ga.home_score, ga.away_score), (gb.home_score, gb.away_score));
            assert_eq!((ga.home_elo, ga.away_elo), (gb.home_elo, gb.away_elo));
        }
        assert_eq!(config_a.tie_frequency, config_b.tie_frequency);
        assert_eq!(config_a.home_advantage, config_b.home_advantage);
        // the simulated goals are placeholders consistent with the outcome
        let g = &games_a[0];
        match g.result {
            GameResult::H => assert_eq!((g.home_score, g.away_score), (1, 0)),
            GameResult::A => assert_eq!((g.home_score, g.away_score), (0, 1)),
            GameResult::D => assert_eq!((g.home_score, g.away_score), (1, 1)),
        }
        assert!(g.home_elo.is_some() && g.away_elo.is_some());
    }
    assert!(seen.iter().all(|&b| b), "not every outcome band was reached: {:?}", seen);
}

#[test]
fn simulation_of_an_empty_season_changes_nothing() {
    let kernel = F64Kernel;
    let config = test_config();
    let mut start = RatingTable::new();
    start.insert("alfa".to_string(), 1111.0f64.to_bits());
    let (table, games, adapted, _) = simulate_season(
        &kernel,
        &Vec::<Game>::new(),
        &start,
        &config,
        &test_hyper(),
        7,
    );
    assert!(games.is_empty());
    assert_eq!(table_to_pairs(&table), table_to_pairs(&start));
    assert_eq!(adapted.tie_frequency, config.tie_frequency);
    assert_eq!(adapted.home_advantage, config.home_advantage);
}

#[test]
fn simulation_adapts_tie_frequency_from_real_draws() {
    let kernel = F64Kernel;
    let config = test_config();
    let hyper = test_hyper();
    let season = vec![
        game("alfa", "beta", 1, 1, GameResult::D, 2002),
        game("beta", "alfa", 2, 0, GameResult::H, 2002),
    ];
    let start = RatingTable::new();
    let (_, _, adapted, _) = simulate_season(&kernel, &season, &start, &config, &hyper, 3);
    // one real draw out of two matches
    assert_eq!(f64::from_bits(adapted.tie_frequency), 0.5);
}

#[test]
fn season_experiment_without_teams_is_rejected() {
    let r = run_season_experiment(
        &F64Kernel,
        &Vec::<Game>::new(),
        &RatingTable::new(),
        &test_config(),
        &test_hyper(),
        0,
    );
    assert!(matches!(r, Err(EloError::EmptyDenominator)));
}

fn three_season_games() -> Vec<Game> {
    vec![
        game("alfa", "beta", 2, 0, GameResult::H, 2000),
        game("beta", "gama", 1, 1, GameResult::D, 2000),
        game("gama", "alfa", 0, 1, GameResult::A, 2000),
        game("alfa", "beta", 1, 1, GameResult::D, 2001),
        game("beta", "gama", 3, 0, GameResult::H, 2001),
        game("gama", "alfa", 2, 2, GameResult::D, 2001),
        game("alfa", "beta", 0, 2, GameResult::A, 2002),
        game("beta", "gama", 1, 0, GameResult::H, 2002),
        game("gama", "alfa", 1, 3, GameResult::A, 2002),
    ]
}

#[test]
fn backtest_returns_one_mean_error_per_simulated_season() {
    let games = three_season_games();
    let (errors, _) = run_experiments(&F64Kernel, &games, &test_config(), &test_hyper())
        .unwrap();
    // training window 2000..=2001, one simulated season: 2002
    assert_eq!(errors.len(), 1);
    assert!(!f64::from_bits(errors[0]).is_nan());
    // deterministic given the same inputs and seeds
    let (again, _) = run_experiments(&F64Kernel, &games, &test_config(), &test_hyper())
        .unwrap();
    assert_eq!(errors, again);
}

#[test]
fn backtest_agrees_with_its_parts() {
    let kernel = F64Kernel;
    let games = three_season_games();
    let config = test_config();
    let hyper = test_hyper();
    let (errors, _) = run_experiments(&kernel, &games, &config, &hyper).unwrap();
    // replay by hand: train 2000..=2001, then run season 2002 under each
    // seed and average
    let (trained, _) = construct_elo_table_for_time_series(
        &kernel, &games, Some(&config), &hyper, 2000, 2001,
    )
    .unwrap();
    let season = filter_by_year(&games, 2002);
    let mut per_seed = Vec::new();
    for seed in 0u32..2 {
        let (e, _, _, _, _) = run_season_experiment(
            &kernel, &season, &trained, &config, &hyper, seed,
        )
        .unwrap();
        per_seed.push(f64::from_bits(e));
    }
    let expected = (0.0 + per_seed[0] + per_seed[1]) / 2.0;
    assert_eq!(f64::from_bits(errors[0]), expected);
}

#[test]
fn backtest_rejects_bad_inputs_exactly() {
    let games = three_season_games();
    // no season after the training window
    let mut hyper = test_hyper();
    hyper.backtest_years = 2;
    assert!(matches!(
        run_experiments(&F64Kernel, &games, &test_config(), &hyper),
        Err(EloError::YearRangeNotCovered)
    ));
    // a missing training year
    let mut hyper = test_hyper();
    hyper.starting_year = 1999;
    assert!(matches!(
        run_experiments(&F64Kernel, &games, &test_config(), &hyper),
        Err(EloError::MissingYear(1999))
    ));
    // no variations requested
    let mut hyper = test_hyper();
    hyper.random_variations = 0;
    assert!(matches!(
        run_experiments(&F64Kernel, &games, &test_config(), &hyper),
        Err(EloError::NoVariations)
    ));
    // a division outside the weight vector
    let mut games_bad = games.clone();
    games_bad[0].division = 2;
    assert!(matches!(
        run_experiments(&F64Kernel, &games_bad, &test_config(), &test_hyper()),
        Err(EloError::DivisionOutOfRange)
    ));
}

#[test]
fn config_list_parsing_is_positional() {
    let r = RunConfig::from_list(vec![1, 2, 3, 4, 5, 6]);
    assert!(matches!(r, Err(EloError::BadConfigLength)));
    let c = RunConfig::from_list(vec![10, 20, 30, 40, 50, 60, 70, 80]).unwrap();
    assert_eq!(c.k_factor, 10);
    assert_eq!(c.gamma, 20);
    assert_eq!(c.home_advantage, 30);
    assert_eq!(c.home_field_advantage_weight, 40);
    assert_eq!(c.market_value_weight, 50);
    assert_eq!(c.tie_frequency, 60);
    assert_eq!(c.w_division, vec![70, 80]);
}

#[test]
fn hyperparameter_list_parsing_needs_exactly_eight() {
    let r = RunHyperparameters::from_list(vec![1, 2, 3]);
    assert!(matches!(r, Err(EloError::BadHyperparameterLength)));
    let h = RunHyperparameters::from_list(vec![1000, 2003, 8, 100, 1, 0, 1, 1]).unwrap();
    assert_eq!(h.starting_elo, 1000);
    assert_eq!(h.starting_year, 2003);
    assert_eq!(h.backtest_years, 8);
    assert_eq!(h.random_variations, 100);
    assert!(h.use_goals_diff);
    assert!(!h.use_home_advantage);
    assert!(h.use_market_values);
    assert_eq!(h.leagues_to_use, 1);
}

#[test]
fn fitness_function_parses_and_runs() {
    let games = three_season_games();
    let config_list = vec![
        20.0f64.to_bits(),
        1.0f64.to_bits(),
        0.0f64.to_bits(),
        0.075f64.to_bits(),
        1.0f64.to_bits(),
        0.5f64.to_bits(),
        20.0f64.to_bits(),
    ];
    let hyper_list = vec![1000u16, 2000, 1, 2, 0, 0, 0, 1];
    let (errors, _) = fitness_function(&F64Kernel, &games, config_list.clone(), hyper_list)
        .unwrap();
    assert_eq!(errors.len(), 1);
    assert!(matches!(
        fitness_function(&F64Kernel, &games, vec![1, 2], vec![1000, 2000, 1, 2, 0, 0, 0, 1]),
        Err(EloError::BadConfigLength)
    ));
    assert!(matches!(
        fitness_function(&F64Kernel, &games, config_list, vec![1, 2]),
        Err(EloError::BadHyperparameterLength)
    ));
}

#[test]
fn rate_selects_the_division_own_weight() {
    // two divisions with distinct weights: the update must scale by the
    // 1-based division's weight, not the first one
    let kernel = F64Kernel;
    let mut config = test_config();
    config.tie_frequency = 0.0f64.to_bits();
    config.w_division = vec![20.0f64.to_bits(), 10.0f64.to_bits()];
    let elo = CustomElo { config };
    let one = CustomRating { rating: 1000.0f64.to_bits() };
    let two = CustomRating { rating: 1000.0f64.to_bits() };
    // division 1: delta = 20 * 20 * 0.5 = 200
    let (nh, na, _) = elo.rate(&kernel, &one, &two, GameResult::H, 0, 0.0f64.to_bits(), 1);
    assert_eq!(f64::from_bits(nh.rating), 1200.0);
    assert_eq!(f64::from_bits(na.rating), 800.0);
    // division 2: delta = 20 * 10 * 0.5 = 100
    let (nh, na, _) = elo.rate(&kernel, &one, &two, GameResult::H, 0, 0.0f64.to_bits(), 2);
    assert_eq!(f64::from_bits(nh.rating), 1100.0);
    assert_eq!(f64::from_bits(na.rating), 900.0);
}

#[test]
fn training_uses_each_match_division_weight() {
    let kernel = F64Kernel;
    let mut config = test_config();
    config.w_division = vec![20.0f64.to_bits(), 10.0f64.to_bits()];
    let mut first_division = game("alfa", "beta", 1, 0, GameResult::H, 2000);
    first_division.division = 1;
    let mut second_division = game("gama", "delta", 1, 0, GameResult::H, 2000);
    second_division.division = 2;
    let games = vec![first_division, second_division];
    let (table, _) = construct_elo_table_for_year(
        &kernel,
        &games,
        None,
        Some(&config),
        &test_hyper(),
    );
    // replay both updates by hand with each division's own weight
    let elo = CustomElo { config: config.clone() };
    let start = CustomRating { rating: 1000.0f64.to_bits() };
    let (a1, b1, _) = elo.rate(&kernel, &start, &start, GameResult::H, 1, 0.0f64.to_bits(), 1);
    let (c1, d1, _) = elo.rate(&kernel, &start, &start, GameResult::H, 1, 0.0f64.to_bits(), 2);
    let mut pairs = table_to_pairs(&table);
    pairs.sort();
    assert_eq!(
        pairs,
        vec![
            ("alfa".to_string(), a1.rating),
            ("beta".to_string(), b1.rating),
            ("delta".to_string(), d1.rating),
            ("gama".to_string(), c1.rating),
        ]
    );
    // the two divisions really produced different magnitudes
    assert_ne!(a1.rating, c1.rating);
}

#[test]
fn defaults_match_the_historical_values() {
    let c = RunConfig::default();
    assert_eq!(f64::from_bits(c.k_factor), 20.0);
    assert_eq!(f64::from_bits(c.gamma), 1.0);
    assert_eq!(f64::from_bits(c.home_advantage), 0.075);
    assert_eq!(f64::from_bits(c.tie_frequency), 0.5);
    assert_eq!(c.w_division.len(), 1);
    let h = RunHyperparameters::default();
    assert_eq!(h.starting_elo, 1000);
    assert_eq!(h.starting_year, 2003);
    assert_eq!(h.backtest_years, 8);
    assert_eq!(h.random_variations, 20);
    assert_eq!(CustomRating::new().rating, 1000.0f64.to_bits());
    assert_eq!(CustomRating::default(), CustomRating::new());
}
