//! The Monte-Carlo season simulator.
//!
//! Given a starting table and one season's matches, it draws one simulated
//! outcome per match — one uniform draw against the model's three-way
//! split — updates the running table with the sampled result, and finally
//! derives an adapted configuration: the tie frequency observed in the
//! real season, and a home advantage nudged by the accumulated rating
//! drift. Reproducibility: the generator is seeded once per call and
//! consumed exactly once per match in match order, so every draw is
//! pinned to the seed and the match's position.

use vstd::prelude::*;
use crate::bits::{abs_bits, lt_bits, u01_bits_of, f64_bits_of_u64, f64_abs, f64_from_u64,
    f64_from_raw_draw};
use crate::game::{Game, GameV, GameResult, games_view, result_consistent, result_of_scores,
    spec_abs_goal_diff};
use crate::rng::{SeededRng, std_rng_stream};
use crate::run_config::{ConfigV, RunConfig, RunHyperparameters, RatingSystem, CustomElo,
    RateCall, ExpectedCall, expected_score};
use crate::table::{CustomRating, RatingTable, lookup};
use crate::train::valid_divisions;

verus! {

/// Bit pattern of the double 0.0, the accumulators' starting value.
pub const ACC_ZERO_BITS: u64 = 0;

/// The synthetic goal counts of a simulated outcome: true margins are not
/// modelled.
pub open spec fn placeholder_scores(r: GameResult) -> (u16, u16) {
    match r {
        GameResult::H => (1u16, 0u16),
        GameResult::A => (0u16, 1u16),
        GameResult::D => (1u16, 1u16),
    }
}

/// The outcome that one uniform draw selects: draw below `p_tie`, home
/// win from `p_tie` up to `p_tie + p_home`, away win above.
pub open spec fn decide_result(u: u64, p_tie: u64, tie_plus_home: u64) -> GameResult {
    if lt_bits(u, p_tie) {
        GameResult::D
    } else if lt_bits(u, tie_plus_home) {
        GameResult::H
    } else {
        GameResult::A
    }
}

/// The three bands of the draw cover every value exactly once.
pub proof fn lemma_outcome_bands(u: u64, p_tie: u64, tie_plus_home: u64)
    ensures
        (decide_result(u, p_tie, tie_plus_home) == GameResult::D) <==> lt_bits(u, p_tie),
        (decide_result(u, p_tie, tie_plus_home) == GameResult::H) <==> (!lt_bits(u, p_tie)
            && lt_bits(u, tie_plus_home)),
        (decide_result(u, p_tie, tie_plus_home) == GameResult::A) <==> (!lt_bits(u, p_tie)
            && !lt_bits(u, tie_plus_home)),
{
}

/// Decides one simulated outcome from the draw and the two thresholds.
pub fn decide_outcome(u: u64, p_tie: u64, tie_plus_home: u64) -> (r: GameResult)
    ensures
        r == decide_result(u, p_tie, tie_plus_home),
{
    if crate::bits::f64_lt(u, p_tie) {
        GameResult::D
    } else if crate::bits::f64_lt(u, tie_plus_home) {
        GameResult::H
    } else {
        GameResult::A
    }
}

/// One simulated match's exchanges with the rating system and the
/// generator: what the engine handed over, and everything that came back.
#[verifier::ext_equal]
pub struct SimExchange {
    /// The expected-score call: the two looked-up ratings handed over
    /// and the three-way split that came back.
    pub expected: ExpectedCall,
    /// The word drawn from the generator for this match.
    pub raw: u64,
    /// What `add` returned for the two thresholds.
    pub tie_plus_home: u64,
    /// The outcome the draw selected.
    pub sim_result: GameResult,
    /// What `sub` returned for the two market values.
    pub market_sub: u64,
    /// The rating call for the sampled result: the handed-over request
    /// and the answered pair.
    pub call: RateCall,
    /// What `sub` returned for each side's rating change.
    pub home_diff: u64,
    pub away_diff: u64,
    /// What `add` returned for each accumulated drift.
    pub acc_home: u64,
    pub acc_away: u64,
}

/// The post-season exchanges that adapt the configuration.
pub struct SimSummary {
    /// How many of the season's real matches were draws.
    pub tie_count: nat,
    /// That count as a double, as handed to `div`.
    pub tie_count_bits: u64,
    /// The season's match count as a double, as handed to `div`.
    pub len_bits: u64,
    /// What `div` returned: the adapted tie frequency.
    pub tie_frequency: u64,
    /// What `sub` returned for the two final accumulators.
    pub delta: u64,
    /// What `mul` returned for the weighted drift.
    pub adjustment: u64,
    /// What `add` returned: the adapted home advantage.
    pub home_advantage: u64,
}

/// The whole ghost record of one simulation.
pub struct SimLog {
    pub exchanges: Seq<SimExchange>,
    pub summary: SimSummary,
}

/// The simulated record of one real match: same teams, year, division and
/// market values; the sampled result with its synthetic goals; and both
/// post-update ratings.
pub open spec fn simulated_view(g: GameV, e: SimExchange) -> GameV {
    GameV {
        home_score: placeholder_scores(e.sim_result).0,
        away_score: placeholder_scores(e.sim_result).1,
        result: e.sim_result,
        home_elo: Some(e.call.new_one),
        away_elo: Some(e.call.new_two),
        ..g
    }
}

/// The simulated season: one simulated record per real one, in order.
pub open spec fn sim_games_view(games: Seq<GameV>, log: Seq<SimExchange>) -> Seq<GameV> {
    Seq::new(games.len(), |i: int| simulated_view(games[i], log[i]))
}

/// The table after folding the sampled updates into `start`: per match,
/// home overwritten, then away.
pub open spec fn sim_table_after(
    start: Map<Seq<char>, u64>,
    games: Seq<GameV>,
    log: Seq<SimExchange>,
) -> Map<Seq<char>, u64>
    decreases games.len(),
{
    if games.len() == 0 || games.len() != log.len() {
        start
    } else {
        let t = sim_table_after(start, games.drop_last(), log.drop_last());
        t.insert(games.last().home, log.last().call.new_one).insert(
            games.last().away,
            log.last().call.new_two,
        )
    }
}

/// What one simulation step must have handed over, given the table `t` it
/// saw and its position `idx` in the seed's stream: the current ratings,
/// this very position's word, the outcome that word's draw selects
/// against the returned thresholds, the real record's goal difference,
/// the absolute market-value difference, and the division's weight.
pub open spec fn sim_request_ok(
    t: Map<Seq<char>, u64>,
    g: GameV,
    e: SimExchange,
    cfg: ConfigV,
    default: u64,
    seed: u64,
    idx: nat,
) -> bool {
    &&& e.expected.player_one == lookup(t, g.home, default)
    &&& e.expected.player_two == lookup(t, g.away, default)
    &&& e.raw == std_rng_stream(seed, idx)
    &&& e.sim_result == decide_result(u01_bits_of(e.raw), e.expected.exp_tie, e.tie_plus_home)
    &&& e.call.player_one == e.expected.player_one
    &&& e.call.player_two == e.expected.player_two
    &&& e.call.outcome == e.sim_result
    &&& e.call.goal_diff_bits == f64_bits_of_u64(spec_abs_goal_diff(g) as u64)
    &&& e.call.market_value_diff == abs_bits(e.market_sub)
    &&& 1 <= g.division <= cfg.w_division.len()
    &&& e.call.division_weight == cfg.w_division[g.division - 1]
}

/// Every logged simulation step handed over exactly what the table built
/// so far, the seed, and the step's position dictated.
pub open spec fn sim_log_ok(
    start: Map<Seq<char>, u64>,
    games: Seq<GameV>,
    log: Seq<SimExchange>,
    cfg: ConfigV,
    default: u64,
    seed: u64,
) -> bool
    decreases games.len(),
{
    if games.len() != log.len() {
        false
    } else if games.len() == 0 {
        true
    } else {
        &&& sim_log_ok(start, games.drop_last(), log.drop_last(), cfg, default, seed)
        &&& sim_request_ok(
            sim_table_after(start, games.drop_last(), log.drop_last()),
            games.last(),
            log.last(),
            cfg,
            default,
            seed,
            (games.len() - 1) as nat,
        )
    }
}

/// How many of the season's real matches were draws.
pub open spec fn count_draws(games: Seq<GameV>) -> nat
    decreases games.len(),
{
    if games.len() == 0 {
        0
    } else {
        count_draws(games.drop_last()) + if games.last().result == GameResult::D {
            1nat
        } else {
            0nat
        }
    }
}

/// The summary's pinned parts: the real draw count and the two exact
/// integer-to-double conversions handed to `div`.
pub open spec fn sim_summary_ok(s: SimSummary, games: Seq<GameV>) -> bool {
    &&& s.tie_count == count_draws(games)
    &&& s.tie_count_bits == f64_bits_of_u64(count_draws(games) as u64)
    &&& s.len_bits == f64_bits_of_u64(games.len() as u64)
}

/// The configuration the next season inherits: the input one with the
/// adapted tie frequency and home advantage — unchanged when the season
/// had no matches, so that an empty season stays well defined.
pub open spec fn adapted_config(cfg: ConfigV, s: SimSummary, n: nat) -> ConfigV {
    if n == 0 {
        cfg
    } else {
        ConfigV { tie_frequency: s.tie_frequency, home_advantage: s.home_advantage, ..cfg }
    }
}

/// The fields of an exchange that only the rating system's answers
/// determine.
pub open spec fn kernel_responses_match(e1: SimExchange, e2: SimExchange) -> bool {
    &&& e1.expected.exp_tie == e2.expected.exp_tie
    &&& e1.expected.exp_one == e2.expected.exp_one
    &&& e1.expected.exp_two == e2.expected.exp_two
    &&& e1.tie_plus_home == e2.tie_plus_home
    &&& e1.market_sub == e2.market_sub
    &&& e1.call.new_one == e2.call.new_one
    &&& e1.call.new_two == e2.call.new_two
    &&& e1.home_diff == e2.home_diff
    &&& e1.away_diff == e2.away_diff
    &&& e1.acc_home == e2.acc_home
    &&& e1.acc_away == e2.acc_away
}

/// Reproducibility: two simulations of the same season from the same
/// table, configuration and seed whose rating systems answered alike are
/// identical — same exchanges, hence byte-identical simulated matches
/// and rating tables. Every other part of an exchange is pinned by the
/// seed, the match order and the table built so far.
pub proof fn lemma_simulation_reproducible(
    start: Map<Seq<char>, u64>,
    games: Seq<GameV>,
    log1: Seq<SimExchange>,
    log2: Seq<SimExchange>,
    cfg: ConfigV,
    default: u64,
    seed: u64,
)
    requires
        sim_log_ok(start, games, log1, cfg, default, seed),
        sim_log_ok(start, games, log2, cfg, default, seed),
        forall|i: int| 0 <= i < games.len() ==> kernel_responses_match(
            #[trigger] log1[i],
            log2[i],
        ),
    ensures
        log1 == log2,
        sim_table_after(start, games, log1) == sim_table_after(start, games, log2),
        sim_games_view(games, log1) == sim_games_view(games, log2),
    decreases games.len(),
{
    if games.len() == 0 {
        assert(log1 =~= log2);
    } else {
        let gp = games.drop_last();
        let p1 = log1.drop_last();
        let p2 = log2.drop_last();
        assert forall|i: int| 0 <= i < gp.len() implies kernel_responses_match(
            #[trigger] p1[i],
            p2[i],
        ) by {
            assert(p1[i] == log1[i]);
            assert(p2[i] == log2[i]);
        }
        lemma_simulation_reproducible(start, gp, p1, p2, cfg, default, seed);
        let t = sim_table_after(start, gp, p1);
        let e1 = log1.last();
        let e2 = log2.last();
        assert(sim_request_ok(t, games.last(), e1, cfg, default, seed, (games.len() - 1) as nat));
        assert(sim_request_ok(
            sim_table_after(start, gp, p2),
            games.last(),
            e2,
            cfg,
            default,
            seed,
            (games.len() - 1) as nat,
        ));
        assert(kernel_responses_match(e1, e2)) by {
            assert(log1[games.len() - 1] == e1);
            assert(log2[games.len() - 1] == e2);
        }
        assert(e1.expected =~= e2.expected);
        assert(e1.call =~= e2.call);
        assert(e1 =~= e2);
        assert forall|i: int| 0 <= i < log1.len() implies log1[i] == log2[i] by {
            if i < log1.len() - 1 {
                assert(log1[i] == p1[i]);
                assert(log2[i] == p2[i]);
            } else {
                assert(log1[i] == e1);
                assert(log2[i] == e2);
            }
        }
        assert(log1 =~= log2);
    }
}

/// A season with no matches leaves the starting table unchanged, and
/// its adapted configuration is the input configuration itself.
pub proof fn lemma_empty_season_simulation(
    start: Map<Seq<char>, u64>,
    cfg: ConfigV,
    s: SimSummary,
)
    ensures
        sim_table_after(start, Seq::<GameV>::empty(), Seq::<SimExchange>::empty()) == start,
        adapted_config(cfg, s, 0) == cfg,
{
}

proof fn lemma_count_draws_bound(games: Seq<GameV>)
    ensures
        count_draws(games) <= games.len(),
    decreases games.len(),
{
    if games.len() > 0 {
        lemma_count_draws_bound(games.drop_last());
    }
}

/// Simulates one season: per match, in order, resolves the two ratings
/// (default for unseen teams), asks for the expected-score split, draws
/// one word, decides the outcome, rates the sampled result, and
/// overwrites both table entries; afterwards derives the adapted
/// configuration. Deterministic given the seed: every exchange is pinned
/// to the seed, the match order, and the rating system's answers.
pub fn simulate_season<K: RatingSystem>(
    kernel: &K,
    games: &Vec<Game>,
    original_elos: &RatingTable,
    run_config: &RunConfig,
    experiment_config: &RunHyperparameters,
    random_seed: u32,
) -> (r: (RatingTable, Vec<Game>, RunConfig, Ghost<SimLog>))
    requires
        original_elos.wf(),
        valid_divisions(games_view(games@), run_config@),
        games@.len() < 0x20000000000000,
    ensures
        r.0.wf(),
        r.3@.exchanges.len() == games@.len(),
        sim_log_ok(
            original_elos@,
            games_view(games@),
            r.3@.exchanges,
            run_config@,
            f64_bits_of_u64(experiment_config.starting_elo as u64),
            random_seed as u64,
        ),
        r.0@ == sim_table_after(original_elos@, games_view(games@), r.3@.exchanges),
        games_view(r.1@) == sim_games_view(games_view(games@), r.3@.exchanges),
        forall|i: int| 0 <= i < games@.len() ==> result_consistent(
            #[trigger] games_view(r.1@)[i],
        ),
        sim_summary_ok(r.3@.summary, games_view(games@)),
        r.2@ == adapted_config(run_config@, r.3@.summary, games@.len() as nat),
{
    let ghost all = games_view(games@);
    let ghost cfg_v = run_config@;
    let ghost seed_v = random_seed as u64;
    let custom_elo = CustomElo { config: run_config.clone() };
    let default_bits = f64_from_u64(experiment_config.starting_elo as u64);
    let mut starting_elos = original_elos.duplicate();
    let mut simulated_games: Vec<Game> = Vec::new();
    let mut rng = SeededRng::new(random_seed as u64);
    let mut acc_home_elo_variation: u64 = ACC_ZERO_BITS;
    let mut acc_away_elo_variation: u64 = ACC_ZERO_BITS;
    let mut acc_tie_count: usize = 0;
    let mut log: Ghost<Seq<SimExchange>> = Ghost(Seq::empty());
    let n = games.len();
    let mut i: usize = 0;
    proof {
        assert(all.take(0) =~= Seq::<GameV>::empty());
        assert(games_view(simulated_games@) =~= sim_games_view(all.take(0), log@));
    }
    while i < n
        invariant
            i <= n,
            n == games@.len(),
            n < 0x20000000000000,
            all == games_view(games@),
            cfg_v == run_config@,
            seed_v == random_seed as u64,
            custom_elo.config@ == cfg_v,
            valid_divisions(all, cfg_v),
            default_bits == f64_bits_of_u64(experiment_config.starting_elo as u64),
            starting_elos.wf(),
            rng.seed() == seed_v,
            rng.drawn() == i,
            log@.len() == i,
            acc_tie_count == count_draws(all.take(i as int)),
            sim_log_ok(original_elos@, all.take(i as int), log@, cfg_v, default_bits, seed_v),
            starting_elos@ == sim_table_after(original_elos@, all.take(i as int), log@),
            simulated_games@.len() == i,
            games_view(simulated_games@) == sim_games_view(all.take(i as int), log@),
            i > 0 ==> acc_home_elo_variation == log@.last().acc_home,
            i > 0 ==> acc_away_elo_variation == log@.last().acc_away,
            i == 0 ==> acc_home_elo_variation == ACC_ZERO_BITS,
            i == 0 ==> acc_away_elo_variation == ACC_ZERO_BITS,
        decreases n - i,
    {
        proof {
            assert(all[i as int] == games@[i as int]@);
            assert(1 <= all[i as int].division <= cfg_v.w_division.len());
            lemma_count_draws_bound(all.take(i as int));
        }
        let home_rating = starting_elos.rating_or(&games[i].home, default_bits);
        let away_rating = starting_elos.rating_or(&games[i].away, default_bits);
        let (exp_tie, exp_home, _exp_away, expected_call) = expected_score(
            kernel,
            &CustomRating { rating: home_rating },
            &CustomRating { rating: away_rating },
            &custom_elo.config,
        );
        let raw = rng.next_raw();
        let u = f64_from_raw_draw(raw);
        let tie_plus_home = kernel.add(exp_tie, exp_home);
        let sim_result = decide_outcome(u, exp_tie, tie_plus_home);
        let goal_diff = games[i].abs_goal_diff();
        let market_sub = kernel.sub(games[i].home_value, games[i].away_value);
        let market_value_diff = f64_abs(market_sub);
        let division = games[i].division as usize;
        let (new_home, new_away, rate_call) = custom_elo.rate(
            kernel,
            &CustomRating { rating: home_rating },
            &CustomRating { rating: away_rating },
            sim_result,
            goal_diff,
            market_value_diff,
            division,
        );
        let home_diff = kernel.sub(new_home.rating, home_rating);
        let away_diff = kernel.sub(new_away.rating, away_rating);
        let new_acc_home = kernel.add(acc_home_elo_variation, home_diff);
        let new_acc_away = kernel.add(acc_away_elo_variation, away_diff);
        if matches!(games[i].result, GameResult::D) {
            acc_tie_count = acc_tie_count + 1;
        }
        let mut simulated_game = games[i].clone();
        simulated_game.result = sim_result;
        let (sim_home_score, sim_away_score) = match sim_result {
            GameResult::H => (1u16, 0u16),
            GameResult::A => (0u16, 1u16),
            GameResult::D => (1u16, 1u16),
        };
        simulated_game.home_score = sim_home_score;
        simulated_game.away_score = sim_away_score;
        simulated_game.home_elo = Some(new_home.rating);
        simulated_game.away_elo = Some(new_away.rating);
        let ghost e = SimExchange {
            expected: expected_call@,
            raw,
            tie_plus_home,
            sim_result,
            market_sub,
            call: rate_call@,
            home_diff,
            away_diff,
            acc_home: new_acc_home,
            acc_away: new_acc_away,
        };
        let ghost table_before = starting_elos@;
        let ghost sims_prev = simulated_games@;
        starting_elos.insert(games[i].home.clone(), new_home.rating);
        starting_elos.insert(games[i].away.clone(), new_away.rating);
        simulated_games.push(simulated_game);
        acc_home_elo_variation = new_acc_home;
        acc_away_elo_variation = new_acc_away;
        proof {
            let prev = log@;
            log@ = log@.push(e);
            assert(all.take(i + 1).drop_last() =~= all.take(i as int));
            assert(log@.drop_last() =~= prev);
            assert(all.take(i + 1).last() == all[i as int]);
            assert(sim_request_ok(
                table_before,
                all[i as int],
                e,
                cfg_v,
                default_bits,
                seed_v,
                i as nat,
            ));
            assert(sim_log_ok(
                original_elos@,
                all.take(i + 1),
                log@,
                cfg_v,
                default_bits,
                seed_v,
            ));
            assert(starting_elos@ == sim_table_after(original_elos@, all.take(i + 1), log@));
            assert(acc_tie_count == count_draws(all.take(i + 1)));
            assert(simulated_game@ == simulated_view(all[i as int], e));
            assert forall|j: int| 0 <= j < i + 1 implies games_view(simulated_games@)[j]
                == sim_games_view(all.take(i + 1), log@)[j] by {
                assert(all.take(i + 1)[j] == all[j]);
                if j < i {
                    assert(simulated_games@[j] == sims_prev[j]);
                    assert(games_view(sims_prev)[j] == sim_games_view(
                        all.take(i as int),
                        prev,
                    )[j]);
                    assert(log@[j] == prev[j]);
                } else {
                    assert(simulated_games@[j] == simulated_game);
                    assert(log@[j] == e);
                }
            }
            assert(games_view(simulated_games@) =~= sim_games_view(all.take(i + 1), log@));
        }
        i = i + 1;
    }
    proof {
        assert(all.take(n as int) =~= all);
        lemma_count_draws_bound(all);
    }
    let (adapted, summary): (RunConfig, Ghost<SimSummary>) = if n == 0 {
        (
            run_config.clone(),
            Ghost(
                SimSummary {
                    tie_count: 0,
                    tie_count_bits: f64_bits_of_u64(0),
                    len_bits: f64_bits_of_u64(0),
                    tie_frequency: cfg_v.tie_frequency,
                    delta: ACC_ZERO_BITS,
                    adjustment: ACC_ZERO_BITS,
                    home_advantage: cfg_v.home_advantage,
                },
            ),
        )
    } else {
        let tie_count_bits = f64_from_u64(acc_tie_count as u64);
        let len_bits = f64_from_u64(n as u64);
        let tie_frequency = kernel.div(tie_count_bits, len_bits);
        let delta = kernel.sub(acc_home_elo_variation, acc_away_elo_variation);
        let adjustment = kernel.mul(run_config.home_field_advantage_weight, delta);
        let new_home_advantage = kernel.add(run_config.home_advantage, adjustment);
        let mut config_copy = run_config.clone();
        config_copy.tie_frequency = tie_frequency;
        config_copy.home_advantage = new_home_advantage;
        (
            config_copy,
            Ghost(
                SimSummary {
                    tie_count: acc_tie_count as nat,
                    tie_count_bits,
                    len_bits,
                    tie_frequency,
                    delta,
                    adjustment,
                    home_advantage: new_home_advantage,
                },
            ),
        )
    };
    proof {
        assert(adapted@ =~= adapted_config(cfg_v, summary@, n as nat));
    }
    let ghost sim_log = SimLog { exchanges: log@, summary: summary@ };
    proof {
        assert forall|j: int| 0 <= j < all.len() implies result_consistent(
            #[trigger] sim_games_view(all, log@)[j],
        ) by {
            let e = log@[j];
            assert(result_of_scores(
                placeholder_scores(e.sim_result).0,
                placeholder_scores(e.sim_result).1,
            ) == e.sim_result);
        }
    }
    (starting_elos, simulated_games, adapted, Ghost(sim_log))
}

} // verus!
