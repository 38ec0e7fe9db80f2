//! Run parameters: the rating-model configuration (which doubles as the
//! genome an external optimizer evolves), the orchestration
//! hyperparameters, and the rating-system capability that supplies the
//! double-precision arithmetic of the model.

use vstd::prelude::*;
use crate::errors::EloError;
use crate::game::GameResult;
use crate::table::CustomRating;
use crate::bits::{f64_bits_of_u64, f64_from_u64};

verus! {

/// Bit pattern of the double 20.0.
pub const BITS_20: u64 = 0x4034000000000000;

/// Bit pattern of the double 1.0.
pub const BITS_1: u64 = 0x3FF0000000000000;

/// Bit pattern of the double 0.075.
pub const BITS_0_075: u64 = 0x3FB3333333333333;

/// Bit pattern of the double 0.5.
pub const BITS_0_5: u64 = 0x3FE0000000000000;

/// The rating-model parameters. Every scalar is the bit pattern of a
/// double.
#[derive(Debug)]
pub struct RunConfig {
    /// Base update rate (k-factor).
    pub k_factor: u64,
    /// Nonlinearity exponent on the goal difference.
    pub gamma: u64,
    /// Home-advantage offset on the expected score.
    pub home_advantage: u64,
    /// Weight with which the home advantage adapts from observed data.
    pub home_field_advantage_weight: u64,
    /// Nonlinearity exponent on the market-value difference.
    pub market_value_weight: u64,
    /// Additive denominator term that shapes the draw probability.
    pub tie_frequency: u64,
    /// Per-division update weight, indexed by division number (1-based).
    pub w_division: Vec<u64>,
}

/// Mathematical image of a `RunConfig`.
#[verifier::ext_equal]
pub struct ConfigV {
    pub k_factor: u64,
    pub gamma: u64,
    pub home_advantage: u64,
    pub home_field_advantage_weight: u64,
    pub market_value_weight: u64,
    pub tie_frequency: u64,
    pub w_division: Seq<u64>,
}

impl View for RunConfig {
    type V = ConfigV;

    open spec fn view(&self) -> ConfigV {
        ConfigV {
            k_factor: self.k_factor,
            gamma: self.gamma,
            home_advantage: self.home_advantage,
            home_field_advantage_weight: self.home_field_advantage_weight,
            market_value_weight: self.market_value_weight,
            tie_frequency: self.tie_frequency,
            w_division: self.w_division@,
        }
    }
}

impl Clone for RunConfig {
    /// An independent copy with the same parameters.
    fn clone(&self) -> (r: Self)
        ensures
            r@ == self@,
    {
        let n = self.w_division.len();
        let mut w: Vec<u64> = Vec::new();
        let mut i: usize = 0;
        while i < n
            invariant
                i <= n,
                n == self.w_division@.len(),
                w@ == self.w_division@.take(i as int),
            decreases n - i,
        {
            w.push(self.w_division[i]);
            proof {
                assert(w@ =~= self.w_division@.take(i + 1));
            }
            i = i + 1;
        }
        proof {
            assert(self.w_division@.take(n as int) =~= self.w_division@);
        }
        let r = RunConfig {
            k_factor: self.k_factor,
            gamma: self.gamma,
            home_advantage: self.home_advantage,
            home_field_advantage_weight: self.home_field_advantage_weight,
            market_value_weight: self.market_value_weight,
            tie_frequency: self.tie_frequency,
            w_division: w,
        };
        proof {
            assert(r@ =~= self@);
        }
        r
    }
}

/// The historical default genome: k-factor 20, gamma 1, home advantage
/// 0.075, adaptation weight 0.075, market-value weight 1, tie frequency
/// 0.5, one division of weight 20.
pub open spec fn spec_default_config() -> ConfigV {
    ConfigV {
        k_factor: BITS_20,
        gamma: BITS_1,
        home_advantage: BITS_0_075,
        home_field_advantage_weight: BITS_0_075,
        market_value_weight: BITS_1,
        tie_frequency: BITS_0_5,
        w_division: seq![BITS_20],
    }
}

/// The configuration a training pass uses: the given one, or the default.
pub open spec fn config_view_or_default(c: Option<&RunConfig>) -> ConfigV {
    match c {
        Some(c) => c@,
        None => spec_default_config(),
    }
}

impl Default for RunConfig {
    /// The historical default genome (see `spec_default_config`).
    fn default() -> (r: Self)
        ensures
            r@ == spec_default_config(),
    {
        let mut w: Vec<u64> = Vec::new();
        w.push(BITS_20);
        let r = RunConfig {
            k_factor: BITS_20,
            gamma: BITS_1,
            home_advantage: BITS_0_075,
            home_field_advantage_weight: BITS_0_075,
            market_value_weight: BITS_1,
            tie_frequency: BITS_0_5,
            w_division: w,
        };
        proof {
            assert(r@ =~= spec_default_config());
        }
        r
    }
}

impl RunConfig {
    /// The configuration to train with: the given one, or the default.
    pub fn clone_or_default(config: Option<&RunConfig>) -> (r: Self)
        ensures
            r@ == config_view_or_default(config),
    {
        match config {
            Some(c) => c.clone(),
            None => RunConfig::default(),
        }
    }
}

/// The configuration a flat genome list of at least seven entries
/// denotes: the six fixed scalars in order, then one weight per
/// division.
pub open spec fn parsed_config(params: Seq<u64>) -> ConfigV {
    ConfigV {
        k_factor: params[0],
        gamma: params[1],
        home_advantage: params[2],
        home_field_advantage_weight: params[3],
        market_value_weight: params[4],
        tie_frequency: params[5],
        w_division: params.skip(6),
    }
}

/// The hyperparameters a flat list of exactly eight entries denotes; the
/// three toggles are nonzero-as-true.
pub open spec fn parsed_hyperparameters(params: Seq<u16>) -> RunHyperparameters {
    RunHyperparameters {
        starting_elo: params[0],
        starting_year: params[1],
        backtest_years: params[2],
        random_variations: params[3],
        use_goals_diff: params[4] != 0,
        use_home_advantage: params[5] != 0,
        use_market_values: params[6] != 0,
        leagues_to_use: params[7],
    }
}

impl RunConfig {
    /// Reads a configuration from the flat genome list: the six fixed
    /// scalars in order, then one weight per division. Rejects a list too
    /// short to hold them.
    pub fn from_list(params: Vec<u64>) -> (r: Result<Self, EloError>)
        ensures
            params@.len() < 7 ==> r == Err::<Self, EloError>(EloError::BadConfigLength),
            params@.len() >= 7 ==> (r matches Ok(c) && c@ == parsed_config(params@)),
    {
        if params.len() < 7 {
            return Err(EloError::BadConfigLength);
        }
        let n = params.len();
        let mut w: Vec<u64> = Vec::new();
        let mut i: usize = 6;
        while i < n
            invariant
                6 <= i <= n,
                n == params@.len(),
                w@ == params@.subrange(6, i as int),
            decreases n - i,
        {
            w.push(params[i]);
            proof {
                assert(w@ =~= params@.subrange(6, i + 1));
            }
            i = i + 1;
        }
        proof {
            assert(params@.subrange(6, n as int) =~= params@.skip(6));
        }
        let c = RunConfig {
            k_factor: params[0],
            gamma: params[1],
            home_advantage: params[2],
            home_field_advantage_weight: params[3],
            market_value_weight: params[4],
            tie_frequency: params[5],
            w_division: w,
        };
        proof {
            assert(c@ =~= parsed_config(params@));
        }
        Ok(c)
    }
}

/// The orchestration parameters of one fitness evaluation.
#[derive(Clone, Copy, Debug, PartialEq, Eq, Structural)]
pub struct RunHyperparameters {
    /// Rating given to a team never seen before.
    pub starting_elo: u16,
    /// First year of the training window.
    pub starting_year: u16,
    /// Number of training years after the starting year.
    pub backtest_years: u16,
    /// Number of independent seeded simulation replays per season.
    pub random_variations: u16,
    pub use_goals_diff: bool,
    pub use_home_advantage: bool,
    pub use_market_values: bool,
    pub leagues_to_use: u16,
}

impl Default for RunHyperparameters {
    /// The historical defaults: rating 1000 from 2003, eight training
    /// years, twenty variations, one league, every toggle off.
    fn default() -> (r: Self)
        ensures
            r == (RunHyperparameters {
                starting_elo: 1000u16,
                starting_year: 2003u16,
                backtest_years: 8u16,
                random_variations: 20u16,
                use_goals_diff: false,
                use_home_advantage: false,
                use_market_values: false,
                leagues_to_use: 1u16,
            }),
    {
        RunHyperparameters {
            starting_elo: 1000,
            starting_year: 2003,
            backtest_years: 8,
            random_variations: 20,
            use_goals_diff: false,
            use_home_advantage: false,
            use_market_values: false,
            leagues_to_use: 1,
        }
    }
}

impl RunHyperparameters {
    /// Reads the hyperparameters from the flat list of exactly eight
    /// integers; the three toggles are nonzero-as-true.
    pub fn from_list(params: Vec<u16>) -> (r: Result<Self, EloError>)
        ensures
            params@.len() != 8 ==> r == Err::<Self, EloError>(EloError::BadHyperparameterLength),
            params@.len() == 8 ==> r == Ok::<Self, EloError>(parsed_hyperparameters(params@)),
    {
        if params.len() != 8 {
            return Err(EloError::BadHyperparameterLength);
        }
        Ok(
            RunHyperparameters {
                starting_elo: params[0],
                starting_year: params[1],
                backtest_years: params[2],
                random_variations: params[3],
                use_goals_diff: params[4] != 0,
                use_home_advantage: params[5] != 0,
                use_market_values: params[6] != 0,
                leagues_to_use: params[7],
            },
        )
    }

    /// The first simulated year: the season right after the training
    /// window.
    pub fn base_year(&self) -> (r: u16)
        requires
            self.backtest_years + self.starting_year + 1 <= u16::MAX,
        ensures
            r == self.backtest_years + self.starting_year + 1,
    {
        self.backtest_years + self.starting_year + 1
    }
}

/// The arithmetic capability of the rating model: every method computes on
/// (and returns) bit patterns of doubles. The engine fixes which calls are
/// made and in which order; an implementation supplies the IEEE 754
/// arithmetic, which is outside what the verifier reads.
pub trait RatingSystem {
    /// The three-way probability split `(p_tie, p_one, p_two)` of the
    /// model: with `x = (two - one - home_advantage) / 400`,
    /// `p_one = 10^x / D`, `p_two = 10^-x / D`,
    /// `D = 10^x + 10^-x + tie_frequency`, `p_tie = 1 - p_one - p_two`.
    fn expected_score(&self, player_one: u64, player_two: u64, config: &RunConfig) -> (u64, u64, u64);

    /// The two new ratings after one match:
    /// `new = old + k_factor * division_weight
    ///  * (1 + market_value_diff)^market_value_weight
    ///  * (1 + goal_diff)^gamma * (actual - expected)`,
    /// each side with its own actual/expected pair.
    fn rate(
        &self,
        player_one: u64,
        player_two: u64,
        outcome: GameResult,
        absolute_goal_diff: u64,
        absolute_market_value_diff: u64,
        division_weight: u64,
        config: &RunConfig,
    ) -> (u64, u64);

    /// IEEE 754 sum of two doubles.
    fn add(&self, a: u64, b: u64) -> u64;

    /// IEEE 754 difference of two doubles.
    fn sub(&self, a: u64, b: u64) -> u64;

    /// IEEE 754 product of two doubles.
    fn mul(&self, a: u64, b: u64) -> u64;

    /// IEEE 754 quotient of two doubles.
    fn div(&self, a: u64, b: u64) -> u64;

    /// Square root of a double.
    fn sqrt(&self, a: u64) -> u64;

    /// Logarithm of a double in the given base.
    fn log(&self, a: u64, base: u64) -> u64;
}

/// The custom weighted Elo variant: a configuration together with the
/// bounds bookkeeping around the arithmetic capability.
#[derive(Debug)]
pub struct CustomElo {
    pub config: RunConfig,
}

/// One recorded call of `RatingSystem::rate`: what was handed over —
/// the two ratings, the result, the goal difference widened to a double,
/// the absolute market-value difference, the division's weight — and the
/// two ratings that came back.
#[verifier::ext_equal]
pub struct RateCall {
    pub player_one: u64,
    pub player_two: u64,
    pub outcome: GameResult,
    /// The goal difference handed over, as the exact double of the count.
    pub goal_diff_bits: u64,
    pub market_value_diff: u64,
    pub division_weight: u64,
    /// The two ratings the rating system returned.
    pub new_one: u64,
    pub new_two: u64,
}

impl CustomElo {
    /// Rates one match: selects the division's weight (the division is
    /// 1-based; one outside the weight vector is a caller error), widens
    /// the goal difference to a double, and hands the update to the rating
    /// system. The returned record pins the whole request — in particular
    /// that the weight is the 1-based division's own — and carries the
    /// system's answers, which the returned ratings equal.
    pub fn rate<K: RatingSystem>(
        &self,
        kernel: &K,
        player_one: &CustomRating,
        player_two: &CustomRating,
        outcome: GameResult,
        absolute_goal_diff: u16,
        absolute_market_value_diff: u64,
        division: usize,
    ) -> (r: (CustomRating, CustomRating, Ghost<RateCall>))
        requires
            1 <= division <= self.config@.w_division.len(),
        ensures
            r.2@.player_one == player_one.rating,
            r.2@.player_two == player_two.rating,
            r.2@.outcome == outcome,
            r.2@.goal_diff_bits == f64_bits_of_u64(absolute_goal_diff as u64),
            r.2@.market_value_diff == absolute_market_value_diff,
            r.2@.division_weight == self.config@.w_division[division - 1],
            r.0.rating == r.2@.new_one,
            r.1.rating == r.2@.new_two,
    {
        let w = self.config.w_division[division - 1];
        let gd = f64_from_u64(absolute_goal_diff as u64);
        let (one, two) = kernel.rate(
            player_one.rating,
            player_two.rating,
            outcome,
            gd,
            absolute_market_value_diff,
            w,
            &self.config,
        );
        let ghost call = RateCall {
            player_one: player_one.rating,
            player_two: player_two.rating,
            outcome,
            goal_diff_bits: gd,
            market_value_diff: absolute_market_value_diff,
            division_weight: w,
            new_one: one,
            new_two: two,
        };
        (CustomRating { rating: one }, CustomRating { rating: two }, Ghost(call))
    }
}

/// One recorded call of `RatingSystem::expected_score`: the two ratings
/// handed over and the three-way split that came back.
#[verifier::ext_equal]
pub struct ExpectedCall {
    pub player_one: u64,
    pub player_two: u64,
    pub exp_tie: u64,
    pub exp_one: u64,
    pub exp_two: u64,
}

/// The three-way expected score of two ratings under a configuration, as
/// the rating system computes it. The returned record pins the two
/// ratings handed over; the returned triple equals the recorded answers.
pub fn expected_score<K: RatingSystem>(
    kernel: &K,
    player_one: &CustomRating,
    player_two: &CustomRating,
    config: &RunConfig,
) -> (r: (u64, u64, u64, Ghost<ExpectedCall>))
    ensures
        r.3@.player_one == player_one.rating,
        r.3@.player_two == player_two.rating,
        r.0 == r.3@.exp_tie,
        r.1 == r.3@.exp_one,
        r.2 == r.3@.exp_two,
{
    let (exp_tie, exp_one, exp_two) = kernel.expected_score(
        player_one.rating,
        player_two.rating,
        config,
    );
    let ghost call = ExpectedCall {
        player_one: player_one.rating,
        player_two: player_two.rating,
        exp_tie,
        exp_one,
        exp_two,
    };
    (exp_tie, exp_one, exp_two, Ghost(call))
}

} // verus!
