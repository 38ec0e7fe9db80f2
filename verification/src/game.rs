//! The match record and its outcome model.
//!
//! A `Game` describes one played (or simulated) match: the two team names,
//! the season it belongs to, its division, the goal counts, the result from
//! the home side's perspective, the two market-value metrics (bit patterns
//! of doubles), and the optional post-match rating snapshots that a
//! simulation fills in.

use vstd::prelude::*;

verus! {

/// Result of a match from the home team's perspective.
#[derive(Clone, Copy, Debug, PartialEq, Eq, Structural)]
pub enum GameResult {
    H,
    A,
    D,
}

/// Outcome of a match from one side's perspective.
#[derive(Clone, Copy, Debug, PartialEq, Eq, Structural)]
pub enum MatchOutcome {
    Win,
    Draw,
    Loss,
}

/// One match record.
#[derive(Debug)]
pub struct Game {
    pub home: String,
    pub away: String,
    pub home_score: u16,
    pub away_score: u16,
    pub result: GameResult,
    pub year: u16,
    pub division: u8,
    /// Bit pattern of the home side's normalised market value.
    pub home_value: u64,
    /// Bit pattern of the away side's normalised market value.
    pub away_value: u64,
    /// Bit pattern of the home side's rating after this match, once known.
    pub home_elo: Option<u64>,
    /// Bit pattern of the away side's rating after this match, once known.
    pub away_elo: Option<u64>,
}

/// Mathematical image of a `Game`: team names as character sequences,
/// everything else as plain values.
pub struct GameV {
    pub home: Seq<char>,
    pub away: Seq<char>,
    pub home_score: u16,
    pub away_score: u16,
    pub result: GameResult,
    pub year: u16,
    pub division: u8,
    pub home_value: u64,
    pub away_value: u64,
    pub home_elo: Option<u64>,
    pub away_elo: Option<u64>,
}

impl View for Game {
    type V = GameV;

    open spec fn view(&self) -> GameV {
        GameV {
            home: self.home@,
            away: self.away@,
            home_score: self.home_score,
            away_score: self.away_score,
            result: self.result,
            year: self.year,
            division: self.division,
            home_value: self.home_value,
            away_value: self.away_value,
            home_elo: self.home_elo,
            away_elo: self.away_elo,
        }
    }
}

/// The images of a sequence of games.
pub open spec fn games_view(s: Seq<Game>) -> Seq<GameV> {
    s.map_values(|g: Game| g@)
}

/// The result that a pair of goal counts determines.
pub open spec fn result_of_scores(home_score: u16, away_score: u16) -> GameResult {
    if home_score > away_score {
        GameResult::H
    } else if away_score > home_score {
        GameResult::A
    } else {
        GameResult::D
    }
}

/// A record whose result agrees with its goal counts.
pub open spec fn result_consistent(g: GameV) -> bool {
    g.result == result_of_scores(g.home_score, g.away_score)
}

/// Absolute goal difference of a record.
pub open spec fn spec_abs_goal_diff(g: GameV) -> u16 {
    if g.home_score >= g.away_score {
        (g.home_score - g.away_score) as u16
    } else {
        (g.away_score - g.home_score) as u16
    }
}

impl Clone for Game {
    /// An independent deep copy; records from different seasons or
    /// simulations never alias.
    fn clone(&self) -> (r: Self)
        ensures
            r == *self,
    {
        Game {
            home: self.home.clone(),
            away: self.away.clone(),
            home_score: self.home_score,
            away_score: self.away_score,
            result: self.result,
            year: self.year,
            division: self.division,
            home_value: self.home_value,
            away_value: self.away_value,
            home_elo: self.home_elo,
            away_elo: self.away_elo,
        }
    }
}

impl Game {
    /// The outcome of this record for the home and the away side, in that
    /// order.
    pub fn get_match_outcome(&self) -> (r: (MatchOutcome, MatchOutcome))
        ensures
            self.result == GameResult::H ==> r == (MatchOutcome::Win, MatchOutcome::Loss),
            self.result == GameResult::A ==> r == (MatchOutcome::Loss, MatchOutcome::Win),
            self.result == GameResult::D ==> r == (MatchOutcome::Draw, MatchOutcome::Draw),
    {
        match self.result {
            GameResult::H => (MatchOutcome::Win, MatchOutcome::Loss),
            GameResult::A => (MatchOutcome::Loss, MatchOutcome::Win),
            GameResult::D => (MatchOutcome::Draw, MatchOutcome::Draw),
        }
    }

    /// Absolute goal difference of this record.
    pub fn abs_goal_diff(&self) -> (r: u16)
        ensures
            r == spec_abs_goal_diff(self@),
    {
        if self.home_score >= self.away_score {
            self.home_score - self.away_score
        } else {
            self.away_score - self.home_score
        }
    }
}

/// The records of one year, in input order.
pub open spec fn year_filter(s: Seq<GameV>, year: u16) -> Seq<GameV> {
    s.filter(|g: GameV| g.year == year)
}

/// Extending the input by one record extends its year's slice exactly when
/// the record belongs to that year.
pub proof fn lemma_year_filter_step(s: Seq<GameV>, i: int, year: u16)
    requires
        0 <= i < s.len(),
    ensures
        year_filter(s.take(i + 1), year) == if s[i].year == year {
            year_filter(s.take(i), year).push(s[i])
        } else {
            year_filter(s.take(i), year)
        },
{
    let t = s.take(i + 1);
    assert(t.drop_last() =~= s.take(i));
    assert(t.last() == s[i]);
    assert(t.len() == i + 1);
    reveal_with_fuel(Seq::filter, 2);
}

/// The records of the given year, in input order.
pub fn filter_by_year(games: &Vec<Game>, year: u16) -> (r: Vec<Game>)
    ensures
        games_view(r@) == year_filter(games_view(games@), year),
{
    let ghost all = games_view(games@);
    let mut r: Vec<Game> = Vec::new();
    let mut i: usize = 0;
    assert(games_view(r@) =~= year_filter(all.take(0), year));
    while i < games.len()
        invariant
            i <= games.len(),
            all == games_view(games@),
            games_view(r@) == year_filter(all.take(i as int), year),
        decreases games.len() - i,
    {
        proof {
            lemma_year_filter_step(all, i as int, year);
        }
        if games[i].year == year {
            r.push(games[i].clone());
            assert(games_view(r@) =~= year_filter(all.take(i + 1), year));
        } else {
            assert(games_view(r@) =~= year_filter(all.take(i + 1), year));
        }
        i = i + 1;
    }
    proof {
        assert(all.take(games@.len() as int) =~= all);
    }
    r
}

} // verus!
