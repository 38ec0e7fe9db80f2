//! Season standings: league points from match results, and the per-team
//! comparison of a real season against a simulated one.

use vstd::prelude::*;
use crate::game::{Game, GameV, GameResult, games_view};

verus! {

/// A points value looked up with zero for unseen teams.
pub open spec fn points_or_zero(m: Map<Seq<char>, i64>, team: Seq<char>) -> i64 {
    if m.contains_key(team) {
        m[team]
    } else {
        0
    }
}

/// One match's points: three to the winner, or one to each side of a
/// draw; the home side is credited first.
pub open spec fn apply_points(m: Map<Seq<char>, i64>, g: GameV) -> Map<Seq<char>, i64> {
    match g.result {
        GameResult::H => m.insert(g.home, (points_or_zero(m, g.home) + 3) as i64),
        GameResult::A => m.insert(g.away, (points_or_zero(m, g.away) + 3) as i64),
        GameResult::D => {
            let m1 = m.insert(g.home, (points_or_zero(m, g.home) + 1) as i64);
            m1.insert(g.away, (points_or_zero(m1, g.away) + 1) as i64)
        },
    }
}

/// The points table of a list of matches.
pub open spec fn points_after(games: Seq<GameV>) -> Map<Seq<char>, i64>
    decreases games.len(),
{
    if games.len() == 0 {
        Map::empty()
    } else {
        apply_points(points_after(games.drop_last()), games.last())
    }
}

/// Every entry of a points table lies between zero and three points per
/// match played.
pub proof fn lemma_points_bounds(games: Seq<GameV>)
    requires
        games.len() * 3 < i64::MAX,
    ensures
        forall|t: Seq<char>| points_after(games).contains_key(t) ==> 0 <= #[trigger] points_after(
            games,
        )[t] <= 3 * games.len(),
    decreases games.len(),
{
    if games.len() > 0 {
        lemma_points_bounds(games.drop_last());
        let m = points_after(games.drop_last());
        let g = games.last();
        let res = points_after(games);
        assert forall|t: Seq<char>| res.contains_key(t) implies 0 <= #[trigger] res[t] <= 3
            * games.len() by {
            if m.contains_key(t) {
                assert(0 <= m[t] <= 3 * (games.len() - 1));
            }
            match g.result {
                GameResult::H => {
                    assert(res == m.insert(g.home, (points_or_zero(m, g.home) + 3) as i64));
                },
                GameResult::A => {
                    assert(res == m.insert(g.away, (points_or_zero(m, g.away) + 3) as i64));
                },
                GameResult::D => {
                    let m1 = m.insert(g.home, (points_or_zero(m, g.home) + 1) as i64);
                    assert(res == m1.insert(g.away, (points_or_zero(m1, g.away) + 1) as i64));
                    if m.contains_key(g.home) {
                        assert(0 <= m[g.home] <= 3 * (games.len() - 1));
                    }
                },
            }
        }
    }
}

/// The map that a name/points pair list denotes.
pub open spec fn points_map(s: Seq<(String, i64)>) -> Map<Seq<char>, i64>
    decreases s.len(),
{
    if s.len() == 0 {
        Map::empty()
    } else {
        points_map(s.drop_last()).insert(s.last().0@, s.last().1)
    }
}

/// Pairwise distinct names.
pub open spec fn unique_point_keys(s: Seq<(String, i64)>) -> bool {
    forall|i: int, j: int| 0 <= i < j < s.len() ==> s[i].0@ != s[j].0@
}

proof fn lemma_points_map_domain(s: Seq<(String, i64)>, k: Seq<char>)
    ensures
        points_map(s).contains_key(k) <==> exists|i: int| 0 <= i < s.len() && s[i].0@ == k,
    decreases s.len(),
{
    if s.len() > 0 {
        lemma_points_map_domain(s.drop_last(), k);
        if points_map(s).contains_key(k) && s.last().0@ != k {
            let i = choose|i: int| 0 <= i < s.drop_last().len() && s.drop_last()[i].0@ == k;
            assert(s[i].0@ == k);
        }
        if exists|i: int| 0 <= i < s.len() && s[i].0@ == k {
            let i = choose|i: int| 0 <= i < s.len() && s[i].0@ == k;
            if i < s.len() - 1 {
                assert(s.drop_last()[i].0@ == k);
            }
        }
    }
}

proof fn lemma_points_map_at(s: Seq<(String, i64)>, i: int)
    requires
        unique_point_keys(s),
        0 <= i < s.len(),
    ensures
        points_map(s).contains_key(s[i].0@),
        points_map(s)[s[i].0@] == s[i].1,
    decreases s.len(),
{
    if i == s.len() - 1 {
    } else {
        assert(s.drop_last()[i] == s[i]);
        lemma_points_map_at(s.drop_last(), i);
        assert(s.last().0@ != s[i].0@);
    }
}

proof fn lemma_points_map_update(s: Seq<(String, i64)>, i: int, p: (String, i64))
    requires
        unique_point_keys(s),
        0 <= i < s.len(),
        p.0@ == s[i].0@,
    ensures
        points_map(s.update(i, p)) =~= points_map(s).insert(p.0@, p.1),
    decreases s.len(),
{
    let t = s.update(i, p);
    if i == s.len() - 1 {
        assert(t.drop_last() =~= s.drop_last());
        assert(t.last() == p);
    } else {
        assert(t.drop_last() =~= s.drop_last().update(i, p));
        assert(t.last() == s.last());
        assert(s.drop_last()[i] == s[i]);
        lemma_points_map_update(s.drop_last(), i, p);
        assert(s.last().0@ != s[i].0@);
    }
}

/// Mapping from team name to league points.
#[derive(Debug)]
pub struct PointsTable {
    entries: Vec<(String, i64)>,
}

impl View for PointsTable {
    type V = Map<Seq<char>, i64>;

    closed spec fn view(&self) -> Map<Seq<char>, i64> {
        points_map(self.entries@)
    }
}

impl PointsTable {
    /// The names held, in first-credit order.
    pub closed spec fn keys(&self) -> Seq<Seq<char>> {
        self.entries@.map_values(|e: (String, i64)| e.0@)
    }

    pub closed spec fn wf(&self) -> bool {
        unique_point_keys(self.entries@)
    }

    pub fn new() -> (r: Self)
        ensures
            r@ =~= Map::<Seq<char>, i64>::empty(),
            r.wf(),
            r.keys() =~= Seq::<Seq<char>>::empty(),
    {
        PointsTable { entries: Vec::new() }
    }

    pub fn len(&self) -> (r: usize)
        ensures
            r == self.keys().len(),
    {
        self.entries.len()
    }

    pub fn team_at(&self, i: usize) -> (r: &String)
        requires
            i < self.keys().len(),
        ensures
            r@ == self.keys()[i as int],
    {
        &self.entries[i].0
    }

    pub fn points_at(&self, i: usize) -> (r: i64)
        requires
            i < self.keys().len(),
            self.wf(),
        ensures
            self@.contains_key(self.keys()[i as int]),
            r == self@[self.keys()[i as int]],
    {
        proof {
            lemma_points_map_at(self.entries@, i as int);
        }
        self.entries[i].1
    }

    /// The stored points, if the team is known.
    pub fn get(&self, team: &String) -> (r: Option<i64>)
        requires
            self.wf(),
        ensures
            r == if self@.contains_key(team@) {
                Some(self@[team@])
            } else {
                None::<i64>
            },
    {
        let n = self.entries.len();
        let mut i: usize = 0;
        while i < n
            invariant
                i <= n,
                n == self.entries@.len(),
                self.wf(),
                forall|j: int| 0 <= j < i ==> self.entries@[j].0@ != team@,
            decreases n - i,
        {
            if self.entries[i].0 == *team {
                proof {
                    lemma_points_map_at(self.entries@, i as int);
                }
                return Some(self.entries[i].1);
            }
            i = i + 1;
        }
        proof {
            lemma_points_map_domain(self.entries@, team@);
        }
        None
    }

    /// The stored points, or zero for an unseen team.
    pub fn points_or(&self, team: &String) -> (r: i64)
        requires
            self.wf(),
        ensures
            r == points_or_zero(self@, team@),
    {
        match self.get(team) {
            Some(p) => p,
            None => 0,
        }
    }

    /// Stores a points value, overwriting any previous one.
    pub fn insert(&mut self, team: String, points: i64)
        requires
            old(self).wf(),
        ensures
            final(self).wf(),
            final(self)@ =~= old(self)@.insert(team@, points),
            final(self).keys().len() <= old(self).keys().len() + 1,
    {
        let n = self.entries.len();
        let mut i: usize = 0;
        while i < n
            invariant
                i <= n,
                *self == *old(self),
                n == self.entries@.len(),
                self.wf(),
                forall|j: int| 0 <= j < i ==> self.entries@[j].0@ != team@,
            decreases n - i,
        {
            if self.entries[i].0 == team {
                proof {
                    lemma_points_map_update(self.entries@, i as int, (team, points));
                    assert(self.entries@.update(i as int, (team, points)).map_values(
                        |e: (String, i64)| e.0@,
                    ).len() == self.keys().len());
                }
                self.entries.set(i, (team, points));
                return ;
            }
            i = i + 1;
        }
        proof {
            assert(self.entries@.push((team, points)).drop_last() =~= self.entries@);
        }
        self.entries.push((team, points));
    }
}

/// The points table of one list of matches: three points to a winner,
/// one to each side of a draw, in match order.
pub fn calculate_points(games: &Vec<Game>) -> (r: PointsTable)
    requires
        games@.len() * 3 < i64::MAX,
    ensures
        r.wf(),
        r@ == points_after(games_view(games@)),
        r.keys().len() <= 2 * games@.len(),
{
    let ghost all = games_view(games@);
    let mut scores = PointsTable::new();
    let n = games.len();
    let mut i: usize = 0;
    proof {
        assert(all.take(0) =~= Seq::<GameV>::empty());
        assert(scores@ =~= points_after(all.take(0)));
    }
    while i < n
        invariant
            i <= n,
            n == games@.len(),
            n * 3 < i64::MAX,
            all == games_view(games@),
            scores.wf(),
            scores@ == points_after(all.take(i as int)),
            scores.keys().len() <= 2 * i,
        decreases n - i,
    {
        proof {
            assert(all[i as int] == games@[i as int]@);
            lemma_points_bounds(all.take(i as int));
            assert(all.take(i + 1).drop_last() =~= all.take(i as int));
            assert(all.take(i + 1).last() == all[i as int]);
        }
        match games[i].result {
            GameResult::H => {
                let cur = scores.points_or(&games[i].home);
                scores.insert(games[i].home.clone(), cur + 3);
            },
            GameResult::A => {
                let cur = scores.points_or(&games[i].away);
                scores.insert(games[i].away.clone(), cur + 3);
            },
            GameResult::D => {
                let cur_home = scores.points_or(&games[i].home);
                scores.insert(games[i].home.clone(), cur_home + 1);
                proof {
                    lemma_points_bounds(all.take(i as int));
                }
                let cur_away = scores.points_or(&games[i].away);
                scores.insert(games[i].away.clone(), cur_away + 1);
            },
        }
        proof {
            assert(scores@ =~= points_after(all.take(i + 1)));
        }
        i = i + 1;
    }
    proof {
        assert(all.take(n as int) =~= all);
    }
    scores
}

/// The per-team standings difference: for each team of the real table, in
/// first-credit order, the real points minus the simulated ones — zero
/// when the simulated table has no such team.
pub open spec fn standings_diff(rp: Map<Seq<char>, i64>, sp: Map<Seq<char>, i64>, team: Seq<char>) -> i64 {
    if sp.contains_key(team) {
        (rp[team] - sp[team]) as i64
    } else {
        0
    }
}

/// Compares the real season's standings against the simulated ones,
/// team by team of the real table.
pub fn compare_standing_tables(real_games: &Vec<Game>, simulated_games: &Vec<Game>) -> (r: Vec<
    (String, i64),
>)
    requires
        real_games@.len() * 3 < i64::MAX,
        simulated_games@.len() * 3 < i64::MAX,
    ensures
        ({
            let real_pts = points_after(games_view(real_games@));
            let sim_pts = points_after(games_view(simulated_games@));
            &&& forall|j: int| 0 <= j < r@.len() ==> real_pts.contains_key(#[trigger] r@[j].0@)
                && r@[j].1 == standings_diff(real_pts, sim_pts, r@[j].0@)
            &&& forall|t: Seq<char>| real_pts.contains_key(t) ==> exists|j: int|
                0 <= j < r@.len() && #[trigger] r@[j].0@ == t
            &&& r@.len() <= 2 * real_games@.len()
        }),
{
    let real_table = calculate_points(real_games);
    let simulated_table = calculate_points(simulated_games);
    let ghost real_pts = points_after(games_view(real_games@));
    let ghost sim_pts = points_after(games_view(simulated_games@));
    let mut r: Vec<(String, i64)> = Vec::new();
    let n = real_table.len();
    let mut i: usize = 0;
    while i < n
        invariant
            i <= n,
            n == real_table.keys().len(),
            real_table.wf(),
            simulated_table.wf(),
            real_pts == real_table@,
            sim_pts == simulated_table@,
            real_pts == points_after(games_view(real_games@)),
            sim_pts == points_after(games_view(simulated_games@)),
            real_games@.len() * 3 < i64::MAX,
            simulated_games@.len() * 3 < i64::MAX,
            r@.len() == i,
            forall|j: int| 0 <= j < i ==> r@[j].0@ == real_table.keys()[j],
            forall|j: int| 0 <= j < i ==> real_pts.contains_key(#[trigger] r@[j].0@) && r@[j].1
                == standings_diff(real_pts, sim_pts, r@[j].0@),
        decreases n - i,
    {
        let team = real_table.team_at(i).clone();
        let points = real_table.points_at(i);
        let diff: i64 = match simulated_table.get(&team) {
            Some(sim_points) => {
                proof {
                    lemma_points_bounds(games_view(real_games@));
                    lemma_points_bounds(games_view(simulated_games@));
                    assert(points_after(games_view(real_games@)).contains_key(team@));
                    assert(0 <= points_after(games_view(real_games@))[team@] <= 3 * games_view(
                        real_games@,
                    ).len());
                    assert(points_after(games_view(simulated_games@)).contains_key(team@));
                    assert(0 <= points_after(games_view(simulated_games@))[team@] <= 3
                        * games_view(simulated_games@).len());
                }
                points - sim_points
            },
            None => 0,
        };
        r.push((team, diff));
        i = i + 1;
    }
    proof {
        real_table.lemma_keys_match_view_points();
        assert forall|t: Seq<char>| real_pts.contains_key(t) implies exists|j: int|
            0 <= j < r@.len() && #[trigger] r@[j].0@ == t by {
            let k = choose|k: int|
                0 <= k < real_table.keys().len() && real_table.keys()[k] == t;
            assert(r@[k].0@ == t);
        }
    }
    r
}

impl PointsTable {
    pub proof fn lemma_keys_match_view_points(&self)
        ensures
            forall|i: int| 0 <= i < self.keys().len() ==> self@.contains_key(
                #[trigger] self.keys()[i],
            ),
            forall|k: Seq<char>| self@.contains_key(k) ==> exists|i: int|
                0 <= i < self.keys().len() && self.keys()[i] == k,
    {
        assert forall|i: int| 0 <= i < self.keys().len() implies self@.contains_key(
            #[trigger] self.keys()[i],
        ) by {
            lemma_points_map_domain(self.entries@, self.entries@[i].0@);
        }
        assert forall|k: Seq<char>| self@.contains_key(k) implies exists|i: int|
            0 <= i < self.keys().len() && self.keys()[i] == k by {
            lemma_points_map_domain(self.entries@, k);
            let i = choose|i: int| 0 <= i < self.entries@.len() && self.entries@[i].0@ == k;
            assert(self.keys()[i] == k);
        }
    }
}

/// How many distinct home-team names the list of matches holds.
pub open spec fn unique_home_count(games: Seq<GameV>) -> nat
    decreases games.len(),
{
    if games.len() == 0 {
        0
    } else {
        unique_home_count(games.drop_last()) + if (exists|j: int|
            0 <= j < games.len() - 1 && #[trigger] games[j].home == games.last().home) {
            0nat
        } else {
            1nat
        }
    }
}

/// Appending one match raises the distinct-home count exactly when its
/// home team is new.
proof fn lemma_unique_home_step(all: Seq<GameV>, i: int)
    requires
        0 <= i < all.len(),
    ensures
        unique_home_count(all.take(i + 1)) == unique_home_count(all.take(i)) + if (exists|j: int|
            0 <= j < i && #[trigger] all[j].home == all[i].home) {
            0nat
        } else {
            1nat
        },
{
    let t = all.take(i + 1);
    assert(t.drop_last() =~= all.take(i));
    assert(t.last() == all[i]);
    if exists|j: int| 0 <= j < t.len() - 1 && #[trigger] t[j].home == t.last().home {
        let j = choose|j: int| 0 <= j < t.len() - 1 && #[trigger] t[j].home == t.last().home;
        assert(all[j].home == all[i].home);
    }
    if exists|j: int| 0 <= j < i && #[trigger] all[j].home == all[i].home {
        let j = choose|j: int| 0 <= j < i && #[trigger] all[j].home == all[i].home;
        assert(t[j].home == t.last().home);
    }
}

/// Counts the distinct home-team names of a season, the denominator the
/// error aggregation normalises by.
#[verifier::rlimit(100)]
#[verifier::spinoff_prover]
pub fn count_unique_teams(games: &Vec<Game>) -> (r: u32)
    requires
        games@.len() < 0x100000000,
    ensures
        r == unique_home_count(games_view(games@)),
{
    let ghost all = games_view(games@);
    let mut seen: Vec<String> = Vec::new();
    let n = games.len();
    let mut i: usize = 0;
    proof {
        assert(all.take(0) =~= Seq::<GameV>::empty());
    }
    while i < n
        invariant
            i <= n,
            n == games@.len(),
            all == games_view(games@),
            seen@.len() == unique_home_count(all.take(i as int)),
            seen@.len() <= i,
            forall|k: int| 0 <= k < seen@.len() ==> exists|j: int| 0 <= j < i
                && #[trigger] seen@[k]@ == all[j].home,
            forall|j: int| 0 <= j < i ==> exists|k: int| 0 <= k < seen@.len()
                && seen@[k]@ == #[trigger] all[j].home,
        decreases n - i,
    {
        proof {
            assert(all[i as int] == games@[i as int]@);
            lemma_unique_home_step(all, i as int);
        }
        let mut found = false;
        let m = seen.len();
        let mut k: usize = 0;
        while k < m
            invariant
                k <= m,
                m == seen@.len(),
                i < n,
                n == games@.len(),
                all == games_view(games@),
                found ==> exists|j: int| 0 <= j < m && #[trigger] seen@[j]@ == all[i as int].home,
                !found ==> forall|j: int| 0 <= j < k ==> seen@[j]@ != all[i as int].home,
            decreases m - k,
        {
            if seen[k] == games[i].home {
                found = true;
                proof {
                    assert(seen@[k as int]@ == all[i as int].home);
                }
                k = m;
            } else {
                k = k + 1;
            }
        }
        let ghost seen_prev = seen@;
        if !found {
            seen.push(games[i].home.clone());
        }
        proof {
            if found {
                // the home team was seen, so some earlier match already used it
                let k0 = choose|j: int| 0 <= j < seen_prev.len() && #[trigger] seen_prev[j]@
                    == all[i as int].home;
                let j0 = choose|j: int| 0 <= j < i && #[trigger] seen_prev[k0]@ == all[j].home;
                assert(all[j0].home == all[i as int].home);
                assert(exists|j: int| 0 <= j < i && #[trigger] all[j].home == all[i as int].home);
            } else {
                // a new name: no earlier match used it
                if exists|j: int| 0 <= j < i && #[trigger] all[j].home == all[i as int].home {
                    let j0 = choose|j: int| 0 <= j < i && #[trigger] all[j].home
                        == all[i as int].home;
                    let k0 = choose|k2: int| 0 <= k2 < seen_prev.len() && seen_prev[k2]@
                        == all[j0].home;
                    assert(seen_prev[k0]@ == all[i as int].home);
                    assert(false);
                }
                assert(seen@[seen@.len() - 1]@ == all[i as int].home);
            }
            assert forall|k2: int| 0 <= k2 < seen@.len() implies exists|j: int| 0 <= j < i + 1
                && #[trigger] seen@[k2]@ == all[j].home by {
                if k2 < seen_prev.len() {
                    let j0 = choose|j: int| 0 <= j < i && #[trigger] seen_prev[k2]@ == all[j].home;
                    assert(seen@[k2]@ == all[j0].home);
                } else {
                    assert(seen@[k2]@ == all[i as int].home);
                }
            }
            assert forall|j: int| 0 <= j < i + 1 implies exists|k2: int| 0 <= k2 < seen@.len()
                && seen@[k2]@ == #[trigger] all[j].home by {
                if j < i {
                    let k0 = choose|k2: int| 0 <= k2 < seen_prev.len() && seen_prev[k2]@
                        == all[j].home;
                    assert(seen@[k0]@ == all[j].home);
                } else {
                    if found {
                        let k0 = choose|k2: int| 0 <= k2 < seen_prev.len()
                            && #[trigger] seen_prev[k2]@ == all[i as int].home;
                        assert(seen@[k0]@ == all[j].home);
                    } else {
                        assert(seen@[seen@.len() - 1]@ == all[j].home);
                    }
                }
            }
        }
        i = i + 1;
    }
    proof {
        assert(all.take(n as int) =~= all);
    }
    seen.len() as u32
}

/// A non-empty season names at least one home team.
pub proof fn lemma_unique_home_positive(games: Seq<GameV>)
    requires
        games.len() > 0,
    ensures
        unique_home_count(games) > 0,
    decreases games.len(),
{
    if games.len() > 1 {
        lemma_unique_home_positive(games.drop_last());
    }
}

} // verus!
