//! The season index: matches grouped by year.
//!
//! Built once per evaluation from the full match list and read-only
//! afterwards. Each year's slice keeps the input order of its matches,
//! which the trainer relies on being chronological.

use vstd::prelude::*;
use crate::game::{Game, GameV, games_view, year_filter};
use crate::game::filter_by_year;

verus! {

/// The map that the year/slice pair list denotes.
pub open spec fn seasons_map(s: Seq<(u16, Vec<Game>)>) -> Map<u16, Seq<GameV>>
    decreases s.len(),
{
    if s.len() == 0 {
        Map::empty()
    } else {
        seasons_map(s.drop_last()).insert(s.last().0, games_view(s.last().1@))
    }
}

/// Pairwise distinct years.
pub open spec fn unique_years(s: Seq<(u16, Vec<Game>)>) -> bool {
    forall|i: int, j: int| 0 <= i < j < s.len() ==> s[i].0 != s[j].0
}

/// Some game of the sequence was played in the given year.
pub open spec fn has_year(s: Seq<GameV>, year: u16) -> bool {
    exists|i: int| 0 <= i < s.len() && s[i].year == year
}

proof fn lemma_seasons_map_domain(s: Seq<(u16, Vec<Game>)>, y: u16)
    ensures
        seasons_map(s).contains_key(y) <==> exists|i: int| 0 <= i < s.len() && s[i].0 == y,
    decreases s.len(),
{
    if s.len() > 0 {
        lemma_seasons_map_domain(s.drop_last(), y);
        if seasons_map(s).contains_key(y) && s.last().0 != y {
            let i = choose|i: int| 0 <= i < s.drop_last().len() && s.drop_last()[i].0 == y;
            assert(s[i].0 == y);
        }
        if exists|i: int| 0 <= i < s.len() && s[i].0 == y {
            let i = choose|i: int| 0 <= i < s.len() && s[i].0 == y;
            if i < s.len() - 1 {
                assert(s.drop_last()[i].0 == y);
            }
        }
    }
}

proof fn lemma_seasons_map_at(s: Seq<(u16, Vec<Game>)>, i: int)
    requires
        unique_years(s),
        0 <= i < s.len(),
    ensures
        seasons_map(s).contains_key(s[i].0),
        seasons_map(s)[s[i].0] == games_view(s[i].1@),
    decreases s.len(),
{
    if i == s.len() - 1 {
    } else {
        assert(s.drop_last()[i] == s[i]);
        lemma_seasons_map_at(s.drop_last(), i);
        assert(s.last().0 != s[i].0);
    }
}

/// Matches grouped by the year they were played in.
#[derive(Debug)]
pub struct SeasonMap {
    entries: Vec<(u16, Vec<Game>)>,
}

impl View for SeasonMap {
    type V = Map<u16, Seq<GameV>>;

    closed spec fn view(&self) -> Map<u16, Seq<GameV>> {
        seasons_map(self.entries@)
    }
}

impl SeasonMap {
    /// The years held, in first-appearance order.
    pub closed spec fn years_seq(&self) -> Seq<u16> {
        self.entries@.map_values(|e: (u16, Vec<Game>)| e.0)
    }

    pub closed spec fn wf(&self) -> bool {
        unique_years(self.entries@)
    }

    pub proof fn lemma_years_match_view(&self)
        ensures
            forall|i: int| 0 <= i < self.years_seq().len() ==> self@.contains_key(
                #[trigger] self.years_seq()[i],
            ),
            forall|y: u16| self@.contains_key(y) ==> self.years_seq().contains(y),
    {
        assert forall|i: int| 0 <= i < self.years_seq().len() implies self@.contains_key(
            #[trigger] self.years_seq()[i],
        ) by {
            lemma_seasons_map_domain(self.entries@, self.entries@[i].0);
        }
        assert forall|y: u16| self@.contains_key(y) implies self.years_seq().contains(y) by {
            lemma_seasons_map_domain(self.entries@, y);
            let i = choose|i: int| 0 <= i < self.entries@.len() && self.entries@[i].0 == y;
            assert(self.years_seq()[i] == y);
        }
    }

    pub fn len(&self) -> (r: usize)
        ensures
            r == self.years_seq().len(),
    {
        self.entries.len()
    }

    /// The matches of one year, in input order, if that year is present.
    pub fn get(&self, year: u16) -> (r: Option<&Vec<Game>>)
        requires
            self.wf(),
        ensures
            match r {
                Some(games) => self@.contains_key(year) && games_view(games@) == self@[year],
                None => !self@.contains_key(year),
            },
    {
        let n = self.entries.len();
        let mut i: usize = 0;
        while i < n
            invariant
                i <= n,
                n == self.entries@.len(),
                self.wf(),
                forall|j: int| 0 <= j < i ==> self.entries@[j].0 != year,
            decreases n - i,
        {
            if self.entries[i].0 == year {
                proof {
                    lemma_seasons_map_at(self.entries@, i as int);
                }
                return Some(&self.entries[i].1);
            }
            i = i + 1;
        }
        proof {
            lemma_seasons_map_domain(self.entries@, year);
        }
        None
    }

    /// The year at one position of the index.
    pub fn year_at(&self, i: usize) -> (r: u16)
        requires
            i < self.years_seq().len(),
        ensures
            r == self.years_seq()[i as int],
    {
        self.entries[i].0
    }

    /// The greatest year present, if any.
    pub fn max_year(&self) -> (r: Option<u16>)
        ensures
            match r {
                Some(m) => self.years_seq().contains(m) && forall|i: int|
                    0 <= i < self.years_seq().len() ==> self.years_seq()[i] <= m,
                None => self.years_seq().len() == 0,
            },
    {
        let n = self.entries.len();
        if n == 0 {
            return None;
        }
        let mut m: u16 = self.entries[0].0;
        let mut i: usize = 1;
        assert(self.years_seq()[0] == m);
        while i < n
            invariant
                1 <= i <= n,
                n == self.entries@.len(),
                self.years_seq().contains(m),
                forall|j: int| 0 <= j < i ==> self.years_seq()[j] <= m,
            decreases n - i,
        {
            if self.entries[i].0 > m {
                m = self.entries[i].0;
                assert(self.years_seq()[i as int] == m);
            }
            i = i + 1;
        }
        Some(m)
    }
}

/// A year that has matches has a non-empty slice.
pub proof fn lemma_year_filter_nonempty(s: Seq<GameV>, year: u16)
    requires
        has_year(s, year),
    ensures
        year_filter(s, year).len() > 0,
{
    broadcast use vstd::seq_lib::group_filter_ensures;

    let j = choose|j: int| 0 <= j < s.len() && s[j].year == year;
    assert(year_filter(s, year).contains(s[j]));
}

/// Whether a year already stands in the list.
pub fn years_contain(years: &Vec<u16>, year: u16) -> (r: bool)
    ensures
        r == years@.contains(year),
{
    let n = years.len();
    let mut i: usize = 0;
    while i < n
        invariant
            i <= n,
            n == years@.len(),
            forall|j: int| 0 <= j < i ==> years@[j] != year,
        decreases n - i,
    {
        if years[i] == year {
            assert(years@[i as int] == year);
            return true;
        }
        i = i + 1;
    }
    false
}

/// Groups the matches by year: each present year maps to exactly its
/// matches in input order, and a year is present exactly when some match
/// was played in it.
pub fn construct_seasons(all_matches: &Vec<Game>) -> (r: SeasonMap)
    ensures
        r.wf(),
        forall|y: u16| r@.contains_key(y) <==> has_year(games_view(all_matches@), y),
        forall|y: u16| r@.contains_key(y) ==> r@[y] == year_filter(games_view(all_matches@), y),
{
    let ghost all = games_view(all_matches@);
    let n = all_matches.len();
    let mut years: Vec<u16> = Vec::new();
    let mut i: usize = 0;
    while i < n
        invariant
            i <= n,
            n == all_matches@.len(),
            all == games_view(all_matches@),
            forall|j: int, k: int| 0 <= j < k < years@.len() ==> years@[j] != years@[k],
            forall|j: int| 0 <= j < years@.len() ==> has_year(all.take(i as int), years@[j]),
            forall|j: int| 0 <= j < i ==> years@.contains(#[trigger] all[j].year),
        decreases n - i,
    {
        let y = all_matches[i].year;
        assert(all[i as int].year == y);
        let ghost prev = years@;
        if !years_contain(&years, y) {
            years.push(y);
        }
        proof {
            assert forall|j: int| 0 <= j < years@.len() implies has_year(
                all.take(i + 1),
                years@[j],
            ) by {
                if j < prev.len() {
                    assert(years@[j] == prev[j]);
                    let w = choose|w: int| 0 <= w < i && all.take(i as int)[w].year == prev[j];
                    assert(all.take(i + 1)[w].year == years@[j]);
                } else {
                    assert(years@[j] == y);
                    assert(all.take(i + 1)[i as int].year == y);
                }
            }
            assert forall|j: int| 0 <= j < i + 1 implies years@.contains(
                #[trigger] all[j].year,
            ) by {
                if j < i {
                    let w = choose|w: int| 0 <= w < prev.len() && prev[w] == all[j].year;
                    assert(years@[w] == all[j].year);
                } else {
                    if prev.contains(y) {
                        let w = choose|w: int| 0 <= w < prev.len() && prev[w] == y;
                        assert(years@[w] == y);
                    } else {
                        assert(years@[years@.len() - 1] == y);
                    }
                }
            }
        }
        i = i + 1;
    }
    proof {
        assert(all.take(n as int) =~= all);
    }
    let ny = years.len();
    let mut entries: Vec<(u16, Vec<Game>)> = Vec::new();
    let mut k: usize = 0;
    while k < ny
        invariant
            k <= ny,
            ny == years@.len(),
            all == games_view(all_matches@),
            entries@.len() == k,
            forall|j: int, l: int| 0 <= j < l < years@.len() ==> years@[j] != years@[l],
            forall|j: int| 0 <= j < years@.len() ==> has_year(all, years@[j]),
            forall|j: int| 0 <= j < all.len() ==> years@.contains(#[trigger] all[j].year),
            forall|j: int| 0 <= j < k ==> entries@[j].0 == years@[j],
            forall|j: int| 0 <= j < k ==> games_view(#[trigger] entries@[j].1@) == year_filter(
                all,
                years@[j],
            ),
        decreases ny - k,
    {
        let bucket = filter_by_year(all_matches, years[k]);
        entries.push((years[k], bucket));
        k = k + 1;
    }
    let r = SeasonMap { entries };
    proof {
        assert(unique_years(r.entries@)) by {
            assert forall|a: int, b: int| 0 <= a < b < r.entries@.len() implies r.entries@[a].0
                != r.entries@[b].0 by {
                assert(r.entries@[a].0 == years@[a]);
                assert(r.entries@[b].0 == years@[b]);
            }
        }
        assert forall|y: u16| r@.contains_key(y) <==> has_year(all, y) by {
            lemma_seasons_map_domain(r.entries@, y);
            if has_year(all, y) {
                let j = choose|j: int| 0 <= j < all.len() && all[j].year == y;
                assert(years@.contains(all[j].year));
                let w = choose|w: int| 0 <= w < years@.len() && years@[w] == y;
                assert(r.entries@[w].0 == y);
            }
            if r@.contains_key(y) {
                let i = choose|i: int| 0 <= i < r.entries@.len() && r.entries@[i].0 == y;
                assert(has_year(all, years@[i]));
            }
        }
        assert forall|y: u16| r@.contains_key(y) implies r@[y] == year_filter(all, y) by {
            lemma_seasons_map_domain(r.entries@, y);
            let i = choose|i: int| 0 <= i < r.entries@.len() && r.entries@[i].0 == y;
            lemma_seasons_map_at(r.entries@, i);
            assert(games_view(r.entries@[i].1@) == year_filter(all, years@[i]));
        }
    }
    r
}

/// The years present in the season index, in first-appearance order.
pub fn get_seasons_in_season_map(season_map: &SeasonMap) -> (r: Vec<u16>)
    requires
        season_map.wf(),
    ensures
        r@ == season_map.years_seq(),
        forall|y: u16| r@.contains(y) <==> season_map@.contains_key(y),
{
    let n = season_map.len();
    let mut r: Vec<u16> = Vec::new();
    let mut i: usize = 0;
    while i < n
        invariant
            i <= n,
            n == season_map.years_seq().len(),
            season_map.wf(),
            r@ == season_map.years_seq().take(i as int),
        decreases n - i,
    {
        let y = season_map.year_at(i);
        r.push(y);
        proof {
            assert(r@ =~= season_map.years_seq().take(i + 1));
        }
        i = i + 1;
    }
    proof {
        assert(season_map.years_seq().take(n as int) =~= season_map.years_seq());
        season_map.lemma_years_match_view();
        assert forall|y: u16| r@.contains(y) implies season_map@.contains_key(y) by {
            let i = choose|i: int| 0 <= i < r@.len() && r@[i] == y;
            assert(season_map.years_seq()[i] == y);
        }
    }
    r
}

/// Every year of the closed range `[start_year, end_year]` has matches in
/// the list of years; an empty range holds trivially.
pub fn check_time_series_interval(
    match_years_vector: &Vec<u16>,
    start_year: u16,
    end_year: u16,
) -> (r: bool)
    ensures
        r == forall|y: u16| start_year <= y <= end_year ==> match_years_vector@.contains(y),
{
    if start_year > end_year {
        return true;
    }
    let mut y: u16 = start_year;
    while y < end_year
        invariant
            start_year <= y <= end_year,
            forall|z: u16| start_year <= z < y ==> match_years_vector@.contains(z),
        decreases end_year - y,
    {
        if !years_contain(match_years_vector, y) {
            return false;
        }
        y = y + 1;
    }
    years_contain(match_years_vector, end_year)
}

} // verus!
