//! The rating table: one scalar rating per team name.
//!
//! The table is a list of `(name, rating)` pairs with pairwise distinct
//! names, abstracted as a map from the name's character sequence to the
//! rating's bit pattern. Lookups fall back to a caller-supplied default for
//! unseen teams, and an insert overwrites.

use vstd::prelude::*;
use crate::bits::f64_bits_of_u64;
use crate::bits::f64_from_u64;

verus! {

/// A team's rating: the bit pattern of one double.
#[derive(Clone, Copy, Debug, PartialEq, Eq, Structural)]
pub struct CustomRating {
    pub rating: u64,
}

impl CustomRating {
    /// The historical default rating of 1000.
    pub fn new() -> (r: Self)
        ensures
            r.rating == f64_bits_of_u64(1000),
    {
        CustomRating { rating: f64_from_u64(1000) }
    }
}

impl Default for CustomRating {
    /// The same rating `new` gives.
    fn default() -> (r: Self)
        ensures
            r.rating == f64_bits_of_u64(1000),
    {
        CustomRating::new()
    }
}

/// The map that a pair list denotes, later pairs overwriting earlier ones.
pub open spec fn table_map(s: Seq<(String, CustomRating)>) -> Map<Seq<char>, u64>
    decreases s.len(),
{
    if s.len() == 0 {
        Map::empty()
    } else {
        table_map(s.drop_last()).insert(s.last().0@, s.last().1.rating)
    }
}

/// Pairwise distinct names.
pub open spec fn unique_keys(s: Seq<(String, CustomRating)>) -> bool {
    forall|i: int, j: int| 0 <= i < j < s.len() ==> s[i].0@ != s[j].0@
}

/// A rating looked up with a default for unseen teams.
pub open spec fn lookup(m: Map<Seq<char>, u64>, team: Seq<char>, default: u64) -> u64 {
    if m.contains_key(team) {
        m[team]
    } else {
        default
    }
}

proof fn lemma_table_map_domain(s: Seq<(String, CustomRating)>, k: Seq<char>)
    ensures
        table_map(s).contains_key(k) <==> exists|i: int| 0 <= i < s.len() && s[i].0@ == k,
    decreases s.len(),
{
    if s.len() > 0 {
        lemma_table_map_domain(s.drop_last(), k);
        if table_map(s).contains_key(k) {
            if s.last().0@ == k {
                assert(s[s.len() - 1].0@ == k);
            } else {
                let i = choose|i: int| 0 <= i < s.drop_last().len() && s.drop_last()[i].0@ == k;
                assert(s[i].0@ == k);
            }
        }
        if exists|i: int| 0 <= i < s.len() && s[i].0@ == k {
            let i = choose|i: int| 0 <= i < s.len() && s[i].0@ == k;
            if i < s.len() - 1 {
                assert(s.drop_last()[i].0@ == k);
            }
        }
    }
}

proof fn lemma_table_map_at(s: Seq<(String, CustomRating)>, i: int)
    requires
        unique_keys(s),
        0 <= i < s.len(),
    ensures
        table_map(s).contains_key(s[i].0@),
        table_map(s)[s[i].0@] == s[i].1.rating,
    decreases s.len(),
{
    if i == s.len() - 1 {
    } else {
        assert(s.drop_last()[i] == s[i]);
        lemma_table_map_at(s.drop_last(), i);
        assert(s.last().0@ != s[i].0@);
    }
}

proof fn lemma_table_map_update(s: Seq<(String, CustomRating)>, i: int, p: (String, CustomRating))
    requires
        unique_keys(s),
        0 <= i < s.len(),
        p.0@ == s[i].0@,
    ensures
        table_map(s.update(i, p)) =~= table_map(s).insert(p.0@, p.1.rating),
    decreases s.len(),
{
    let t = s.update(i, p);
    if i == s.len() - 1 {
        assert(t.drop_last() =~= s.drop_last());
        assert(t.last() == p);
    } else {
        assert(t.drop_last() =~= s.drop_last().update(i, p));
        assert(t.last() == s.last());
        assert(s.drop_last()[i] == s[i]);
        lemma_table_map_update(s.drop_last(), i, p);
        assert(s.last().0@ != s[i].0@);
    }
}

/// Mapping from team name to current rating.
#[derive(Debug)]
pub struct RatingTable {
    entries: Vec<(String, CustomRating)>,
}

impl View for RatingTable {
    type V = Map<Seq<char>, u64>;

    closed spec fn view(&self) -> Map<Seq<char>, u64> {
        table_map(self.entries@)
    }
}

impl RatingTable {
    /// The names held, in insertion order.
    pub closed spec fn keys(&self) -> Seq<Seq<char>> {
        self.entries@.map_values(|e: (String, CustomRating)| e.0@)
    }

    /// Names are pairwise distinct.
    pub closed spec fn wf(&self) -> bool {
        unique_keys(self.entries@)
    }

    pub proof fn lemma_keys_match_view(&self)
        ensures
            forall|i: int| 0 <= i < self.keys().len() ==> self@.contains_key(#[trigger] self.keys()[i]),
            forall|k: Seq<char>| self@.contains_key(k) ==> exists|i: int|
                0 <= i < self.keys().len() && self.keys()[i] == k,
    {
        assert forall|i: int| 0 <= i < self.keys().len() implies self@.contains_key(
            #[trigger] self.keys()[i],
        ) by {
            lemma_table_map_domain(self.entries@, self.entries@[i].0@);
        }
        assert forall|k: Seq<char>| self@.contains_key(k) implies exists|i: int|
            0 <= i < self.keys().len() && self.keys()[i] == k by {
            lemma_table_map_domain(self.entries@, k);
            let i = choose|i: int| 0 <= i < self.entries@.len() && self.entries@[i].0@ == k;
            assert(self.keys()[i] == k);
        }
    }

    /// An empty table.
    pub fn new() -> (r: Self)
        ensures
            r@ =~= Map::<Seq<char>, u64>::empty(),
            r.wf(),
            r.keys() =~= Seq::<Seq<char>>::empty(),
    {
        RatingTable { entries: Vec::new() }
    }

    pub fn len(&self) -> (r: usize)
        ensures
            r == self.keys().len(),
    {
        self.entries.len()
    }

    /// The name at one position.
    pub fn team_at(&self, i: usize) -> (r: &String)
        requires
            i < self.keys().len(),
        ensures
            r@ == self.keys()[i as int],
    {
        &self.entries[i].0
    }

    /// The rating at one position.
    pub fn rating_at(&self, i: usize) -> (r: u64)
        requires
            i < self.keys().len(),
            self.wf(),
        ensures
            self@.contains_key(self.keys()[i as int]),
            r == self@[self.keys()[i as int]],
    {
        proof {
            lemma_table_map_at(self.entries@, i as int);
        }
        self.entries[i].1.rating
    }

    /// The stored rating, if the team is known.
    pub fn get(&self, team: &String) -> (r: Option<u64>)
        requires
            self.wf(),
        ensures
            r == if self@.contains_key(team@) {
                Some(self@[team@])
            } else {
                None::<u64>
            },
    {
        let n = self.entries.len();
        let mut i: usize = 0;
        while i < n
            invariant
                i <= n,
                n == self.entries@.len(),
                self.wf(),
                forall|j: int| 0 <= j < i ==> self.entries@[j].0@ != team@,
            decreases n - i,
        {
            if self.entries[i].0 == *team {
                proof {
                    lemma_table_map_at(self.entries@, i as int);
                }
                return Some(self.entries[i].1.rating);
            }
            i = i + 1;
        }
        proof {
            lemma_table_map_domain(self.entries@, team@);
        }
        None
    }

    /// The stored rating, or the default for an unseen team.
    pub fn rating_or(&self, team: &String, default: u64) -> (r: u64)
        requires
            self.wf(),
        ensures
            r == lookup(self@, team@, default),
    {
        match self.get(team) {
            Some(r) => r,
            None => default,
        }
    }

    /// Stores a rating, overwriting any previous one for the same name.
    pub fn insert(&mut self, team: String, rating: u64)
        requires
            old(self).wf(),
        ensures
            final(self).wf(),
            final(self)@ =~= old(self)@.insert(team@, rating),
            old(self)@.contains_key(team@) ==> final(self).keys() =~= old(self).keys(),
            !old(self)@.contains_key(team@) ==> final(self).keys() =~= old(self).keys().push(
                team@,
            ),
    {
        let n = self.entries.len();
        let mut i: usize = 0;
        while i < n
            invariant
                i <= n,
                *self == *old(self),
                n == self.entries@.len(),
                self.wf(),
                forall|j: int| 0 <= j < i ==> self.entries@[j].0@ != team@,
            decreases n - i,
        {
            if self.entries[i].0 == team {
                proof {
                    lemma_table_map_update(self.entries@, i as int, (team, CustomRating { rating }));
                    lemma_table_map_domain(self.entries@, team@);
                    assert(self.entries@.update(
                        i as int,
                        (team, CustomRating { rating }),
                    ).map_values(|e: (String, CustomRating)| e.0@) =~= self.keys());
                }
                self.entries.set(i, (team, CustomRating { rating }));
                return ;
            }
            i = i + 1;
        }
        proof {
            lemma_table_map_domain(self.entries@, team@);
            assert(self.entries@.push((team, CustomRating { rating })).drop_last() =~= self.entries@);
            assert(self.entries@.push((team, CustomRating { rating })).map_values(
                |e: (String, CustomRating)| e.0@,
            ) =~= self.keys().push(team@));
        }
        self.entries.push((team, CustomRating { rating }));
    }

    /// An independent deep copy.
    pub fn duplicate(&self) -> (r: Self)
        requires
            self.wf(),
        ensures
            r.wf(),
            r@ =~= self@,
            r.keys() =~= self.keys(),
    {
        let n = self.entries.len();
        let mut entries: Vec<(String, CustomRating)> = Vec::new();
        let mut i: usize = 0;
        while i < n
            invariant
                i <= n,
                n == self.entries@.len(),
                entries@.len() == i,
                forall|j: int| 0 <= j < i ==> entries@[j] == self.entries@[j],
            decreases n - i,
        {
            entries.push((self.entries[i].0.clone(), self.entries[i].1));
            i = i + 1;
        }
        proof {
            assert(entries@ =~= self.entries@);
        }
        RatingTable { entries }
    }
}

} // verus!
