//! Cheeses, their bounded ratings, and the registry that stores them
//! under unique names.

use vstd::prelude::*;

use crate::order::lemma_lex_lt_asymmetric;
use crate::order::lemma_lex_lt_connected;
use crate::order::lex_lt;
use crate::user::UserId;

verus! {

/// The smallest rating a cheese can receive.
pub const MIN_RATING: u8 = 1;

/// The largest rating a cheese can receive.
pub const MAX_RATING: u8 = 10;

/// Failure of a registry operation.
#[derive(Debug, PartialEq, Eq, Structural, Clone, Copy)]
pub enum CheeseRegistryError {
    /// An insert would reuse a name that the registry already holds.
    DuplicateCheeseName,
    /// A lookup named a cheese that the registry does not hold.
    NoSuchCheeseInRegistry,
}

/// Failure of constructing a rating from an out-of-bounds value.
#[derive(Debug, PartialEq, Eq, Structural, Clone, Copy)]
pub enum RatingBoundsError {
    /// The given value lies above `MAX_RATING`.
    ExceedsMaximumRating,
    /// The given value lies below `MIN_RATING`.
    BelowMinimumRating,
}

/// Failure of a rating-map operation.
#[derive(Debug, PartialEq, Eq, Structural, Clone, Copy)]
pub enum RatingMapError {
    /// An insert would reuse a key that the map already holds.
    DuplicateKey,
    /// A lookup named a key that the map does not hold.
    NotFound,
}

/// A rating of a cheese, validated to lie within
/// `MIN_RATING..=MAX_RATING` on construction.
#[derive(PartialEq, Eq, Structural, Debug, Clone, Copy)]
pub struct CheeseRating(u8);

impl View for CheeseRating {
    type V = int;

    closed spec fn view(&self) -> int {
        self.0 as int
    }
}

impl CheeseRating {
    /// Wraps `rating` if it lies within bounds, and otherwise reports
    /// on which side it falls out.
    pub fn new(rating: u8) -> (r: Result<CheeseRating, RatingBoundsError>)
        ensures
            match r {
                Ok(cr) => MIN_RATING <= rating <= MAX_RATING && cr@ == rating,
                Err(RatingBoundsError::BelowMinimumRating) => rating < MIN_RATING,
                Err(RatingBoundsError::ExceedsMaximumRating) => rating > MAX_RATING,
            },
    {
        if rating < MIN_RATING {
            Err(RatingBoundsError::BelowMinimumRating)
        } else if rating > MAX_RATING {
            Err(RatingBoundsError::ExceedsMaximumRating)
        } else {
            Ok(CheeseRating(rating))
        }
    }

    /// The wrapped value.
    pub fn value(&self) -> (r: u8)
        ensures
            r == self@,
    {
        self.0
    }
}

/// A rating given to one cheese by one user, as stored in the
/// registry: the rating keyed by the user's identifier.
#[derive(PartialEq, Eq, Structural, Debug, Clone, Copy)]
pub struct RegistryCheeseRating(pub UserId, pub CheeseRating);

/// The map that a sequence of registry ratings stands for: each user
/// identifier maps to the rating that user gave, later entries
/// shadowing earlier ones.
pub open spec fn rating_map_of(s: Seq<RegistryCheeseRating>) -> Map<UserId, int>
    decreases s.len(),
{
    if s.len() == 0 {
        Map::empty()
    } else {
        rating_map_of(s.drop_last()).insert(s.last().0, s.last().1@)
    }
}

/// No two entries rate under the same user identifier.
pub open spec fn registry_rating_keys_unique(s: Seq<RegistryCheeseRating>) -> bool {
    forall|i: int, j: int| 0 <= i < j < s.len() ==> s[i].0 != s[j].0
}

/// A key is in the map exactly when some entry carries it.
pub proof fn lemma_rating_map_of_contains(s: Seq<RegistryCheeseRating>, k: UserId)
    ensures
        rating_map_of(s).contains_key(k) <==> (exists|i: int| 0 <= i < s.len() && s[i].0 == k),
    decreases s.len(),
{
    if s.len() > 0 {
        lemma_rating_map_of_contains(s.drop_last(), k);
        if s.last().0 == k {
            assert(s[s.len() - 1].0 == k);
        } else if rating_map_of(s).contains_key(k) {
            let i = choose|i: int| 0 <= i < s.drop_last().len() && s.drop_last()[i].0 == k;
            assert(s[i].0 == k);
        } else if exists|i: int| 0 <= i < s.len() && s[i].0 == k {
            let i = choose|i: int| 0 <= i < s.len() && s[i].0 == k;
            assert(s.drop_last()[i].0 == k);
        }
    }
}

/// With unique keys, the map sends each entry's key to its rating.
pub proof fn lemma_rating_map_of_index(s: Seq<RegistryCheeseRating>, i: int)
    requires
        registry_rating_keys_unique(s),
        0 <= i < s.len(),
    ensures
        rating_map_of(s).contains_key(s[i].0),
        rating_map_of(s)[s[i].0] == s[i].1@,
    decreases s.len(),
{
    lemma_rating_map_of_contains(s, s[i].0);
    if i < s.len() - 1 {
        assert(s.drop_last()[i] == s[i]);
        lemma_rating_map_of_index(s.drop_last(), i);
        assert(s[i].0 != s.last().0);
    }
}

/// Appending an entry inserts its pair into the map.
pub proof fn lemma_rating_map_of_push(s: Seq<RegistryCheeseRating>, e: RegistryCheeseRating)
    ensures
        rating_map_of(s.push(e)) == rating_map_of(s).insert(e.0, e.1@),
{
    assert(s.push(e).drop_last() =~= s);
    assert(s.push(e).last() == e);
}

/// The ratings one cheese has received, at most one per user.
#[derive(PartialEq, Eq, Debug, Clone)]
pub struct RegistryCheeseRatingMap(Vec<RegistryCheeseRating>);

impl View for RegistryCheeseRatingMap {
    type V = Map<UserId, int>;

    closed spec fn view(&self) -> Map<UserId, int> {
        rating_map_of(self.0@)
    }
}

impl Default for RegistryCheeseRatingMap {
    /// The empty rating map.
    fn default() -> (r: Self)
        ensures
            r@ == Map::<UserId, int>::empty(),
            r.wf(),
    {
        RegistryCheeseRatingMap(Vec::new())
    }
}

impl RegistryCheeseRatingMap {
    /// Each user identifier occurs in at most one stored entry.
    pub closed spec fn wf(self) -> bool {
        registry_rating_keys_unique(self.0@)
    }

    /// Whether some user already rated under this identifier.
    pub fn contains_key(&self, user_id: UserId) -> (r: bool)
        ensures
            r == self@.contains_key(user_id),
    {
        proof {
            lemma_rating_map_of_contains(self.0@, user_id);
        }
        let n = self.0.len();
        let mut i: usize = 0;
        while i < n
            invariant
                n == self.0@.len(),
                0 <= i <= n,
                forall|j: int| 0 <= j < i ==> self.0@[j].0 != user_id,
            decreases n - i,
        {
            if self.0[i].0 == user_id {
                proof {
                    assert(exists|j: int| 0 <= j < self.0@.len() && self.0@[j].0 == user_id) by {
                        assert(self.0@[i as int].0 == user_id);
                    }
                    lemma_rating_map_of_contains(self.0@, user_id);
                }
                return true;
            }
            i += 1;
        }
        false
    }

    /// Records a rating under a user identifier not yet present;
    /// rejects a duplicate identifier and then changes nothing.
    pub fn insert(&mut self, rating: RegistryCheeseRating) -> (r: Result<(), RatingMapError>)
        requires
            old(self).wf(),
        ensures
            final(self).wf(),
            match r {
                Ok(()) => {
                    &&& !old(self)@.contains_key(rating.0)
                    &&& final(self)@ == old(self)@.insert(rating.0, rating.1@)
                },
                Err(RatingMapError::DuplicateKey) => {
                    &&& old(self)@.contains_key(rating.0)
                    &&& *final(self) == *old(self)
                },
                Err(RatingMapError::NotFound) => false,
            },
    {
        if self.contains_key(rating.0) {
            return Err(RatingMapError::DuplicateKey);
        }
        proof {
            lemma_rating_map_of_contains(self.0@, rating.0);
            lemma_rating_map_of_push(self.0@, rating);
        }
        self.0.push(rating);
        Ok(())
    }

    /// The rating stored under a user identifier, or `NotFound`.
    pub fn get(&self, user_id: UserId) -> (r: Result<CheeseRating, RatingMapError>)
        requires
            self.wf(),
        ensures
            match r {
                Ok(cr) => self@.contains_key(user_id) && cr@ == self@[user_id],
                Err(RatingMapError::NotFound) => !self@.contains_key(user_id),
                Err(RatingMapError::DuplicateKey) => false,
            },
    {
        proof {
            lemma_rating_map_of_contains(self.0@, user_id);
        }
        let n = self.0.len();
        let mut i: usize = 0;
        while i < n
            invariant
                n == self.0@.len(),
                0 <= i <= n,
                self.wf(),
                forall|j: int| 0 <= j < i ==> self.0@[j].0 != user_id,
            decreases n - i,
        {
            if self.0[i].0 == user_id {
                proof {
                    lemma_rating_map_of_index(self.0@, i as int);
                }
                return Ok(self.0[i].1);
            }
            i += 1;
        }
        Err(RatingMapError::NotFound)
    }

    /// The stored entries as a vector; their order carries no meaning.
    pub fn to_vec(&self) -> (r: Vec<RegistryCheeseRating>)
        requires
            self.wf(),
        ensures
            rating_map_of(r@) == self@,
            registry_rating_keys_unique(r@),
    {
        let n = self.0.len();
        let mut r: Vec<RegistryCheeseRating> = Vec::new();
        let mut i: usize = 0;
        while i < n
            invariant
                n == self.0@.len(),
                0 <= i <= n,
                r@ =~= self.0@.subrange(0, i as int),
            decreases n - i,
        {
            r.push(self.0[i]);
            i += 1;
        }
        proof {
            assert(r@ =~= self.0@);
        }
        r
    }

    /// A copy holding the same ratings.
    pub fn duplicate(&self) -> (r: Self)
        ensures
            r@ == self@,
            r.wf() == self.wf(),
    {
        let n = self.0.len();
        let mut entries: Vec<RegistryCheeseRating> = Vec::new();
        let mut i: usize = 0;
        while i < n
            invariant
                n == self.0@.len(),
                0 <= i <= n,
                entries@ =~= self.0@.subrange(0, i as int),
            decreases n - i,
        {
            entries.push(self.0[i]);
            i += 1;
        }
        proof {
            assert(entries@ =~= self.0@);
        }
        RegistryCheeseRatingMap(entries)
    }
}

/// A cheese: its unique name and the ratings it has received.
#[derive(PartialEq, Debug, Clone)]
pub struct CheeseData {
    pub name: String,
    pub ratings: RegistryCheeseRatingMap,
}

impl Default for CheeseData {
    /// A cheese with the empty name and no ratings.
    fn default() -> (r: Self)
        ensures
            r.name@ == Seq::<char>::empty(),
            r.ratings@ == Map::<UserId, int>::empty(),
            r.wf(),
    {
        CheeseData { name: String::new(), ratings: RegistryCheeseRatingMap::default() }
    }
}

impl CheeseData {
    /// The ratings carry at most one entry per user.
    pub open spec fn wf(self) -> bool {
        self.ratings.wf()
    }

    /// This cheese under another name, its ratings kept.
    pub fn name(self, name: &str) -> (r: Self)
        ensures
            r.name@ == name@,
            r.ratings == self.ratings,
    {
        CheeseData { name: name.to_owned(), ratings: self.ratings }
    }

    /// Records a rating for this cheese; rejects a user identifier
    /// that already rated it and then changes nothing.
    pub fn insert_rating(&mut self, rating: RegistryCheeseRating) -> (r: Result<
        (),
        RatingMapError,
    >)
        requires
            old(self).wf(),
        ensures
            final(self).wf(),
            final(self).name@ == old(self).name@,
            match r {
                Ok(()) => {
                    &&& !old(self).ratings@.contains_key(rating.0)
                    &&& final(self).ratings@ == old(self).ratings@.insert(rating.0, rating.1@)
                },
                Err(RatingMapError::DuplicateKey) => {
                    &&& old(self).ratings@.contains_key(rating.0)
                    &&& *final(self) == *old(self)
                },
                Err(RatingMapError::NotFound) => false,
            },
    {
        self.ratings.insert(rating)
    }

    /// A copy with the same name and the same ratings.
    pub fn duplicate(&self) -> (r: Self)
        ensures
            r.name@ == self.name@,
            r.ratings@ == self.ratings@,
            r.wf() == self.wf(),
    {
        CheeseData { name: self.name.clone(), ratings: self.ratings.duplicate() }
    }
}

/// The map that a sequence of cheeses stands for: each name maps to
/// that cheese's ratings, later entries shadowing earlier ones.
pub open spec fn registry_map_of(s: Seq<CheeseData>) -> Map<Seq<char>, Map<UserId, int>>
    decreases s.len(),
{
    if s.len() == 0 {
        Map::empty()
    } else {
        registry_map_of(s.drop_last()).insert(s.last().name@, s.last().ratings@)
    }
}

/// The cheeses stand in strictly ascending name order, which also
/// makes their names unique.
pub open spec fn sorted_by_name(s: Seq<CheeseData>) -> bool {
    forall|i: int, j: int| 0 <= i < j < s.len() ==> lex_lt(s[i].name@, s[j].name@)
}

/// No two cheeses carry the same name.
pub open spec fn cheese_names_unique(s: Seq<CheeseData>) -> bool {
    forall|i: int, j: int| 0 <= i < j < s.len() ==> s[i].name@ != s[j].name@
}

/// Strictly sorted names are unique.
pub proof fn lemma_sorted_names_unique(s: Seq<CheeseData>)
    requires
        sorted_by_name(s),
    ensures
        cheese_names_unique(s),
{
    assert forall|i: int, j: int| 0 <= i < j < s.len() implies s[i].name@ != s[j].name@ by {
        lemma_lex_lt_asymmetric(s[i].name@, s[j].name@);
    }
}

/// A name is in the map exactly when some cheese carries it.
pub proof fn lemma_registry_map_of_contains(s: Seq<CheeseData>, n: Seq<char>)
    ensures
        registry_map_of(s).contains_key(n) <==> (exists|i: int|
            0 <= i < s.len() && s[i].name@ == n),
    decreases s.len(),
{
    if s.len() > 0 {
        lemma_registry_map_of_contains(s.drop_last(), n);
        if s.last().name@ == n {
            assert(s[s.len() - 1].name@ == n);
        } else if registry_map_of(s).contains_key(n) {
            let i = choose|i: int| 0 <= i < s.drop_last().len() && s.drop_last()[i].name@ == n;
            assert(s[i].name@ == n);
        } else if exists|i: int| 0 <= i < s.len() && s[i].name@ == n {
            let i = choose|i: int| 0 <= i < s.len() && s[i].name@ == n;
            assert(s.drop_last()[i].name@ == n);
        }
    }
}

/// With unique names, the map sends each cheese's name to its ratings.
pub proof fn lemma_registry_map_of_index(s: Seq<CheeseData>, i: int)
    requires
        cheese_names_unique(s),
        0 <= i < s.len(),
    ensures
        registry_map_of(s).contains_key(s[i].name@),
        registry_map_of(s)[s[i].name@] == s[i].ratings@,
    decreases s.len(),
{
    lemma_registry_map_of_contains(s, s[i].name@);
    if i < s.len() - 1 {
        assert(s.drop_last()[i] == s[i]);
        lemma_registry_map_of_index(s.drop_last(), i);
        assert(s[i].name@ != s.last().name@);
    }
}

/// Placing a cheese with a fresh name anywhere in the sequence inserts
/// its pair into the map.
pub proof fn lemma_registry_map_of_insert(s: Seq<CheeseData>, i: int, c: CheeseData)
    requires
        0 <= i <= s.len(),
        forall|j: int| 0 <= j < s.len() ==> s[j].name@ != c.name@,
    ensures
        registry_map_of(s.insert(i, c)) == registry_map_of(s).insert(c.name@, c.ratings@),
    decreases s.len(),
{
    let t = s.insert(i, c);
    if i == s.len() {
        assert(t.drop_last() =~= s);
        assert(t.last() == c);
    } else {
        assert(t.drop_last() =~= s.drop_last().insert(i, c));
        assert(t.last() == s.last());
        assert(forall|j: int|
            0 <= j < s.drop_last().len() ==> s.drop_last()[j].name@ != c.name@) by {
            assert(forall|j: int| 0 <= j < s.drop_last().len() ==> s.drop_last()[j] == s[j]);
        }
        lemma_registry_map_of_insert(s.drop_last(), i, c);
        assert(s[s.len() - 1] == s.last());
        assert(s.last().name@ != c.name@);
        assert(registry_map_of(s.drop_last()).insert(c.name@, c.ratings@).insert(
            s.last().name@,
            s.last().ratings@,
        ) =~= registry_map_of(s.drop_last()).insert(s.last().name@, s.last().ratings@).insert(
            c.name@,
            c.ratings@,
        ));
    }
}

/// Replacing a cheese by one under the same name updates that name's
/// entry in the map.
pub proof fn lemma_registry_map_of_update(s: Seq<CheeseData>, i: int, c: CheeseData)
    requires
        cheese_names_unique(s),
        0 <= i < s.len(),
        c.name@ == s[i].name@,
    ensures
        registry_map_of(s.update(i, c)) == registry_map_of(s).insert(c.name@, c.ratings@),
    decreases s.len(),
{
    let t = s.update(i, c);
    if i == s.len() - 1 {
        assert(t.drop_last() =~= s.drop_last());
        assert(t.last() == c);
        assert(registry_map_of(s.drop_last()).insert(s.last().name@, s.last().ratings@).insert(
            c.name@,
            c.ratings@,
        ) =~= registry_map_of(s.drop_last()).insert(c.name@, c.ratings@));
    } else {
        assert(t.drop_last() =~= s.drop_last().update(i, c));
        assert(t.last() == s.last());
        assert(cheese_names_unique(s.drop_last())) by {
            assert(forall|j: int| 0 <= j < s.drop_last().len() ==> s.drop_last()[j] == s[j]);
        }
        assert(s.drop_last()[i] == s[i]);
        lemma_registry_map_of_update(s.drop_last(), i, c);
        assert(s[s.len() - 1] == s.last());
        assert(s.last().name@ != c.name@);
        assert(registry_map_of(s.drop_last()).insert(c.name@, c.ratings@).insert(
            s.last().name@,
            s.last().ratings@,
        ) =~= registry_map_of(s.drop_last()).insert(s.last().name@, s.last().ratings@).insert(
            c.name@,
            c.ratings@,
        ));
    }
}

/// The store of all cheeses, keyed by their unique names and kept in
/// ascending name order so that listings are reproducible.
#[derive(PartialEq, Debug, Clone)]
pub struct CheeseRegistry(Vec<CheeseData>);

impl View for CheeseRegistry {
    type V = Map<Seq<char>, Map<UserId, int>>;

    closed spec fn view(&self) -> Map<Seq<char>, Map<UserId, int>> {
        registry_map_of(self.0@)
    }
}

impl CheeseRegistry {
    /// The cheeses stand sorted by name and each is itself
    /// well-formed.
    pub closed spec fn wf(self) -> bool {
        &&& sorted_by_name(self.0@)
        &&& forall|i: int| 0 <= i < self.0@.len() ==> (#[trigger] self.0@[i]).wf()
    }

    /// The empty registry.
    pub fn new() -> (r: Self)
        ensures
            r@ == Map::<Seq<char>, Map<UserId, int>>::empty(),
            r.wf(),
    {
        CheeseRegistry(Vec::new())
    }

    /// The index of the first cheese whose name is not below `name`;
    /// every cheese before it sorts strictly below `name`.
    fn lower_bound(&self, name: &str) -> (pos: usize)
        ensures
            pos <= self.0@.len(),
            forall|j: int| 0 <= j < pos ==> lex_lt(self.0@[j].name@, name@),
            pos < self.0@.len() ==> !lex_lt(self.0@[pos as int].name@, name@),
    {
        let n = self.0.len();
        let mut pos: usize = 0;
        while pos < n
            invariant
                pos <= n,
                n == self.0@.len(),
                forall|j: int| 0 <= j < pos ==> lex_lt(self.0@[j].name@, name@),
            decreases n - pos,
        {
            if !crate::order::str_lt(self.0[pos].name.as_str(), name) {
                return pos;
            }
            pos += 1;
        }
        pos
    }

    /// Stores a cheese under its name; rejects a name the registry
    /// already holds and then changes nothing.
    pub fn insert(&mut self, cheese: CheeseData) -> (r: Result<(), CheeseRegistryError>)
        requires
            old(self).wf(),
            cheese.wf(),
        ensures
            final(self).wf(),
            match r {
                Ok(()) => {
                    &&& !old(self)@.contains_key(cheese.name@)
                    &&& final(self)@ == old(self)@.insert(cheese.name@, cheese.ratings@)
                },
                Err(CheeseRegistryError::DuplicateCheeseName) => {
                    &&& old(self)@.contains_key(cheese.name@)
                    &&& *final(self) == *old(self)
                },
                Err(CheeseRegistryError::NoSuchCheeseInRegistry) => false,
            },
    {
        let ghost s = self.0@;
        let pos = self.lower_bound(cheese.name.as_str());
        if pos < self.0.len() && crate::order::str_eq(
            self.0[pos].name.as_str(),
            cheese.name.as_str(),
        ) {
            proof {
                lemma_registry_map_of_contains(s, cheese.name@);
                assert(s[pos as int].name@ == cheese.name@);
            }
            return Err(CheeseRegistryError::DuplicateCheeseName);
        }
        proof {
            // The new name differs from every stored one: those before
            // `pos` sort strictly below it, those from `pos` on
            // strictly above.
            if pos < s.len() {
                lemma_lex_lt_connected(cheese.name@, s[pos as int].name@);
                assert(lex_lt(cheese.name@, s[pos as int].name@));
            }
            assert forall|j: int| 0 <= j < s.len() implies s[j].name@ != cheese.name@ by {
                if j < pos {
                    lemma_lex_lt_asymmetric(s[j].name@, cheese.name@);
                } else {
                    if j > pos {
                        assert(lex_lt(s[pos as int].name@, s[j].name@));
                        crate::order::lemma_lex_lt_transitive(
                            cheese.name@,
                            s[pos as int].name@,
                            s[j].name@,
                        );
                    }
                    lemma_lex_lt_asymmetric(cheese.name@, s[j].name@);
                }
            }
            lemma_registry_map_of_contains(s, cheese.name@);
            lemma_registry_map_of_insert(s, pos as int, cheese);
            s.insert_ensures(pos as int, cheese);
            // The new sequence is still strictly sorted.
            let t = s.insert(pos as int, cheese);
            assert forall|i: int, j: int| 0 <= i < j < t.len() implies lex_lt(
                t[i].name@,
                t[j].name@,
            ) by {
                if j < pos {
                    assert(t[i] == s[i] && t[j] == s[j]);
                } else if j == pos {
                    assert(t[i] == s[i] && t[j] == cheese);
                } else if i < pos {
                    assert(t[i] == s[i] && t[j] == s[j - 1]);
                    if j - 1 == i {
                        assert(i < pos <= j - 1);
                        assert(false);
                    }
                } else if i == pos {
                    assert(t[i] == cheese && t[j] == s[j - 1]);
                    if j - 1 > pos {
                        assert(lex_lt(s[pos as int].name@, s[j - 1].name@));
                        crate::order::lemma_lex_lt_transitive(
                            cheese.name@,
                            s[pos as int].name@,
                            s[j - 1].name@,
                        );
                    }
                } else {
                    assert(t[i] == s[i - 1] && t[j] == s[j - 1]);
                }
            }
        }
        self.0.insert(pos, cheese);
        Ok(())
    }

    /// The index of the cheese stored under `cheese_name`, if any.
    fn find_index(&self, cheese_name: &str) -> (r: Option<usize>)
        ensures
            match r {
                Some(i) => i < self.0@.len() && self.0@[i as int].name@ == cheese_name@,
                None => forall|j: int| 0 <= j < self.0@.len() ==> self.0@[j].name@ != cheese_name@,
            },
    {
        let n = self.0.len();
        let mut i: usize = 0;
        while i < n
            invariant
                n == self.0@.len(),
                0 <= i <= n,
                forall|j: int| 0 <= j < i ==> self.0@[j].name@ != cheese_name@,
            decreases n - i,
        {
            if crate::order::str_eq(self.0[i].name.as_str(), cheese_name) {
                return Some(i);
            }
            i += 1;
        }
        None
    }

    /// A read-only handle on the cheese stored under `cheese_name`,
    /// or `NoSuchCheeseInRegistry`.
    pub fn get(&self, cheese_name: &str) -> (r: Result<&CheeseData, CheeseRegistryError>)
        requires
            self.wf(),
        ensures
            match r {
                Ok(c) => {
                    &&& self@.contains_key(cheese_name@)
                    &&& c.name@ == cheese_name@
                    &&& c.ratings@ == self@[cheese_name@]
                    &&& c.wf()
                },
                Err(CheeseRegistryError::NoSuchCheeseInRegistry) => !self@.contains_key(
                    cheese_name@,
                ),
                Err(CheeseRegistryError::DuplicateCheeseName) => false,
            },
    {
        proof {
            lemma_registry_map_of_contains(self.0@, cheese_name@);
        }
        match self.find_index(cheese_name) {
            Some(i) => {
                proof {
                    lemma_sorted_names_unique(self.0@);
                    lemma_registry_map_of_index(self.0@, i as int);
                }
                Ok(&self.0[i])
            },
            None => Err(CheeseRegistryError::NoSuchCheeseInRegistry),
        }
    }

    /// Records a rating for the cheese stored under `cheese_name`;
    /// rejects an unknown name with `NotFound` and a user identifier
    /// that already rated the cheese with `DuplicateKey`, changing
    /// nothing in either case.
    pub fn insert_rating(&mut self, cheese_name: &str, rating: RegistryCheeseRating) -> (r: Result<
        (),
        RatingMapError,
    >)
        requires
            old(self).wf(),
        ensures
            final(self).wf(),
            match r {
                Ok(()) => {
                    &&& old(self)@.contains_key(cheese_name@)
                    &&& !old(self)@[cheese_name@].contains_key(rating.0)
                    &&& final(self)@ == old(self)@.insert(
                        cheese_name@,
                        old(self)@[cheese_name@].insert(rating.0, rating.1@),
                    )
                },
                Err(RatingMapError::NotFound) => {
                    &&& !old(self)@.contains_key(cheese_name@)
                    &&& *final(self) == *old(self)
                },
                Err(RatingMapError::DuplicateKey) => {
                    &&& old(self)@.contains_key(cheese_name@)
                    &&& old(self)@[cheese_name@].contains_key(rating.0)
                    &&& *final(self) == *old(self)
                },
            },
    {
        let ghost s = self.0@;
        proof {
            lemma_registry_map_of_contains(s, cheese_name@);
            lemma_sorted_names_unique(s);
        }
        let idx = match self.find_index(cheese_name) {
            Some(i) => i,
            None => {
                return Err(RatingMapError::NotFound);
            },
        };
        proof {
            lemma_registry_map_of_index(s, idx as int);
        }
        if self.0[idx].ratings.contains_key(rating.0) {
            return Err(RatingMapError::DuplicateKey);
        }
        let mut cheese = self.0.remove(idx);
        let res = cheese.insert_rating(rating);
        proof {
            if res is Err {
                assert(false);
            }
        }
        self.0.insert(idx, cheese);
        proof {
            assert(self.0@ =~= s.update(idx as int, cheese));
            lemma_registry_map_of_update(s, idx as int, cheese);
            let t = s.update(idx as int, cheese);
            assert forall|i: int, j: int| 0 <= i < j < t.len() implies lex_lt(
                t[i].name@,
                t[j].name@,
            ) by {
                assert(t[i].name@ == s[i].name@ && t[j].name@ == s[j].name@);
            }
            assert forall|i: int| 0 <= i < t.len() implies (#[trigger] t[i]).wf() by {
                if i != idx {
                    assert(t[i] == s[i]);
                }
            }
        }
        Ok(())
    }

    /// Every cheese in the registry, sorted by name.
    pub fn all(&self) -> (r: Vec<CheeseData>)
        requires
            self.wf(),
        ensures
            registry_map_of(r@) == self@,
            sorted_by_name(r@),
            forall|i: int| 0 <= i < r@.len() ==> (#[trigger] r@[i]).wf(),
    {
        let n = self.0.len();
        let mut r: Vec<CheeseData> = Vec::new();
        let mut i: usize = 0;
        while i < n
            invariant
                n == self.0@.len(),
                0 <= i <= n,
                r@.len() == i,
                self.wf(),
                forall|j: int|
                    0 <= j < i ==> (#[trigger] r@[j]).name@ == self.0@[j].name@ && r@[j].ratings@
                        == self.0@[j].ratings@ && r@[j].wf(),
            decreases n - i,
        {
            let c = self.0[i].duplicate();
            r.push(c);
            i += 1;
        }
        proof {
            lemma_registry_map_of_congruent(r@, self.0@);
            assert forall|i: int, j: int| 0 <= i < j < r@.len() implies lex_lt(
                r@[i].name@,
                r@[j].name@,
            ) by {
                assert(r@[i].name@ == self.0@[i].name@ && r@[j].name@ == self.0@[j].name@);
            }
        }
        r
    }
}

/// Sequences of cheeses equal name-for-name and rating-for-rating
/// stand for the same map.
pub proof fn lemma_registry_map_of_congruent(s: Seq<CheeseData>, t: Seq<CheeseData>)
    requires
        s.len() == t.len(),
        forall|i: int|
            0 <= i < s.len() ==> s[i].name@ == t[i].name@ && s[i].ratings@ == t[i].ratings@,
    ensures
        registry_map_of(s) == registry_map_of(t),
    decreases s.len(),
{
    if s.len() > 0 {
        assert(forall|i: int| 0 <= i < s.drop_last().len() ==> s.drop_last()[i] == s[i]);
        assert(forall|i: int| 0 <= i < t.drop_last().len() ==> t.drop_last()[i] == t[i]);
        lemma_registry_map_of_congruent(s.drop_last(), t.drop_last());
        assert(s[s.len() - 1] == s.last());
        assert(t[t.len() - 1] == t.last());
    }
}

} // verus!
