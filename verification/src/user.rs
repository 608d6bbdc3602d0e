//! Users and the ratings they have given, keyed by cheese name.

use vstd::prelude::*;

use crate::cheese::CheeseRating;
use crate::cheese::RatingMapError;

verus! {

/// Failure of a user-data operation.
#[derive(Debug, PartialEq, Eq, Structural, Clone, Copy)]
pub enum UserDataError {
    /// The user already rated a cheese of that name.
    DuplicateCheeseName,
}

/// The opaque identifier of a user, generated once when the user is
/// created and immutable afterwards.
#[derive(Clone, Copy, PartialEq, Eq, Structural, Debug, Hash)]
pub struct UserId(u128);

impl View for UserId {
    type V = u128;

    closed spec fn view(&self) -> u128 {
        self.0
    }
}

/// Relies on `uuid::Uuid::new_v4`, read back through
/// `uuid::Uuid::as_u128`: a freshly generated version-4 UUID.  Setting
/// the version and variant bits ORs a nonzero constant into the value,
/// so the result is never zero.
#[verifier::external_body]
fn fresh_uuid_value() -> (r: u128)
    ensures
        r != 0,
{
    uuid::Uuid::new_v4().as_u128()
}

impl UserId {
    /// Wraps an already-generated 128-bit identifier value.
    pub fn from_value(value: u128) -> (r: UserId)
        ensures
            r@ == value,
    {
        UserId(value)
    }

    /// Generates a fresh identifier.
    pub fn fresh() -> (r: UserId)
        ensures
            r@ != 0,
    {
        UserId(fresh_uuid_value())
    }

    /// The identifier as a plain value.
    pub fn value(&self) -> (r: u128)
        ensures
            r == self@,
    {
        self.0
    }

    /// Whether this is the all-zero identifier, which `fresh` never
    /// produces.
    pub fn is_nil(&self) -> (r: bool)
        ensures
            r == (self@ == 0),
    {
        self.0 == 0
    }
}

/// A rating given by one user, as stored with that user: the rating
/// keyed by the rated cheese's name.
#[derive(PartialEq, Debug, Clone)]
pub struct UserCheeseRating(pub String, pub CheeseRating);

/// The map that a sequence of user ratings stands for: each cheese
/// name maps to the rating the user gave it, later entries shadowing
/// earlier ones.
pub open spec fn user_rating_map_of(s: Seq<UserCheeseRating>) -> Map<Seq<char>, int>
    decreases s.len(),
{
    if s.len() == 0 {
        Map::empty()
    } else {
        user_rating_map_of(s.drop_last()).insert(s.last().0@, s.last().1@)
    }
}

/// No two entries rate a cheese of the same name.
pub open spec fn user_rating_keys_unique(s: Seq<UserCheeseRating>) -> bool {
    forall|i: int, j: int| 0 <= i < j < s.len() ==> s[i].0@ != s[j].0@
}

/// A name is in the map exactly when some entry carries it.
pub proof fn lemma_user_rating_map_of_contains(s: Seq<UserCheeseRating>, k: Seq<char>)
    ensures
        user_rating_map_of(s).contains_key(k) <==> (exists|i: int|
            0 <= i < s.len() && s[i].0@ == k),
    decreases s.len(),
{
    if s.len() > 0 {
        lemma_user_rating_map_of_contains(s.drop_last(), k);
        if s.last().0@ == k {
            assert(s[s.len() - 1].0@ == k);
        } else if user_rating_map_of(s).contains_key(k) {
            let i = choose|i: int| 0 <= i < s.drop_last().len() && s.drop_last()[i].0@ == k;
            assert(s[i].0@ == k);
        } else if exists|i: int| 0 <= i < s.len() && s[i].0@ == k {
            let i = choose|i: int| 0 <= i < s.len() && s[i].0@ == k;
            assert(s.drop_last()[i].0@ == k);
        }
    }
}

/// With unique names, the map sends each entry's name to its rating.
pub proof fn lemma_user_rating_map_of_index(s: Seq<UserCheeseRating>, i: int)
    requires
        user_rating_keys_unique(s),
        0 <= i < s.len(),
    ensures
        user_rating_map_of(s).contains_key(s[i].0@),
        user_rating_map_of(s)[s[i].0@] == s[i].1@,
    decreases s.len(),
{
    lemma_user_rating_map_of_contains(s, s[i].0@);
    if i < s.len() - 1 {
        assert(s.drop_last()[i] == s[i]);
        lemma_user_rating_map_of_index(s.drop_last(), i);
        assert(s[i].0@ != s.last().0@);
    }
}

/// Appending an entry inserts its pair into the map.
pub proof fn lemma_user_rating_map_of_push(s: Seq<UserCheeseRating>, e: UserCheeseRating)
    ensures
        user_rating_map_of(s.push(e)) == user_rating_map_of(s).insert(e.0@, e.1@),
{
    assert(s.push(e).drop_last() =~= s);
    assert(s.push(e).last() == e);
}

/// The ratings one user has given, at most one per cheese name.
#[derive(PartialEq, Debug, Clone)]
pub struct UserCheeseRatingMap(Vec<UserCheeseRating>);

impl View for UserCheeseRatingMap {
    type V = Map<Seq<char>, int>;

    closed spec fn view(&self) -> Map<Seq<char>, int> {
        user_rating_map_of(self.0@)
    }
}

impl Default for UserCheeseRatingMap {
    /// The empty rating map.
    fn default() -> (r: Self)
        ensures
            r@ == Map::<Seq<char>, int>::empty(),
            r.wf(),
    {
        UserCheeseRatingMap(Vec::new())
    }
}

impl UserCheeseRatingMap {
    /// Each cheese name occurs in at most one stored entry.
    pub closed spec fn wf(self) -> bool {
        user_rating_keys_unique(self.0@)
    }

    /// Whether the user already rated a cheese of this name.
    pub fn contains_key(&self, cheese_name: &str) -> (r: bool)
        ensures
            r == self@.contains_key(cheese_name@),
    {
        let n = self.0.len();
        let mut i: usize = 0;
        while i < n
            invariant
                n == self.0@.len(),
                0 <= i <= n,
                forall|j: int| 0 <= j < i ==> self.0@[j].0@ != cheese_name@,
            decreases n - i,
        {
            if crate::order::str_eq(self.0[i].0.as_str(), cheese_name) {
                proof {
                    assert(exists|j: int| 0 <= j < self.0@.len() && self.0@[j].0@ == cheese_name@)
                        by {
                        assert(self.0@[i as int].0@ == cheese_name@);
                    }
                    lemma_user_rating_map_of_contains(self.0@, cheese_name@);
                }
                return true;
            }
            i += 1;
        }
        proof {
            lemma_user_rating_map_of_contains(self.0@, cheese_name@);
        }
        false
    }

    /// Records a rating under a cheese name not yet present; rejects a
    /// duplicate name and then changes nothing.
    pub fn insert(&mut self, rating: UserCheeseRating) -> (r: Result<(), RatingMapError>)
        requires
            old(self).wf(),
        ensures
            final(self).wf(),
            match r {
                Ok(()) => {
                    &&& !old(self)@.contains_key(rating.0@)
                    &&& final(self)@ == old(self)@.insert(rating.0@, rating.1@)
                },
                Err(RatingMapError::DuplicateKey) => {
                    &&& old(self)@.contains_key(rating.0@)
                    &&& *final(self) == *old(self)
                },
                Err(RatingMapError::NotFound) => false,
            },
    {
        if self.contains_key(rating.0.as_str()) {
            return Err(RatingMapError::DuplicateKey);
        }
        proof {
            lemma_user_rating_map_of_contains(self.0@, rating.0@);
            lemma_user_rating_map_of_push(self.0@, rating);
        }
        self.0.push(rating);
        Ok(())
    }

    /// The rating stored under a cheese name, or `NotFound`.
    pub fn get(&self, cheese_name: String) -> (r: Result<CheeseRating, RatingMapError>)
        requires
            self.wf(),
        ensures
            match r {
                Ok(cr) => self@.contains_key(cheese_name@) && cr@ == self@[cheese_name@],
                Err(RatingMapError::NotFound) => !self@.contains_key(cheese_name@),
                Err(RatingMapError::DuplicateKey) => false,
            },
    {
        let n = self.0.len();
        let mut i: usize = 0;
        while i < n
            invariant
                n == self.0@.len(),
                0 <= i <= n,
                self.wf(),
                forall|j: int| 0 <= j < i ==> self.0@[j].0@ != cheese_name@,
            decreases n - i,
        {
            if crate::order::str_eq(self.0[i].0.as_str(), cheese_name.as_str()) {
                proof {
                    lemma_user_rating_map_of_index(self.0@, i as int);
                }
                return Ok(self.0[i].1);
            }
            i += 1;
        }
        proof {
            lemma_user_rating_map_of_contains(self.0@, cheese_name@);
        }
        Err(RatingMapError::NotFound)
    }

    /// The stored entries as a vector; their order carries no meaning.
    pub fn to_vec(&self) -> (r: Vec<UserCheeseRating>)
        requires
            self.wf(),
        ensures
            user_rating_map_of(r@) == self@,
            user_rating_keys_unique(r@),
    {
        let n = self.0.len();
        let mut r: Vec<UserCheeseRating> = Vec::new();
        let mut i: usize = 0;
        while i < n
            invariant
                n == self.0@.len(),
                0 <= i <= n,
                r@.len() == i,
                forall|j: int|
                    0 <= j < i ==> (#[trigger] r@[j]).0@ == self.0@[j].0@ && r@[j].1 == self.0@[
                        j
                    ].1,
            decreases n - i,
        {
            let entry = UserCheeseRating(self.0[i].0.clone(), self.0[i].1);
            r.push(entry);
            i += 1;
        }
        proof {
            lemma_user_rating_map_of_congruent(r@, self.0@);
        }
        r
    }
}

/// Sequences of user ratings equal name-for-name and
/// rating-for-rating stand for the same map.
pub proof fn lemma_user_rating_map_of_congruent(s: Seq<UserCheeseRating>, t: Seq<UserCheeseRating>)
    requires
        s.len() == t.len(),
        forall|i: int| 0 <= i < s.len() ==> s[i].0@ == t[i].0@ && s[i].1 == t[i].1,
    ensures
        user_rating_map_of(s) == user_rating_map_of(t),
    decreases s.len(),
{
    if s.len() > 0 {
        assert(forall|i: int| 0 <= i < s.drop_last().len() ==> s.drop_last()[i] == s[i]);
        assert(forall|i: int| 0 <= i < t.drop_last().len() ==> t.drop_last()[i] == t[i]);
        lemma_user_rating_map_of_congruent(s.drop_last(), t.drop_last());
        assert(s[s.len() - 1] == s.last());
        assert(t[t.len() - 1] == t.last());
    }
}

/// A user: an immutable identifier, profile fields, and the ratings
/// the user has given, keyed by cheese name.
#[derive(PartialEq, Debug, Clone)]
pub struct UserData {
    pub id: UserId,
    pub name: String,
    pub age: u8,
    pub cheese_ratings: UserCheeseRatingMap,
}

impl UserData {
    /// The user's ratings carry at most one entry per cheese name.
    pub open spec fn wf(self) -> bool {
        self.cheese_ratings.wf()
    }

    /// A new user with a freshly generated identifier, an empty name,
    /// age zero, and no ratings given.
    pub fn new() -> (r: Self)
        ensures
            r.id@ != 0,
            r.name@ == Seq::<char>::empty(),
            r.age == 0,
            r.cheese_ratings@ == Map::<Seq<char>, int>::empty(),
            r.wf(),
    {
        UserData {
            id: UserId::fresh(),
            name: String::new(),
            age: 0,
            cheese_ratings: UserCheeseRatingMap::default(),
        }
    }

    /// Records that this user rated a cheese; rejects a cheese name
    /// the user already rated and then changes nothing.
    pub fn insert_rating(&mut self, user_rating: UserCheeseRating) -> (r: Result<
        (),
        UserDataError,
    >)
        requires
            old(self).wf(),
        ensures
            final(self).wf(),
            final(self).id == old(self).id,
            final(self).name == old(self).name,
            final(self).age == old(self).age,
            match r {
                Ok(()) => {
                    &&& !old(self).cheese_ratings@.contains_key(user_rating.0@)
                    &&& final(self).cheese_ratings@ == old(self).cheese_ratings@.insert(
                        user_rating.0@,
                        user_rating.1@,
                    )
                },
                Err(UserDataError::DuplicateCheeseName) => {
                    &&& old(self).cheese_ratings@.contains_key(user_rating.0@)
                    &&& *final(self) == *old(self)
                },
            },
    {
        match self.cheese_ratings.insert(user_rating) {
            Ok(()) => Ok(()),
            Err(_) => Err(UserDataError::DuplicateCheeseName),
        }
    }

    /// This user under another name, everything else kept.
    pub fn name(self, name: &str) -> (r: Self)
        ensures
            r.name@ == name@,
            r.id == self.id,
            r.age == self.age,
            r.cheese_ratings == self.cheese_ratings,
    {
        UserData {
            name: name.to_owned(),
            id: self.id,
            age: self.age,
            cheese_ratings: self.cheese_ratings,
        }
    }

    /// This user at another age, everything else kept.
    pub fn age(self, age: u8) -> (r: Self)
        ensures
            r.age == age,
            r.id == self.id,
            r.name == self.name,
            r.cheese_ratings == self.cheese_ratings,
    {
        UserData { age, id: self.id, name: self.name, cheese_ratings: self.cheese_ratings }
    }
}

} // verus!
