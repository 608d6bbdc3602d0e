//! The operations the registry offers to its callers: rating a
//! cheese, creating one, and listing them all.
//!
//! `rate_cheese` writes to two places — the cheese's own rating map
//! and the user's — so it checks every failure condition before it
//! performs either insert: a failed call never leaves partial state.

use vstd::prelude::*;

use crate::cheese::CheeseData;
use crate::cheese::CheeseRating;
use crate::cheese::CheeseRegistry;
use crate::cheese::CheeseRegistryError;
use crate::cheese::RatingBoundsError;
use crate::cheese::RatingMapError;
use crate::cheese::RegistryCheeseRating;
use crate::cheese::registry_map_of;
use crate::cheese::sorted_by_name;
use crate::cheese::MAX_RATING;
use crate::cheese::MIN_RATING;
use crate::user::UserCheeseRating;
use crate::user::UserData;
use crate::user::UserDataError;
use crate::user::UserId;

verus! {

/// A request to rate a cheese: the target cheese's name and the raw,
/// not yet validated rating.
#[derive(PartialEq, Debug, Clone)]
pub struct CheeseRatingRequest {
    pub rating: u8,
    pub cheese: String,
}

/// A request to create a cheese of the given name.
#[derive(PartialEq, Debug, Clone)]
pub struct NewCheeseRequest {
    pub name: String,
}

/// Failure of the `rate_cheese` operation, naming the side that
/// rejected the request.
#[derive(Debug, PartialEq, Eq, Structural, Clone, Copy)]
pub enum RateCheeseError {
    /// The registry holds no cheese of the requested name.
    Registry(CheeseRegistryError),
    /// The raw rating lies outside the valid bounds.
    Bounds(RatingBoundsError),
    /// The cheese's own map already holds a rating by this user.
    RatingMap(RatingMapError),
    /// The user's map already holds a rating for this cheese name.
    User(UserDataError),
}

/// What `rate_cheese` guarantees: how the states of the user and the
/// registry after the call relate to the states before it, for each
/// possible outcome.
pub open spec fn rate_cheese_post(
    cheese_name: Seq<char>,
    raw_rating: u8,
    user0: UserData,
    registry0: CheeseRegistry,
    user1: UserData,
    registry1: CheeseRegistry,
    r: Result<(), RateCheeseError>,
) -> bool {
    match r {
        Ok(()) => {
            &&& registry0@.contains_key(cheese_name)
            &&& MIN_RATING <= raw_rating <= MAX_RATING
            &&& !registry0@[cheese_name].contains_key(user0.id)
            &&& !user0.cheese_ratings@.contains_key(cheese_name)
            &&& registry1@ == registry0@.insert(
                cheese_name,
                registry0@[cheese_name].insert(user0.id, raw_rating as int),
            )
            &&& user1.cheese_ratings@ == user0.cheese_ratings@.insert(
                cheese_name,
                raw_rating as int,
            )
            &&& user1.id == user0.id
            &&& user1.name == user0.name
            &&& user1.age == user0.age
        },
        Err(RateCheeseError::Registry(e)) => {
            &&& e == CheeseRegistryError::NoSuchCheeseInRegistry
            &&& !registry0@.contains_key(cheese_name)
            &&& user1 == user0
            &&& registry1 == registry0
        },
        Err(RateCheeseError::Bounds(e)) => {
            &&& registry0@.contains_key(cheese_name)
            &&& raw_rating < MIN_RATING || raw_rating > MAX_RATING
            &&& (e == RatingBoundsError::BelowMinimumRating <==> raw_rating < MIN_RATING)
            &&& (e == RatingBoundsError::ExceedsMaximumRating <==> raw_rating > MAX_RATING)
            &&& user1 == user0
            &&& registry1 == registry0
        },
        Err(RateCheeseError::RatingMap(e)) => {
            &&& e == RatingMapError::DuplicateKey
            &&& registry0@.contains_key(cheese_name)
            &&& MIN_RATING <= raw_rating <= MAX_RATING
            &&& registry0@[cheese_name].contains_key(user0.id)
            &&& user1 == user0
            &&& registry1 == registry0
        },
        Err(RateCheeseError::User(e)) => {
            &&& e == UserDataError::DuplicateCheeseName
            &&& registry0@.contains_key(cheese_name)
            &&& MIN_RATING <= raw_rating <= MAX_RATING
            &&& !registry0@[cheese_name].contains_key(user0.id)
            &&& user0.cheese_ratings@.contains_key(cheese_name)
            &&& user1 == user0
            &&& registry1 == registry0
        },
    }
}

/// Rates the requested cheese on behalf of `user`: on success the
/// rating is recorded both in the cheese's map under the user's
/// identifier and in the user's map under the cheese's name; on any
/// failure neither the registry nor the user changes.
pub fn rate_cheese(
    request: CheeseRatingRequest,
    user: &mut UserData,
    registry: &mut CheeseRegistry,
) -> (r: Result<(), RateCheeseError>)
    requires
        old(user).wf(),
        old(registry).wf(),
    ensures
        final(user).wf(),
        final(registry).wf(),
        rate_cheese_post(
            request.cheese@,
            request.rating,
            *old(user),
            *old(registry),
            *final(user),
            *final(registry),
            r,
        ),
{
    // The cheese must exist; note whether this user already rated it.
    let already_rated_cheese: bool = match registry.get(request.cheese.as_str()) {
        Ok(cheese) => cheese.ratings.contains_key(user.id),
        Err(_) => {
            return Err(RateCheeseError::Registry(CheeseRegistryError::NoSuchCheeseInRegistry));
        },
    };
    // The raw rating must lie within bounds.
    let rating = match CheeseRating::new(request.rating) {
        Ok(rating) => rating,
        Err(e) => {
            return Err(RateCheeseError::Bounds(e));
        },
    };
    // Both uniqueness conditions are checked before either insert.
    if already_rated_cheese {
        return Err(RateCheeseError::RatingMap(RatingMapError::DuplicateKey));
    }
    if user.cheese_ratings.contains_key(request.cheese.as_str()) {
        return Err(RateCheeseError::User(UserDataError::DuplicateCheeseName));
    }
    // Commit; neither insert can fail any more.
    let registry_result = registry.insert_rating(
        request.cheese.as_str(),
        RegistryCheeseRating(user.id, rating),
    );
    proof {
        if registry_result is Err {
            assert(false);
        }
    }
    let user_result = user.insert_rating(UserCheeseRating(request.cheese, rating));
    proof {
        if user_result is Err {
            assert(false);
        }
    }
    Ok(())
}

/// Creates a cheese of the requested name with no ratings yet;
/// rejects a name the registry already holds and then changes
/// nothing.
pub fn create_new_cheese(request: NewCheeseRequest, registry: &mut CheeseRegistry) -> (r: Result<
    (),
    CheeseRegistryError,
>)
    requires
        old(registry).wf(),
    ensures
        final(registry).wf(),
        match r {
            Ok(()) => {
                &&& !old(registry)@.contains_key(request.name@)
                &&& final(registry)@ == old(registry)@.insert(
                    request.name@,
                    Map::<UserId, int>::empty(),
                )
            },
            Err(CheeseRegistryError::DuplicateCheeseName) => {
                &&& old(registry)@.contains_key(request.name@)
                &&& *final(registry) == *old(registry)
            },
            Err(CheeseRegistryError::NoSuchCheeseInRegistry) => false,
        },
{
    registry.insert(CheeseData::default().name(request.name.as_str()))
}

/// Every cheese in the registry, sorted by name for a stable listing.
pub fn all_cheeses(registry: &CheeseRegistry) -> (r: Vec<CheeseData>)
    requires
        registry.wf(),
    ensures
        registry_map_of(r@) == registry@,
        sorted_by_name(r@),
{
    registry.all()
}

/// Rating the same cheese twice on behalf of the same user fails the
/// second time with a duplicate-key error, and the stored rating
/// stays the one from the first, successful call.
pub proof fn lemma_rate_cheese_rejects_second_rating(
    cheese_name: Seq<char>,
    raw_rating1: u8,
    raw_rating2: u8,
    user0: UserData,
    registry0: CheeseRegistry,
    user1: UserData,
    registry1: CheeseRegistry,
    user2: UserData,
    registry2: CheeseRegistry,
    r2: Result<(), RateCheeseError>,
)
    requires
        rate_cheese_post(cheese_name, raw_rating1, user0, registry0, user1, registry1, Ok(())),
        rate_cheese_post(cheese_name, raw_rating2, user1, registry1, user2, registry2, r2),
        MIN_RATING <= raw_rating2 <= MAX_RATING,
    ensures
        r2 == Result::<(), RateCheeseError>::Err(
            RateCheeseError::RatingMap(RatingMapError::DuplicateKey),
        ),
        user2 == user1,
        registry2 == registry1,
        registry2@[cheese_name][user0.id] == raw_rating1 as int,
        user2.cheese_ratings@[cheese_name] == raw_rating1 as int,
{
    assert(registry1@.contains_key(cheese_name));
    assert(registry1@[cheese_name].contains_key(user1.id));
}

} // verus!
