//! An in-memory registry of cheeses and their user ratings.
//!
//! Ratings are bounded integers, cheese names are unique within a
//! registry, and every user may rate a cheese at most once.  The
//! request-level operations check every failure condition before they
//! mutate anything, so a failed operation never leaves partial state.

pub mod cheese;
pub mod order;
pub mod requests;
pub mod user;

pub use cheese::CheeseData;
pub use cheese::CheeseRating;
pub use cheese::CheeseRegistry;
pub use cheese::CheeseRegistryError;
pub use cheese::RatingBoundsError;
pub use cheese::RatingMapError;
pub use cheese::RegistryCheeseRating;
pub use cheese::RegistryCheeseRatingMap;
pub use requests::all_cheeses;
pub use requests::create_new_cheese;
pub use requests::rate_cheese;
pub use requests::CheeseRatingRequest;
pub use requests::NewCheeseRequest;
pub use requests::RateCheeseError;
pub use user::UserCheeseRating;
pub use user::UserCheeseRatingMap;
pub use user::UserData;
pub use user::UserDataError;
pub use user::UserId;
