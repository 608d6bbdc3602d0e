use cheese_wizard::cheese::CheeseData;
use cheese_wizard::cheese::CheeseRating;
use cheese_wizard::cheese::CheeseRegistry;
use cheese_wizard::cheese::CheeseRegistryError;
use cheese_wizard::cheese::RatingBoundsError;
use cheese_wizard::cheese::RatingMapError;
use cheese_wizard::cheese::RegistryCheeseRating;
use cheese_wizard::cheese::RegistryCheeseRatingMap;
use cheese_wizard::rate_cheese;
use cheese_wizard::requests::all_cheeses;
use cheese_wizard::requests::create_new_cheese;
use cheese_wizard::requests::CheeseRatingRequest;
use cheese_wizard::requests::NewCheeseRequest;
use cheese_wizard::requests::RateCheeseError;
use cheese_wizard::user::UserCheeseRating;
use cheese_wizard::user::UserCheeseRatingMap;
use cheese_wizard::user::UserData;
use cheese_wizard::user::UserId;

fn registry_with(names: &[&str]) -> CheeseRegistry {
    let mut registry = CheeseRegistry::new();
    for name in names {
        create_new_cheese(
            NewCheeseRequest {
                name: name.to_string(),
            },
            &mut registry,
        )
        .unwrap();
    }
    registry
}

fn rating_request(rating: u8, cheese: &str) -> CheeseRatingRequest {
    CheeseRatingRequest {
        rating,
        cheese: cheese.to_string(),
    }
}

#[test]
fn rating_rejects_the_far_edges() {
    assert_eq!(
        Err(RatingBoundsError::BelowMinimumRating),
        CheeseRating::new(0)
    );
    assert_eq!(
        Err(RatingBoundsError::ExceedsMaximumRating),
        CheeseRating::new(255)
    );
    assert_eq!(1, CheeseRating::new(1).unwrap().value());
    assert_eq!(10, CheeseRating::new(10).unwrap().value());
}

#[test]
fn duplicate_cheese_insert_leaves_registry_unchanged() {
    let mut registry = registry_with(&["Foo", "Bar"]);
    let before = all_cheeses(&registry);

    assert_eq!(
        Err(CheeseRegistryError::DuplicateCheeseName),
        registry.insert(CheeseData::default().name("Foo"))
    );

    assert_eq!(before, all_cheeses(&registry));
}

#[test]
fn rating_a_cheese_records_it_on_both_sides() {
    let mut registry = registry_with(&["Gouda"]);
    let mut user = UserData::new();

    rate_cheese(rating_request(9, "Gouda"), &mut user, &mut registry).unwrap();

    let cheese = registry.get("Gouda").unwrap();
    assert_eq!(9, cheese.ratings.get(user.id).unwrap().value());
    assert_eq!(
        9,
        user.cheese_ratings.get("Gouda".to_string()).unwrap().value()
    );
}

#[test]
fn rating_a_cheese_twice_fails_and_keeps_the_first_rating() {
    let mut registry = registry_with(&["Gouda"]);
    let mut user = UserData::new();

    rate_cheese(rating_request(6, "Gouda"), &mut user, &mut registry).unwrap();
    assert_eq!(
        Err(RateCheeseError::RatingMap(RatingMapError::DuplicateKey)),
        rate_cheese(rating_request(9, "Gouda"), &mut user, &mut registry)
    );

    let cheese = registry.get("Gouda").unwrap();
    assert_eq!(6, cheese.ratings.get(user.id).unwrap().value());
    assert_eq!(
        6,
        user.cheese_ratings.get("Gouda".to_string()).unwrap().value()
    );
}

#[test]
fn rating_an_unknown_cheese_changes_nothing() {
    let mut registry = registry_with(&["Brie"]);
    let mut user = UserData::new();
    let before = all_cheeses(&registry);

    assert_eq!(
        Err(RateCheeseError::Registry(
            CheeseRegistryError::NoSuchCheeseInRegistry
        )),
        rate_cheese(rating_request(5, "Gouda"), &mut user, &mut registry)
    );

    assert_eq!(before, all_cheeses(&registry));
    assert!(user.cheese_ratings.to_vec().is_empty());
}

#[test]
fn rating_out_of_bounds_changes_nothing() {
    let mut registry = registry_with(&["Brie"]);
    let mut user = UserData::new();
    let before = all_cheeses(&registry);

    assert_eq!(
        Err(RateCheeseError::Bounds(
            RatingBoundsError::BelowMinimumRating
        )),
        rate_cheese(rating_request(0, "Brie"), &mut user, &mut registry)
    );
    assert_eq!(
        Err(RateCheeseError::Bounds(
            RatingBoundsError::ExceedsMaximumRating
        )),
        rate_cheese(rating_request(11, "Brie"), &mut user, &mut registry)
    );

    assert_eq!(before, all_cheeses(&registry));
    assert!(user.cheese_ratings.to_vec().is_empty());
}

#[test]
fn all_cheeses_on_an_empty_registry_is_empty() {
    let registry = CheeseRegistry::new();
    assert!(all_cheeses(&registry).is_empty());
}

#[test]
fn all_cheeses_sorts_names_inserted_in_any_order() {
    let registry = registry_with(&["b", "a", "c"]);
    let names: Vec<String> = all_cheeses(&registry)
        .into_iter()
        .map(|cheese| cheese.name)
        .collect();
    assert_eq!(vec!["a", "b", "c"], names);
}

#[test]
fn registry_rating_map_rejects_duplicates_and_reports_absences() {
    let mut map = RegistryCheeseRatingMap::default();
    let user_id = UserId::from_value(7);

    assert_eq!(Err(RatingMapError::NotFound), map.get(user_id));
    map.insert(RegistryCheeseRating(user_id, CheeseRating::new(3).unwrap()))
        .unwrap();
    assert_eq!(
        Err(RatingMapError::DuplicateKey),
        map.insert(RegistryCheeseRating(user_id, CheeseRating::new(4).unwrap()))
    );
    assert_eq!(3, map.get(user_id).unwrap().value());
}

#[test]
fn user_rating_map_rejects_duplicates_and_reports_absences() {
    let mut map = UserCheeseRatingMap::default();

    assert_eq!(
        Err(RatingMapError::NotFound),
        map.get("Brie".to_string())
    );
    map.insert(UserCheeseRating(
        "Brie".to_string(),
        CheeseRating::new(8).unwrap(),
    ))
    .unwrap();
    assert_eq!(
        Err(RatingMapError::DuplicateKey),
        map.insert(UserCheeseRating(
            "Brie".to_string(),
            CheeseRating::new(2).unwrap(),
        ))
    );
    assert_eq!(8, map.get("Brie".to_string()).unwrap().value());
}

#[test]
fn fresh_user_ids_are_never_nil() {
    for _ in 0..32 {
        assert!(!UserId::fresh().is_nil());
    }
}

#[test]
fn user_id_round_trips_its_value() {
    let id = UserId::from_value(42);
    assert_eq!(42, id.value());
    assert!(!id.is_nil());
    assert!(UserId::from_value(0).is_nil());
}
