use cheese_wizard::cheese::CheeseData;
use cheese_wizard::cheese::CheeseRating;
use cheese_wizard::cheese::CheeseRegistry;
use cheese_wizard::cheese::CheeseRegistryError;
use cheese_wizard::cheese::RatingBoundsError;
use cheese_wizard::cheese::RegistryCheeseRating;
use cheese_wizard::cheese::RegistryCheeseRatingMap;
use cheese_wizard::user::UserId;

#[test]
fn cheese_ratings_must_be_within_bounds() {
    for rating_number in 1..=10 {
        assert_eq!(
            rating_number,
            CheeseRating::new(rating_number).unwrap().value()
        );
    }

    assert_eq!(
        Err(RatingBoundsError::ExceedsMaximumRating),
        CheeseRating::new(11)
    );
    assert_eq!(
        Err(RatingBoundsError::BelowMinimumRating),
        CheeseRating::new(0)
    );
}

#[test]
fn new_cheese_data() {
    let cheese = CheeseData::default().name("Chedder");

    assert_eq!(cheese.name, "Chedder");
    assert_eq!(cheese.ratings, RegistryCheeseRatingMap::default())
}

#[test]
fn registered_cheese_ratings_accepts_a_registered_cheese_rating() {
    let mut registered_cheese_ratings = RegistryCheeseRatingMap::default();
    let user_id = UserId::fresh();
    registered_cheese_ratings
        .insert(RegistryCheeseRating(user_id, CheeseRating::new(5).unwrap()))
        .unwrap();

    let cheese_ratings_vec: Vec<RegistryCheeseRating> = registered_cheese_ratings.to_vec();
    assert_eq!(
        cheese_ratings_vec[0],
        RegistryCheeseRating(user_id, CheeseRating::new(5).unwrap())
    )
}

#[test]
fn inserting_a_rating_into_cheese_data_adds_a_rating() {
    let mut cheese = CheeseData::default();
    let user_id = UserId::fresh();
    let rating = RegistryCheeseRating(user_id, CheeseRating::new(5).unwrap());

    cheese.insert_rating(rating).unwrap();

    assert_eq!(
        cheese.ratings.get(user_id).unwrap(),
        CheeseRating::new(5).unwrap()
    );
}

#[test]
fn insert_cheese_into_registry() -> Result<(), CheeseRegistryError> {
    let cheese = CheeseData::default();
    let mut registry = CheeseRegistry::new();

    registry.insert(cheese.clone())?;

    assert_eq!(registry.all().into_iter().next().unwrap(), cheese);
    Ok(())
}

#[test]
fn cheese_names_are_unique_across_a_registry() -> Result<(), CheeseRegistryError> {
    let cheese_1 = CheeseData::default().name("Foo");
    let cheese_2 = CheeseData::default().name("Bar");

    let mut registry = CheeseRegistry::new();

    registry.insert(cheese_1.clone())?;
    registry.insert(cheese_2.clone())?;

    // The registry accepts and holds working inputs.
    let registry_vec: Vec<CheeseData> = registry.all();
    assert!(registry_vec.contains(&cheese_1));
    assert!(registry_vec.contains(&cheese_2));

    assert_eq!(
        Err(CheeseRegistryError::DuplicateCheeseName),
        registry.insert(cheese_1)
    );

    Ok(())
}

#[test]
fn get_mut_cheese_from_registry() -> Result<(), CheeseRegistryError> {
    let cheese = CheeseData::default().name("Chedder");
    let mut registry = CheeseRegistry::new();

    registry.insert(cheese.clone())?;

    assert_eq!(registry.all().into_iter().next().unwrap(), cheese);

    let registry_clone = registry.clone();
    let found = registry.get("Chedder")?;

    assert_eq!(*found, cheese);
    registry
        .insert_rating(
            "Chedder",
            RegistryCheeseRating(UserId::fresh(), CheeseRating::new(5).unwrap()),
        )
        .unwrap();

    assert_ne!(registry_clone, registry);
    Ok(())
}
