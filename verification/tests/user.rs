use cheese_wizard::cheese::CheeseRating;
use cheese_wizard::user::UserCheeseRating;
use cheese_wizard::user::UserData;
use cheese_wizard::user::UserDataError;

#[test]
fn new_user_data() {
    let user = UserData::new().name("Jeffery Hugo").age(18);

    assert_eq!(user.name, "Jeffery Hugo");
    assert_eq!(user.age, 18);
    assert!(!user.id.is_nil());
}

#[test]
fn new_user_has_unique_id() {
    let user_1 = UserData::new();
    let user_2 = UserData::new();

    assert_ne!(user_1.id, user_2.id);
}

#[test]
fn inserting_a_rating_into_user_data_adds_a_rating() -> Result<(), UserDataError> {
    let mut user = UserData::new();
    let cheese_name = "Chedder".to_owned();
    let rating = UserCheeseRating(cheese_name.clone(), CheeseRating::new(5).unwrap());

    user.insert_rating(rating)?;

    assert_eq!(
        user.cheese_ratings.get(cheese_name).unwrap(),
        CheeseRating::new(5).unwrap()
    );

    Ok(())
}

#[test]
fn cheese_names_are_unique_across_user_data_ratings() -> Result<(), UserDataError> {
    let cheese_1_rating = UserCheeseRating("Foo".to_owned(), CheeseRating::new(5).unwrap());
    let cheese_2_rating = UserCheeseRating("Bar".to_owned(), CheeseRating::new(5).unwrap());

    let mut user = UserData::new();

    user.insert_rating(cheese_1_rating.clone())?;
    user.insert_rating(cheese_2_rating.clone())?;

    // The registry accepts and holds working inputs.
    let registry_vec: Vec<UserCheeseRating> = user.cheese_ratings.to_vec();
    assert!(registry_vec.contains(&cheese_1_rating));
    assert!(registry_vec.contains(&cheese_2_rating));

    assert_eq!(
        Err(UserDataError::DuplicateCheeseName),
        user.insert_rating(cheese_1_rating)
    );

    Ok(())
}
