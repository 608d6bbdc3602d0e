use cheese_wizard::cheese::CheeseData;
use cheese_wizard::cheese::CheeseRating;
use cheese_wizard::cheese::CheeseRegistry;
use cheese_wizard::cheese::RegistryCheeseRating;
use cheese_wizard::rate_cheese;
use cheese_wizard::requests::all_cheeses;
use cheese_wizard::requests::create_new_cheese;
use cheese_wizard::requests::CheeseRatingRequest;
use cheese_wizard::requests::NewCheeseRequest;
use cheese_wizard::user::UserCheeseRating;
use cheese_wizard::user::UserData;

// Request decoding from the JSON wire format stays outside the
// library; these tests hand it the already-decoded request values.

#[test]
fn cheese_rating_request() {
    let mut user = UserData::new();
    let mut cheese_registry = CheeseRegistry::new();
    cheese_registry
        .insert(CheeseData::default().name("FooCheeseId"))
        .unwrap();

    let cheese_rating_request = CheeseRatingRequest {
        rating: 5,
        cheese: "FooCheeseId".to_string(),
    };

    rate_cheese(cheese_rating_request, &mut user, &mut cheese_registry).unwrap();

    assert!(user
        .cheese_ratings
        .to_vec()
        .into_iter()
        .any(|x| x == UserCheeseRating("FooCheeseId".to_string(), CheeseRating::new(5).unwrap())));

    assert!(cheese_registry.all().into_iter().all(|cheese| cheese
        .ratings
        .to_vec()
        .into_iter()
        .any(|RegistryCheeseRating(user_id, rating)| user_id == user.id
            && rating == CheeseRating::new(5).unwrap())));
}

#[test]
fn adding_cheese_to_a_user() {
    let mut user = UserData::new();
    let mut cheese_registry = CheeseRegistry::new();
    cheese_registry
        .insert(CheeseData::default().name("FooCheeseId"))
        .unwrap();

    let cheese_rating_request = CheeseRatingRequest {
        rating: 5,
        cheese: "FooCheeseId".to_string(),
    };

    rate_cheese(cheese_rating_request, &mut user, &mut cheese_registry).unwrap();

    assert!(user.cheese_ratings.to_vec().into_iter().any(|x| x
        == UserCheeseRating(
            "FooCheeseId".parse().unwrap(),
            CheeseRating::new(5).unwrap()
        )));

    assert!(cheese_registry.all().into_iter().all(|cheese| cheese
        .ratings
        .to_vec()
        .into_iter()
        .any(|RegistryCheeseRating(user_id, rating)| user_id == user.id
            && rating == CheeseRating::new(5).unwrap())));
}

#[test]
fn new_cheese_request() {
    let mut cheese_registry = CheeseRegistry::new();

    let new_cheese_request = NewCheeseRequest {
        name: "Chedder".to_string(),
    };

    create_new_cheese(new_cheese_request, &mut cheese_registry).unwrap();

    assert!(cheese_registry
        .all()
        .into_iter()
        .any(|cheese| cheese.name == "Chedder"));
}

#[test]
fn all_cheeses_request() {
    let mut cheese_registry = CheeseRegistry::new();

    for name in ["Chedder", "Mozzerella", "Colby Jack"] {
        create_new_cheese(
            NewCheeseRequest {
                name: name.to_string(),
            },
            &mut cheese_registry,
        )
        .unwrap();
    }

    // The three names in ascending lexicographic order.
    let cheeses = vec![
        CheeseData::default().name("Chedder"),
        CheeseData::default().name("Colby Jack"),
        CheeseData::default().name("Mozzerella"),
    ];

    assert_eq!(all_cheeses(&cheese_registry), cheeses);
}
