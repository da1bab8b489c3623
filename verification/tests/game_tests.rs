use wizard_adventure::game::{describe_path, Game, Location, Object};

fn setup_nodes() -> Vec<(Location, String)> {
    vec![
        (Location::LivingLoom, "you are in the living-room.".to_string()),
        (Location::Garden, "you are in the garden".to_string()),
        (Location::Attic, "you are in the attic".to_string()),
    ]
}

fn setup_edges() -> Vec<(Location, Vec<(Location, String)>)> {
    vec![
        (
            Location::LivingLoom,
            vec![
                (Location::Garden, "west door".to_string()),
                (Location::Attic, "upstairs ladder".to_string()),
            ],
        ),
        (Location::Garden, vec![(Location::LivingLoom, "east door".to_string())]),
        (Location::Attic, vec![(Location::LivingLoom, "downstairs ladder".to_string())]),
    ]
}

fn setup_object_locations() -> Vec<(Object, Location)> {
    vec![
        (Object::Whiskey, Location::LivingLoom),
        (Object::Bucket, Location::LivingLoom),
        (Object::Chain, Location::Garden),
        (Object::Frog, Location::Garden),
    ]
}

#[test]
fn location_described() {
    let game = Game::with_world(
        Location::Attic,
        setup_nodes(),
        setup_edges(),
        setup_object_locations(),
    );

    assert_eq!("you are in the attic", game.describe_location());
}

#[test]
fn path_described() {
    assert_eq!(
        "there is a door going west from here.",
        describe_path(&(Location::Garden, "west door".to_string()))
    );
}

#[test]
fn paths_described() {
    let game = Game::with_world(
        Location::LivingLoom,
        setup_nodes(),
        setup_edges(),
        setup_object_locations(),
    );

    assert_eq!(
        "there is a door going west from here. there is a ladder going upstairs from here.",
        game.describe_paths()
    );
}

#[test]
fn find_current_locations_object() {
    let game = Game::with_world(
        Location::LivingLoom,
        setup_nodes(),
        setup_edges(),
        setup_object_locations(),
    );

    assert_eq!(vec![Object::Whiskey, Object::Bucket], game.objects_at(&Location::LivingLoom))
}

#[test]
fn objects_described() {
    let game = Game::with_world(
        Location::LivingLoom,
        setup_nodes(),
        setup_edges(),
        setup_object_locations(),
    );

    assert_eq!(
        "you see a Whiskey on the floor. you see a Bucket on the floor.",
        game.describe_objects()
    )
}
