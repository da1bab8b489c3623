use wizard_adventure::command::cmd;
use wizard_adventure::game::{Game, Object};

#[test]
fn look_shows_room_description_first() {
    let game = Game::new();
    let out = game.look();
    assert!(out.starts_with("you are in the living-room."));
}

#[test]
fn look_describes_the_whole_starting_situation() {
    let game = Game::new();
    assert_eq!(
        "you are in the living-room. \
         there is a door going west from here. \
         there is a ladder going upstairs from here. \
         you see a Whiskey on the floor. you see a Bucket on the floor.",
        game.look()
    );
}

#[test]
fn walk_west_reaches_the_garden() {
    let mut game = Game::new();
    let out = game.walk("west");
    assert!(out.starts_with("you are in the garden"));
    assert!(game.look().starts_with("you are in the garden"));
}

#[test]
fn walk_upstairs_reaches_the_attic() {
    let mut game = Game::new();
    let out = game.walk("upstairs");
    assert!(out.starts_with("you are in the attic"));
}

#[test]
fn walk_matches_by_substring_of_the_whole_label() {
    let mut game = Game::new();
    // "door" is not a direction word, but it is a substring of "west door",
    // the first outgoing label, so it moves the player west.
    let out = game.walk("door");
    assert!(out.starts_with("you are in the garden"));
}

#[test]
fn walk_unknown_direction_changes_nothing() {
    let mut game = Game::new();
    let before = game.look();
    assert_eq!("you cannot go that way.", game.walk("north"));
    assert_eq!(before, game.look());
}

#[test]
fn look_keeps_joining_spaces_around_empty_segments() {
    let mut game = Game::new();
    // The attic has no objects on the floor, so the object segment is empty
    // but its joining space stays behind.
    assert_eq!(
        "you are in the attic there is a ladder going downstairs from here. ",
        game.walk("upstairs")
    );
}

#[test]
fn inventory_starts_empty() {
    let game = Game::new();
    assert_eq!("items-", game.inventory());
}

#[test]
fn pickup_of_an_absent_object_changes_nothing() {
    let mut game = Game::new();
    let before = game.inventory();
    // The frog lies in the garden, not in the living room.
    assert_eq!("you cannot get that.", game.pickup(Object::Frog));
    assert_eq!(before, game.inventory());
}

#[test]
fn pickup_round_trip() {
    let mut game = Game::new();
    assert_eq!("items-", game.inventory());
    assert_eq!("you are now carrying the Whiskey.", game.pickup(Object::Whiskey));
    let carried = game.inventory();
    assert_eq!("items- Whiskey", carried);
    assert_eq!(1, carried.matches("Whiskey").count());
    assert_eq!("you cannot get that.", game.pickup(Object::Whiskey));
    assert_eq!(carried, game.inventory());
}

#[test]
fn picked_up_object_leaves_the_floor() {
    let mut game = Game::new();
    game.pickup(Object::Bucket);
    let out = game.look();
    assert!(!out.contains("you see a Bucket on the floor."));
    assert!(out.contains("you see a Whiskey on the floor."));
}

#[test]
fn inventory_lists_objects_in_world_order() {
    let mut game = Game::new();
    game.pickup(Object::Bucket);
    game.pickup(Object::Whiskey);
    // Holders are updated in place, so the listing keeps the world's own
    // object order, not the pickup order.
    assert_eq!("items- Whiskey Bucket", game.inventory());
}

#[test]
fn object_from_str_knows_every_canonical_name() {
    assert_eq!(Some(Object::Whiskey), Object::from_str("whiskey"));
    assert_eq!(Some(Object::Bucket), Object::from_str("bucket"));
    assert_eq!(Some(Object::Frog), Object::from_str("frog"));
    assert_eq!(Some(Object::Chain), Object::from_str("chain"));
    assert_eq!(None, Object::from_str("sword"));
    // Matching is exact and case-sensitive.
    assert_eq!(None, Object::from_str("Whiskey"));
    assert_eq!(None, Object::from_str("whiskey "));
}

#[test]
fn cmd_look_answers_like_look() {
    let mut game = Game::new();
    let expected = game.look();
    assert_eq!(expected, cmd("look".to_string(), &mut game));
}

#[test]
fn cmd_walk_moves_the_player() {
    let mut game = Game::new();
    let out = cmd("walk west".to_string(), &mut game);
    assert!(out.starts_with("you are in the garden"));
}

#[test]
fn cmd_pickup_takes_the_object() {
    let mut game = Game::new();
    assert_eq!("you are now carrying the Whiskey.", cmd("pickup whiskey".to_string(), &mut game));
    assert_eq!("items- Whiskey", cmd("inventory".to_string(), &mut game));
}

#[test]
fn cmd_reports_missing_arguments() {
    let mut game = Game::new();
    assert_eq!("walk command needs a arg for direction", cmd("walk".to_string(), &mut game));
    assert_eq!("pickup command needs a arg for direction", cmd("pickup".to_string(), &mut game));
}

#[test]
fn cmd_reports_unknown_names_and_verbs() {
    let mut game = Game::new();
    assert_eq!("sword is not object", cmd("pickup sword".to_string(), &mut game));
    assert_eq!("dance is not command", cmd("dance".to_string(), &mut game));
}

#[test]
fn cmd_asks_for_a_command_on_an_empty_line() {
    let mut game = Game::new();
    assert_eq!("please type command", cmd("".to_string(), &mut game));
    assert_eq!("please type command", cmd("   \n".to_string(), &mut game));
}
