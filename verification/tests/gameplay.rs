use mud_session::actions::{GossipAction, LookAction, MobileAction, MoveAction, SayAction};
use mud_session::game_loop::process_message;
use mud_session::message::{ConnectionMessage, Direction, GameMessage, OutboundMessage};
use mud_session::mobiles::{Mobile, ResetCommand};
use mud_session::player::Players;
use mud_session::room::Room;
use mud_session::world::{get_sample_world, World};

fn plain_text(msg: &OutboundMessage) -> &str {
    match &msg.message {
        GameMessage::Plain(s) => s.as_str(),
        GameMessage::Prompt(_) => panic!("expected a plain line"),
    }
}

fn two_room_world() -> World {
    let mut world = World::new();
    let mut room1 = Room::new(1, "Meadow", "An open meadow.");
    room1.add_exit("north", 2);
    world.add_room(room1);
    let mut room2 = Room::new(2, "Grove", "A shaded grove.");
    room2.add_exit("south", 1);
    world.add_room(room2);
    world
}

#[test]
fn gossip_reaches_everyone_including_sender() {
    let world = two_room_world();
    let mut players = Players::new();
    let a = players.register(String::from("ada"), 1).unwrap();
    let b = players.register(String::from("grace"), 2).unwrap();
    let action = GossipAction { sender: a.id, content: String::from("hello") };
    let out = action.perform(&players, &world);
    assert_eq!(out.len(), 2);
    assert_eq!(out[0].recipient, a.id);
    assert_eq!(out[1].recipient, b.id);
    assert_eq!(plain_text(&out[0]), "ada gossips 'hello'");
    assert_eq!(plain_text(&out[1]), "ada gossips 'hello'");
}

#[test]
fn say_reaches_only_the_senders_room() {
    let world = two_room_world();
    let mut players = Players::new();
    let a = players.register(String::from("ada"), 1).unwrap();
    let _b = players.register(String::from("grace"), 2).unwrap();
    let c = players.register(String::from("alan"), 1).unwrap();
    let action = SayAction { sender: a.id, content: String::from("psst") };
    let out = action.perform(&players, &world);
    assert_eq!(out.len(), 2);
    assert_eq!(out[0].recipient, a.id);
    assert_eq!(out[1].recipient, c.id);
    assert_eq!(plain_text(&out[0]), "ada says 'psst'");
}

#[test]
fn chat_from_unregistered_sender_is_silent() {
    let world = two_room_world();
    let players = Players::new();
    let gossip = GossipAction { sender: 4, content: String::from("hi") };
    assert!(gossip.perform(&players, &world).is_empty());
    let say = SayAction { sender: 4, content: String::from("hi") };
    assert!(say.perform(&players, &world).is_empty());
    let look = LookAction { sender: 4 };
    assert!(look.perform(&players, &world).is_empty());
}

#[test]
fn look_renders_room_exits_and_occupants() {
    let world = two_room_world();
    let mut players = Players::new();
    let a = players.register(String::from("ada"), 1).unwrap();
    let _b = players.register(String::from("grace"), 1).unwrap();
    let out = LookAction { sender: a.id }.perform(&players, &world);
    assert_eq!(out.len(), 1);
    assert_eq!(out[0].recipient, a.id);
    assert_eq!(
        plain_text(&out[0]),
        "Meadow\nAn open meadow.\nYou see exits to the north\nYou see grace here."
    );
}

#[test]
fn look_alone_in_a_room_without_exits() {
    let mut world = World::new();
    world.add_room(Room::new(1, "Cell", "Bare walls."));
    let mut players = Players::new();
    let a = players.register(String::from("ada"), 1).unwrap();
    let out = LookAction { sender: a.id }.perform(&players, &world);
    assert_eq!(
        plain_text(&out[0]),
        "Cell\nBare walls.\nYou don't see any exits.\nYou're the only one here."
    );
}

#[test]
fn look_twice_renders_identically() {
    let world = two_room_world();
    let mut players = Players::new();
    let a = players.register(String::from("ada"), 1).unwrap();
    let first = LookAction { sender: a.id }.perform(&players, &world);
    let second = LookAction { sender: a.id }.perform(&players, &world);
    assert_eq!(first.len(), 1);
    assert_eq!(second.len(), 1);
    assert_eq!(plain_text(&first[0]), plain_text(&second[0]));
}

#[test]
fn look_in_missing_room_reports_no_information() {
    let world = two_room_world();
    let mut players = Players::new();
    let a = players.register(String::from("ada"), 9).unwrap();
    let out = LookAction { sender: a.id }.perform(&players, &world);
    assert_eq!(out.len(), 1);
    assert_eq!(out[0].recipient, a.id);
    assert_eq!(plain_text(&out[0]), "No room information available.");
}

#[test]
fn move_through_exit_updates_room_silently() {
    let world = two_room_world();
    let mut players = Players::new();
    let a = players.register(String::from("ada"), 1).unwrap();
    let out = MoveAction { sender: a.id, direction: Direction::North }.perform(&mut players, &world);
    assert!(out.is_empty());
    assert_eq!(players.get(a.id).unwrap().current_room, 2);
}

#[test]
fn move_without_exit_reports_and_keeps_room() {
    let world = two_room_world();
    let mut players = Players::new();
    let a = players.register(String::from("ada"), 1).unwrap();
    let out = MoveAction { sender: a.id, direction: Direction::South }.perform(&mut players, &world);
    assert_eq!(out.len(), 1);
    assert_eq!(out[0].recipient, a.id);
    assert_eq!(plain_text(&out[0]), "You don't see an exit south from here");
    assert_eq!(players.get(a.id).unwrap().current_room, 1);
}

#[test]
fn mobile_listing_renders_ids_and_rooms() {
    let mut world = two_room_world();
    world.add_mobile_template(Mobile {
        id: 7,
        keywords: vec![String::from("goblin")],
        room_description: String::from("a sneaky goblin"),
    });
    world.add_reset(ResetCommand { mobile_id: 7, room_id: 2 });
    world.reset();
    let mut players = Players::new();
    let a = players.register(String::from("ada"), 1).unwrap();
    let out = MobileAction { sender: a.id }.perform(&players, &world);
    assert_eq!(out.len(), 1);
    assert_eq!(plain_text(&out[0]), "1\ta sneaky goblin\t2\tGrove");
}

#[test]
fn look_lists_mobiles_in_the_room() {
    let mut world = two_room_world();
    world.add_mobile_template(Mobile {
        id: 7,
        keywords: vec![String::from("goblin")],
        room_description: String::from("a sneaky goblin"),
    });
    world.add_reset(ResetCommand { mobile_id: 7, room_id: 1 });
    world.reset();
    let mut players = Players::new();
    let a = players.register(String::from("ada"), 1).unwrap();
    let out = LookAction { sender: a.id }.perform(&players, &world);
    assert_eq!(
        plain_text(&out[0]),
        "Meadow\nAn open meadow.\nYou see exits to the north\nYou see a sneaky goblin here."
    );
}

#[test]
fn sample_walk_north_then_south() {
    // Room 1 exits north to room 2; room 2 exits south back to room 1.
    let world = get_sample_world();
    let mut players = Players::new();
    let a = players.register(String::from("ada"), 1).unwrap();

    let north = process_message(
        &mut players,
        &world,
        ConnectionMessage::PlayerCommand(a.id, String::from("north")),
    );
    assert_eq!(players.get(a.id).unwrap().current_room, 2);
    assert_eq!(north.len(), 1);
    assert_eq!(north[0].recipient, a.id);
    let text = plain_text(&north[0]);
    assert!(text.starts_with("Enchanted Forest\n"));
    assert!(text.contains("You see exits to the south, west"));

    let south = process_message(
        &mut players,
        &world,
        ConnectionMessage::PlayerCommand(a.id, String::from("south")),
    );
    assert_eq!(players.get(a.id).unwrap().current_room, 1);
    assert!(plain_text(&south[0]).starts_with("Cozy Cottage\n"));
}

#[test]
fn unknown_command_is_not_understood() {
    let world = two_room_world();
    let mut players = Players::new();
    let a = players.register(String::from("ada"), 1).unwrap();
    let out = process_message(
        &mut players,
        &world,
        ConnectionMessage::PlayerCommand(a.id, String::from("sing loudly")),
    );
    assert_eq!(out.len(), 1);
    assert_eq!(plain_text(&out[0]), "That is not understood.");
    let empty_line = process_message(
        &mut players,
        &world,
        ConnectionMessage::PlayerCommand(a.id, String::from("")),
    );
    assert_eq!(empty_line.len(), 1);
    assert_eq!(plain_text(&empty_line[0]), "That is not understood.");
}

#[test]
fn disconnect_removes_session_and_stops_delivery() {
    let world = two_room_world();
    let mut players = Players::new();
    let a = players.register(String::from("ada"), 1).unwrap();
    let b = players.register(String::from("grace"), 1).unwrap();
    let none = process_message(&mut players, &world, ConnectionMessage::RemovePlayer(b.id));
    assert!(none.is_empty());
    assert!(players.get(b.id).is_none());
    let out = process_message(
        &mut players,
        &world,
        ConnectionMessage::PlayerCommand(a.id, String::from("gossip anyone there")),
    );
    assert_eq!(out.len(), 1);
    assert_eq!(out[0].recipient, a.id);
}

#[test]
fn gossip_via_game_loop_formats_line() {
    let world = two_room_world();
    let mut players = Players::new();
    let a = players.register(String::from("ada"), 1).unwrap();
    let out = process_message(
        &mut players,
        &world,
        ConnectionMessage::PlayerCommand(a.id, String::from(". hi  all")),
    );
    assert_eq!(out.len(), 1);
    assert_eq!(plain_text(&out[0]), "ada gossips 'hi all'");
}

#[test]
fn add_player_message_inserts_only_when_free() {
    let world = two_room_world();
    let mut players = Players::new();
    let none = process_message(
        &mut players,
        &world,
        ConnectionMessage::AddPlayer(mud_session::player::Player::new(5, String::from("eve"), 1)),
    );
    assert!(none.is_empty());
    assert_eq!(players.get(5).unwrap().username, "eve");
    process_message(
        &mut players,
        &world,
        ConnectionMessage::AddPlayer(mud_session::player::Player::new(5, String::from("mallory"), 2)),
    );
    assert_eq!(players.count(), 1);
    assert_eq!(players.get(5).unwrap().username, "eve");
}
