use mud_session::area::Area;
use mud_session::mobiles::{Mobile, ResetCommand};
use mud_session::player::Player;
use mud_session::room::{get_sample_rooms, Room};
use mud_session::world::{get_sample_world, World};

#[test]
fn room_exits_add_replace_remove() {
    let mut room = Room::new(1, "Meadow", "An open meadow.");
    assert!(room.get_exit("north").is_none());
    room.add_exit("north", 2);
    room.add_exit("east", 5);
    assert_eq!(room.get_exit("north"), Some(2));
    assert_eq!(room.get_exit("east"), Some(5));
    assert_eq!(room.exit_count(), 2);
    // Re-adding a label replaces the destination, keeping its place.
    room.add_exit("north", 9);
    assert_eq!(room.get_exit("north"), Some(9));
    assert_eq!(room.exit_count(), 2);
    assert_eq!(room.exit_names(), vec![String::from("north"), String::from("east")]);
    room.remove_exit("north");
    assert!(room.get_exit("north").is_none());
    assert_eq!(room.exit_count(), 1);
    room.remove_exit("nowhere");
    assert_eq!(room.exit_count(), 1);
}

#[test]
fn sample_rooms_are_ten_connected_rooms() {
    let rooms = get_sample_rooms();
    assert_eq!(rooms.len(), 10);
    for (i, room) in rooms.iter().enumerate() {
        assert_eq!(room.id as usize, i + 1);
    }
    assert_eq!(rooms[0].name, "Cozy Cottage");
    assert_eq!(rooms[0].get_exit("north"), Some(2));
    assert_eq!(rooms[0].get_exit("east"), Some(5));
    assert_eq!(rooms[1].get_exit("south"), Some(1));
}

#[test]
fn world_lookup_by_room_id() {
    let world = get_sample_world();
    let room = world.get_room(2).unwrap();
    assert_eq!(room.name, "Enchanted Forest");
    assert!(world.get_room(11).is_none());
    let player = Player::new(1, String::from("ada"), 2);
    assert_eq!(world.get_player_room(&player).unwrap().id, 2);
    assert_eq!(world.get_player_exits(&player).unwrap().len(), 2);
}

#[test]
fn reset_spawns_one_instance_per_rule_with_fresh_ids() {
    let mut world = World::new();
    world.add_room(Room::new(1, "Meadow", "An open meadow."));
    world.add_mobile_template(Mobile {
        id: 30,
        keywords: vec![String::from("rat")],
        room_description: String::from("a giant rat"),
    });
    world.add_mobile_template(Mobile {
        id: 31,
        keywords: vec![String::from("bat")],
        room_description: String::from("a small bat"),
    });
    world.add_reset(ResetCommand { mobile_id: 30, room_id: 1 });
    world.add_reset(ResetCommand { mobile_id: 31, room_id: 1 });
    world.add_reset(ResetCommand { mobile_id: 30, room_id: 1 });
    world.reset();
    assert_eq!(world.mobile_count(), 3);
    let first = world.mobile_at(0);
    assert_eq!(first.id, 1);
    assert_eq!(first.template.id, 30);
    assert_eq!(first.template.room_description, "a giant rat");
    assert_eq!(first.current_room, 1);
    assert_eq!(world.mobile_at(1).id, 2);
    assert_eq!(world.mobile_at(1).template.id, 31);
    assert_eq!(world.mobile_at(2).id, 3);
    assert_eq!(world.mobile_at(2).template.id, 30);
}

#[test]
fn add_area_loads_everything_at_once() {
    let mut room = Room::new(4, "Cavern", "A deep cavern.");
    room.add_exit("up", 1);
    let area = Area {
        rooms: vec![room],
        mobiles: vec![Mobile {
            id: 9,
            keywords: vec![String::from("bear")],
            room_description: String::from("a sleeping bear"),
        }],
        resets: vec![ResetCommand { mobile_id: 9, room_id: 4 }],
    };
    let mut world = World::new();
    world.add_area(area);
    assert_eq!(world.get_room(4).unwrap().name, "Cavern");
    world.reset();
    assert_eq!(world.mobile_count(), 1);
    assert_eq!(world.mobile_at(0).current_room, 4);
}

#[test]
fn prompt_shows_cardinal_exit_initials() {
    let world = get_sample_world();
    // Room 5 exits north, south, east and west.
    let player = Player::new(1, String::from("ada"), 5);
    assert_eq!(player.prompt_str(&world), "NSEW > ");
    // Room 3 has only a down exit.
    let below = Player::new(2, String::from("grace"), 3);
    assert_eq!(below.prompt_str(&world), "D > ");
    // A missing room leaves the prompt bare.
    let lost = Player::new(3, String::from("alan"), 99);
    assert_eq!(lost.prompt_str(&world), " > ");
}

#[test]
fn prompt_skips_non_cardinal_exits() {
    let mut world = World::new();
    let mut room = Room::new(1, "Gate", "A gate.");
    room.add_exit("north", 2);
    room.add_exit("portal", 3);
    world.add_room(room);
    let player = Player::new(1, String::from("ada"), 1);
    assert_eq!(player.prompt_str(&world), "N > ");
}

#[test]
fn reset_skips_rules_with_missing_templates() {
    let mut world = World::new();
    world.add_room(Room::new(1, "Meadow", "An open meadow."));
    world.add_mobile_template(Mobile {
        id: 30,
        keywords: vec![String::from("rat")],
        room_description: String::from("a giant rat"),
    });
    world.add_reset(ResetCommand { mobile_id: 30, room_id: 1 });
    world.add_reset(ResetCommand { mobile_id: 99, room_id: 1 });
    world.add_reset(ResetCommand { mobile_id: 30, room_id: 1 });
    world.reset();
    assert_eq!(world.mobile_count(), 2);
    assert_eq!(world.mobile_at(0).id, 1);
    assert_eq!(world.mobile_at(0).template.id, 30);
    assert_eq!(world.mobile_at(1).id, 2);
    assert_eq!(world.mobile_at(1).template.id, 30);
}
