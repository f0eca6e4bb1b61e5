use mud_session::login::login_attempt;
use mud_session::player::{Player, Players, RegisterError};

#[test]
fn register_allocates_lowest_ids_in_order() {
    let mut players = Players::new();
    let a = players.register(String::from("ada"), 1).unwrap();
    let b = players.register(String::from("grace"), 1).unwrap();
    let c = players.register(String::from("alan"), 1).unwrap();
    assert_eq!(a.id, 1);
    assert_eq!(b.id, 2);
    assert_eq!(c.id, 3);
    assert_eq!(players.count(), 3);
}

#[test]
fn register_rejects_connected_username() {
    let mut players = Players::new();
    players.register(String::from("ada"), 1).unwrap();
    let second = players.register(String::from("ada"), 1);
    assert!(matches!(second, Err(RegisterError::UsernameTaken)));
    assert_eq!(players.count(), 1);
}

#[test]
fn register_usernames_are_case_sensitive() {
    let mut players = Players::new();
    players.register(String::from("ada"), 1).unwrap();
    assert!(players.register(String::from("Ada"), 1).is_ok());
}

#[test]
fn username_free_again_after_disconnect() {
    let mut players = Players::new();
    let p = players.register(String::from("ada"), 1).unwrap();
    assert!(players.register(String::from("ada"), 1).is_err());
    let removed = players.remove(p.id).unwrap();
    assert_eq!(removed.username, "ada");
    assert!(players.register(String::from("ada"), 1).is_ok());
}

#[test]
fn removed_id_is_reused_lowest_first() {
    let mut players = Players::new();
    players.register(String::from("a"), 1).unwrap();
    players.register(String::from("b"), 1).unwrap();
    players.register(String::from("c"), 1).unwrap();
    players.remove(2);
    let d = players.register(String::from("d"), 1).unwrap();
    assert_eq!(d.id, 2);
}

#[test]
fn simultaneous_distinct_logins_get_distinct_ids() {
    let mut players = Players::new();
    let mut ids = Vec::new();
    for name in ["n1", "n2", "n3", "n4", "n5", "n6", "n7", "n8"] {
        let p = players.register(String::from(name), 1).unwrap();
        ids.push(p.id);
    }
    for i in 0..ids.len() {
        for j in 0..ids.len() {
            if i != j {
                assert_ne!(ids[i], ids[j]);
            }
        }
    }
}

#[test]
fn remove_missing_session_is_a_no_op() {
    let mut players = Players::new();
    players.register(String::from("ada"), 1).unwrap();
    assert!(players.remove(99).is_none());
    assert_eq!(players.count(), 1);
}

#[test]
fn get_and_set_room() {
    let mut players = Players::new();
    let p = players.register(String::from("ada"), 1).unwrap();
    assert_eq!(players.get(p.id).unwrap().current_room, 1);
    players.set_room(p.id, 5);
    assert_eq!(players.get(p.id).unwrap().current_room, 5);
    assert_eq!(players.get(p.id).unwrap().username, "ada");
    assert!(players.get(42).is_none());
}

#[test]
fn add_player_refuses_taken_id_or_name() {
    let mut players = Players::new();
    players.register(String::from("ada"), 1).unwrap();
    players.add_player(Player::new(1, String::from("other"), 2));
    assert_eq!(players.count(), 1);
    players.add_player(Player::new(9, String::from("ada"), 2));
    assert_eq!(players.count(), 1);
    players.add_player(Player::new(9, String::from("new"), 2));
    assert_eq!(players.count(), 2);
}

#[test]
fn player_move_to_room() {
    let mut p = Player::new(3, String::from("ada"), 1);
    p.move_to_room(8);
    assert_eq!(p.id, 3);
    assert_eq!(p.current_room, 8);
}

#[test]
fn login_attempt_greets_or_rejects() {
    let mut players = Players::new();
    let (first, greeting) = login_attempt(&mut players, String::from("ada"), 1);
    let p = first.unwrap();
    assert_eq!(p.id, 1);
    assert_eq!(greeting, "Welcome, ada");
    let (second, rejection) = login_attempt(&mut players, String::from("ada"), 1);
    assert!(second.is_err());
    assert_eq!(rejection, "Username already taken. Try again.");
    assert_eq!(players.count(), 1);
}

#[test]
fn login_prompt_text() {
    assert_eq!(mud_session::login::login_prompt_line(), "Enter a username: ");
}
