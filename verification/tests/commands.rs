use mud_session::message::{Direction, PlayerMessage, RawCommand};
use mud_session::text::u32_to_string;

fn interpret(line: &str) -> Option<PlayerMessage> {
    RawCommand::new(1, String::from(line)).interpret()
}

#[test]
fn interpret_gossip_word() {
    let msg = interpret("gossip hello there");
    assert!(matches!(msg, Some(PlayerMessage::Gossip(c)) if c == "hello there"));
}

#[test]
fn interpret_gossip_dot_alias() {
    let msg = interpret(". hi all");
    assert!(matches!(msg, Some(PlayerMessage::Gossip(c)) if c == "hi all"));
}

#[test]
fn interpret_gossip_without_content_fails() {
    assert!(interpret("gossip").is_none());
    assert!(interpret(".").is_none());
    assert!(interpret("gossip   ").is_none());
}

#[test]
fn interpret_say() {
    let msg = interpret("say good morning");
    assert!(matches!(msg, Some(PlayerMessage::Say(c)) if c == "good morning"));
}

#[test]
fn interpret_say_without_content_fails() {
    assert!(interpret("say").is_none());
}

#[test]
fn interpret_normalises_interior_whitespace() {
    let msg = interpret("gossip  spaced   out\twords");
    assert!(matches!(msg, Some(PlayerMessage::Gossip(c)) if c == "spaced out words"));
}

#[test]
fn interpret_look_and_alias() {
    assert!(matches!(interpret("look"), Some(PlayerMessage::Look)));
    assert!(matches!(interpret("l"), Some(PlayerMessage::Look)));
}

#[test]
fn interpret_verb_case_insensitive() {
    assert!(matches!(interpret("LOOK"), Some(PlayerMessage::Look)));
    assert!(matches!(interpret("Gossip Hi"), Some(PlayerMessage::Gossip(c)) if c == "Hi"));
}

#[test]
fn interpret_movement_words_and_letters() {
    assert!(matches!(interpret("n"), Some(PlayerMessage::Move(Direction::North))));
    assert!(matches!(interpret("north"), Some(PlayerMessage::Move(Direction::North))));
    assert!(matches!(interpret("s"), Some(PlayerMessage::Move(Direction::South))));
    assert!(matches!(interpret("south"), Some(PlayerMessage::Move(Direction::South))));
    assert!(matches!(interpret("e"), Some(PlayerMessage::Move(Direction::East))));
    assert!(matches!(interpret("east"), Some(PlayerMessage::Move(Direction::East))));
    assert!(matches!(interpret("w"), Some(PlayerMessage::Move(Direction::West))));
    assert!(matches!(interpret("west"), Some(PlayerMessage::Move(Direction::West))));
    assert!(matches!(interpret("u"), Some(PlayerMessage::Move(Direction::Up))));
    assert!(matches!(interpret("up"), Some(PlayerMessage::Move(Direction::Up))));
    assert!(matches!(interpret("d"), Some(PlayerMessage::Move(Direction::Down))));
    assert!(matches!(interpret("down"), Some(PlayerMessage::Move(Direction::Down))));
}

#[test]
fn interpret_mobiles_listing() {
    assert!(matches!(interpret("mobs"), Some(PlayerMessage::Mobiles)));
    assert!(matches!(interpret("mobiles"), Some(PlayerMessage::Mobiles)));
}

#[test]
fn interpret_unknown_verb_is_contextual() {
    let msg = interpret("Dance wildly  tonight");
    match msg {
        Some(PlayerMessage::Contextual(verb, rest)) => {
            assert_eq!(verb, "dance");
            assert_eq!(rest, "wildly tonight");
        }
        other => panic!("expected a contextual command, got {:?}", other),
    }
}

#[test]
fn interpret_empty_line_fails() {
    assert!(interpret("").is_none());
    assert!(interpret("   \t ").is_none());
}

#[test]
fn raw_command_keeps_sender() {
    let cmd = RawCommand::new(17, String::from("look"));
    assert_eq!(cmd.sender(), 17);
}

#[test]
fn direction_labels() {
    assert_eq!(Direction::North.label(), "north");
    assert_eq!(Direction::Down.label(), "down");
}

#[test]
fn decimal_rendering() {
    assert_eq!(u32_to_string(0), "0");
    assert_eq!(u32_to_string(7), "7");
    assert_eq!(u32_to_string(90210), "90210");
    assert_eq!(u32_to_string(u32::MAX), "4294967295");
}
