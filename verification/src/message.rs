//! Commands and messages: the raw line arriving from a session, the parsed
//! command it becomes, and the messages the game sends back.

use vstd::prelude::*;

use crate::player::Player;
use crate::telnet::Prompt;
use crate::text::{
    chars_to_string, eq_lower, join_tokens, join_with, lower_chars, lower_seq, seq_views,
    str_chars, tokenize, tokens_of,
};

verus! {

/// The movement directions that have their own commands.
#[derive(Clone, Copy, Debug, PartialEq, Eq, Structural)]
pub enum Direction {
    North,
    South,
    East,
    West,
    Up,
    Down,
}

/// The lower-case word for a direction, as exits name it.
pub open spec fn direction_label(d: Direction) -> Seq<char> {
    match d {
        Direction::North => "north"@,
        Direction::South => "south"@,
        Direction::East => "east"@,
        Direction::West => "west"@,
        Direction::Up => "up"@,
        Direction::Down => "down"@,
    }
}

impl Direction {
    /// The direction's word, lower case.
    pub fn label(&self) -> (r: &'static str)
        ensures
            r@ == direction_label(*self),
    {
        match self {
            Direction::North => "north",
            Direction::South => "south",
            Direction::East => "east",
            Direction::West => "west",
            Direction::Up => "up",
            Direction::Down => "down",
        }
    }
}

/// A command a session sends to the game loop, already interpreted.
#[derive(Debug)]
pub enum PlayerMessage {
    /// Global chat, heard by everyone.
    Gossip(String),
    /// Room chat, heard by the sender's room.
    Say(String),
    /// Describe the current room.
    Look,
    /// An unrecognised verb with its remainder, kept for contextual handling.
    Contextual(String, String),
    /// Movement through one of the fixed exits.
    Move(Direction),
    /// List every mobile and where it stands.
    Mobiles,
}

/// The mathematical value of a parsed command.
#[verifier::ext_equal]
pub enum PlayerMessageModel {
    Gossip(Seq<char>),
    Say(Seq<char>),
    Look,
    Contextual(Seq<char>, Seq<char>),
    Move(Direction),
    Mobiles,
}

impl View for PlayerMessage {
    type V = PlayerMessageModel;

    open spec fn view(&self) -> PlayerMessageModel {
        match self {
            PlayerMessage::Gossip(t) => PlayerMessageModel::Gossip(t@),
            PlayerMessage::Say(t) => PlayerMessageModel::Say(t@),
            PlayerMessage::Look => PlayerMessageModel::Look,
            PlayerMessage::Contextual(v, r) => PlayerMessageModel::Contextual(v@, r@),
            PlayerMessage::Move(d) => PlayerMessageModel::Move(*d),
            PlayerMessage::Mobiles => PlayerMessageModel::Mobiles,
        }
    }
}

impl DeepView for PlayerMessage {
    type V = PlayerMessageModel;

    open spec fn deep_view(&self) -> PlayerMessageModel {
        self.view()
    }
}

/// A message the game loop sends back to one session.
pub enum GameMessage {
    /// A full line, terminated on the wire.
    Plain(String),
    /// A prompt, sent without a terminator.
    Prompt(Prompt),
}

/// The mathematical value of an outbound message.
#[verifier::ext_equal]
pub enum GameMessageModel {
    Plain(Seq<char>),
    Prompt(Seq<char>),
}

impl View for GameMessage {
    type V = GameMessageModel;

    open spec fn view(&self) -> GameMessageModel {
        match self {
            GameMessage::Plain(t) => GameMessageModel::Plain(t@),
            GameMessage::Prompt(p) => GameMessageModel::Prompt(p@),
        }
    }
}

impl DeepView for GameMessage {
    type V = GameMessageModel;

    open spec fn deep_view(&self) -> GameMessageModel {
        self.view()
    }
}

/// What a connection task sends to the game loop.
pub enum ConnectionMessage {
    /// A freshly registered player to take into the directory.
    AddPlayer(Player),
    /// The session disconnected: drop it from the directory.
    RemovePlayer(u32),
    /// One raw line from the session, to interpret and dispatch.
    PlayerCommand(u32, String),
}

/// One rendered message addressed to one session.
pub struct OutboundMessage {
    pub recipient: u32,
    pub message: GameMessage,
}

/// The mathematical value of an addressed message.
#[verifier::ext_equal]
pub struct OutboundModel {
    pub recipient: u32,
    pub message: GameMessageModel,
}

impl View for OutboundMessage {
    type V = OutboundModel;

    open spec fn view(&self) -> OutboundModel {
        OutboundModel { recipient: self.recipient, message: self.message@ }
    }
}

impl DeepView for OutboundMessage {
    type V = OutboundModel;

    open spec fn deep_view(&self) -> OutboundModel {
        self.view()
    }
}

/// One raw line from a session, tagged with who sent it.
#[derive(Debug)]
pub struct RawCommand {
    sender_id: u32,
    command: String,
}

/// What `interpret` yields on a given line.
///
/// The first whitespace token, folded to lower case, selects the intent; the
/// rest of the tokens, joined by single spaces, are the content.  A chat verb
/// with nothing after it is a parse failure, as is an empty line.  Any other
/// unknown verb is kept as a contextual command.
pub open spec fn interpret_spec(s: Seq<char>) -> Option<PlayerMessageModel> {
    let toks = tokens_of(s);
    if toks.len() == 0 {
        None
    } else {
        let verb = lower_seq(toks.first());
        let rest = join_with(toks.drop_first(), seq![' ']);
        if verb == "."@ || verb == "gossip"@ {
            if rest.len() == 0 {
                None
            } else {
                Some(PlayerMessageModel::Gossip(rest))
            }
        } else if verb == "say"@ {
            if rest.len() == 0 {
                None
            } else {
                Some(PlayerMessageModel::Say(rest))
            }
        } else if verb == "l"@ || verb == "look"@ {
            Some(PlayerMessageModel::Look)
        } else if verb == "n"@ || verb == "north"@ {
            Some(PlayerMessageModel::Move(Direction::North))
        } else if verb == "s"@ || verb == "south"@ {
            Some(PlayerMessageModel::Move(Direction::South))
        } else if verb == "e"@ || verb == "east"@ {
            Some(PlayerMessageModel::Move(Direction::East))
        } else if verb == "w"@ || verb == "west"@ {
            Some(PlayerMessageModel::Move(Direction::West))
        } else if verb == "u"@ || verb == "up"@ {
            Some(PlayerMessageModel::Move(Direction::Up))
        } else if verb == "d"@ || verb == "down"@ {
            Some(PlayerMessageModel::Move(Direction::Down))
        } else if verb == "mobs"@ || verb == "mobiles"@ {
            Some(PlayerMessageModel::Mobiles)
        } else {
            Some(PlayerMessageModel::Contextual(verb, rest))
        }
    }
}

impl RawCommand {
    pub fn new(sender_id: u32, command: String) -> (r: RawCommand)
        ensures
            r.sender_spec() == sender_id,
            r.line() == command@,
    {
        RawCommand { sender_id, command }
    }

    /// The session id of the sender.
    pub closed spec fn sender_spec(&self) -> u32 {
        self.sender_id
    }

    /// The characters of the raw line.
    pub closed spec fn line(&self) -> Seq<char> {
        self.command@
    }

    pub fn sender(&self) -> (r: u32)
        ensures
            r == self.sender_spec(),
    {
        self.sender_id
    }

    /// Turns the raw line into a structured command, or nothing when the
    /// line does not parse (empty, or a chat verb without content).
    pub fn interpret(&self) -> (r: Option<PlayerMessage>)
        ensures
            r.deep_view() == interpret_spec(self.line()),
    {
        let chars = str_chars(self.command.as_str());
        let toks = tokenize(&chars);
        let ghost toks_spec = tokens_of(self.command@);
        if toks.len() == 0 {
            return None;
        }
        proof {
            assert(toks_spec.first() == toks@[0]@);
            assert(seq_views(toks@).skip(1) =~= toks_spec.drop_first());
        }
        let first = &toks[0];
        if eq_lower(first, ".") || eq_lower(first, "gossip") {
            let rest = join_tokens(&toks, 1);
            if rest.as_str().is_empty() {
                None
            } else {
                Some(PlayerMessage::Gossip(rest))
            }
        } else if eq_lower(first, "say") {
            let rest = join_tokens(&toks, 1);
            if rest.as_str().is_empty() {
                None
            } else {
                Some(PlayerMessage::Say(rest))
            }
        } else if eq_lower(first, "l") || eq_lower(first, "look") {
            Some(PlayerMessage::Look)
        } else if eq_lower(first, "n") || eq_lower(first, "north") {
            Some(PlayerMessage::Move(Direction::North))
        } else if eq_lower(first, "s") || eq_lower(first, "south") {
            Some(PlayerMessage::Move(Direction::South))
        } else if eq_lower(first, "e") || eq_lower(first, "east") {
            Some(PlayerMessage::Move(Direction::East))
        } else if eq_lower(first, "w") || eq_lower(first, "west") {
            Some(PlayerMessage::Move(Direction::West))
        } else if eq_lower(first, "u") || eq_lower(first, "up") {
            Some(PlayerMessage::Move(Direction::Up))
        } else if eq_lower(first, "d") || eq_lower(first, "down") {
            Some(PlayerMessage::Move(Direction::Down))
        } else if eq_lower(first, "mobs") || eq_lower(first, "mobiles") {
            Some(PlayerMessage::Mobiles)
        } else {
            let verb = chars_to_string(&lower_chars(&toks[0]));
            let rest = join_tokens(&toks, 1);
            Some(PlayerMessage::Contextual(verb, rest))
        }
    }
}

} // verus!
