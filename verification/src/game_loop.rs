//! The game loop's decision step: one inbound message in, the registry
//! mutation and the addressed replies out.
//!
//! The surrounding loop -- receiving from the shared queue, interleaving the
//! periodic tick, delivering the replies to each session's queue -- is plain
//! I/O and lives outside the crate.  Everything the loop decides happens in
//! `process_message`, one message at a time, which is what makes the shared
//! registry safe without a lock around multi-step actions.

use vstd::prelude::*;

use crate::actions::{
    gossip_messages, look_messages, mobiles_messages, move_destination, move_failure_line,
    say_messages, GossipAction, LookAction, MobileAction, MoveAction, SayAction,
};
use crate::message::{
    interpret_spec, ConnectionMessage, GameMessage, GameMessageModel, OutboundMessage,
    OutboundModel, PlayerMessage, PlayerMessageModel, RawCommand,
};
use crate::mobiles::MobileInstance;
use crate::player::{id_in, id_index, players_wf, username_in, Player, Players};
use crate::room::Room;
use crate::world::World;

verus! {

/// The reply to a line that parses to nothing or to an unknown verb.
pub open spec fn not_understood_line() -> Seq<char> {
    "That is not understood."@
}

/// The not-understood reply goes to the sender alone, and only while the
/// sender is still registered.
pub open spec fn not_understood_messages(s: Seq<Player>, sender: u32) -> Seq<OutboundModel> {
    if id_in(s, sender) {
        seq![
            OutboundModel {
                recipient: sender,
                message: GameMessageModel::Plain(not_understood_line()),
            },
        ]
    } else {
        Seq::empty()
    }
}

/// Sends the not-understood line to the sender, if still registered.
fn not_understood(players: &Players, sender: u32) -> (r: Vec<OutboundMessage>)
    ensures
        r.deep_view() == not_understood_messages(players@, sender),
{
    let mut out: Vec<OutboundMessage> = Vec::new();
    if players.contains_id(sender) {
        out.push(
            OutboundMessage {
                recipient: sender,
                message: GameMessage::Plain(String::from_str("That is not understood.")),
            },
        );
        proof {
            assert(out.deep_view() =~= not_understood_messages(players@, sender));
        }
    } else {
        proof {
            assert(out.deep_view() =~= not_understood_messages(players@, sender));
        }
    }
    out
}

/// Everything one processed message must have done: the registry after,
/// and every reply with its recipient, case by case over the message.
pub open spec fn process_outcome(
    s: Seq<Player>,
    s2: Seq<Player>,
    rooms: Map<u32, Room>,
    ms: Seq<MobileInstance>,
    msg: ConnectionMessage,
    out: Seq<OutboundModel>,
) -> bool {
    match msg {
        ConnectionMessage::AddPlayer(p) => {
            &&& out == Seq::<OutboundModel>::empty()
            &&& if !id_in(s, p.id) && !username_in(s, p.username@) && p.id >= 1 {
                s2 == s.push(p)
            } else {
                s2 == s
            }
        },
        ConnectionMessage::RemovePlayer(session_id) => {
            &&& out == Seq::<OutboundModel>::empty()
            &&& !id_in(s2, session_id)
            &&& if id_in(s, session_id) {
                s2 == s.remove(id_index(s, session_id))
            } else {
                s2 == s
            }
        },
        ConnectionMessage::PlayerCommand(sender, line) => {
            match interpret_spec(line@) {
                Some(PlayerMessageModel::Gossip(content)) => {
                    &&& s2 == s
                    &&& out == gossip_messages(s, sender, content)
                },
                Some(PlayerMessageModel::Say(content)) => {
                    &&& s2 == s
                    &&& out == say_messages(s, sender, content)
                },
                Some(PlayerMessageModel::Look) => {
                    &&& s2 == s
                    &&& out == look_messages(s, rooms, ms, sender)
                },
                Some(PlayerMessageModel::Move(d)) => {
                    match move_destination(s, rooms, sender, d) {
                        Some(room_id) => {
                            let i = id_index(s, sender);
                            &&& s2.len() == s.len()
                            &&& forall|j: int| 0 <= j < s.len() && j != i ==> s2[j] == s[j]
                            &&& s2[i].id == s[i].id
                            &&& s2[i].username == s[i].username
                            &&& s2[i].current_room == room_id
                            &&& out == look_messages(s2, rooms, ms, sender)
                        },
                        None => {
                            &&& s2 == s
                            &&& if id_in(s, sender) {
                                out == seq![
                                    OutboundModel {
                                        recipient: sender,
                                        message: GameMessageModel::Plain(move_failure_line(d)),
                                    },
                                ]
                            } else {
                                out == Seq::<OutboundModel>::empty()
                            }
                        },
                    }
                },
                Some(PlayerMessageModel::Mobiles) => {
                    &&& s2 == s
                    &&& out == mobiles_messages(s, rooms, ms, sender)
                },
                Some(PlayerMessageModel::Contextual(_, _)) => {
                    &&& s2 == s
                    &&& out == not_understood_messages(s, sender)
                },
                None => {
                    &&& s2 == s
                    &&& out == not_understood_messages(s, sender)
                },
            }
        },
    }
}

/// Looking is idempotent: a look never changes the registry, so a second
/// look processed right after the first, with no other change between, is
/// answered with the identical rendered output.
pub proof fn lemma_look_idempotent(
    s: Seq<Player>,
    s2: Seq<Player>,
    s3: Seq<Player>,
    rooms: Map<u32, Room>,
    ms: Seq<MobileInstance>,
    msg: ConnectionMessage,
    out1: Seq<OutboundModel>,
    out2: Seq<OutboundModel>,
)
    requires
        (match msg {
            ConnectionMessage::PlayerCommand(_, line) => interpret_spec(line@) == Some(
                PlayerMessageModel::Look,
            ),
            _ => false,
        }),
        process_outcome(s, s2, rooms, ms, msg, out1),
        process_outcome(s2, s3, rooms, ms, msg, out2),
    ensures
        s2 == s,
        s3 == s,
        out2 == out1,
{
}

/// Handles one message from the inbound queue: registry control, or one
/// command line interpreted and dispatched.  Every outcome -- the registry
/// after the call and each reply with its recipient -- is pinned by
/// `process_outcome`, case by case over the interpreted command.
pub fn process_message(players: &mut Players, world: &World, msg: ConnectionMessage) -> (r: Vec<
    OutboundMessage,
>)
    requires
        players_wf(old(players)@),
    ensures
        players_wf(final(players)@),
        process_outcome(
            old(players)@,
            final(players)@,
            world.rooms_spec(),
            world.mobiles_spec(),
            msg,
            r.deep_view(),
        ),
{
    let ghost s0 = players@;
    let ghost msg_g = msg;
    let ghost rooms = world.rooms_spec();
    let ghost ms = world.mobiles_spec();
    match msg {
        ConnectionMessage::AddPlayer(p) => {
            let out: Vec<OutboundMessage> = Vec::new();
            proof {
                assert(out.deep_view() =~= Seq::<OutboundModel>::empty());
            }
            players.add_player(p);
            proof {
                assert(process_outcome(s0, players@, rooms, ms, msg_g, out.deep_view()));
            }
            out
        },
        ConnectionMessage::RemovePlayer(session_id) => {
            let out: Vec<OutboundMessage> = Vec::new();
            proof {
                assert(out.deep_view() =~= Seq::<OutboundModel>::empty());
            }
            let _ = players.remove(session_id);
            proof {
                assert(process_outcome(s0, players@, rooms, ms, msg_g, out.deep_view()));
            }
            out
        },
        ConnectionMessage::PlayerCommand(sender, line) => {
            let command = RawCommand::new(sender, line);
            match command.interpret() {
                Some(PlayerMessage::Gossip(content)) => {
                    let action = GossipAction { sender, content };
                    let out = action.perform(players, world);
                    proof {
                        assert(process_outcome(s0, players@, rooms, ms, msg_g, out.deep_view()));
                    }
                    out
                },
                Some(PlayerMessage::Say(content)) => {
                    let action = SayAction { sender, content };
                    let out = action.perform(players, world);
                    proof {
                        assert(process_outcome(s0, players@, rooms, ms, msg_g, out.deep_view()));
                    }
                    out
                },
                Some(PlayerMessage::Look) => {
                    let action = LookAction { sender };
                    let out = action.perform(players, world);
                    proof {
                        assert(process_outcome(s0, players@, rooms, ms, msg_g, out.deep_view()));
                    }
                    out
                },
                Some(PlayerMessage::Move(direction)) => {
                    let move_action = MoveAction { sender, direction };
                    let moved = move_action.perform(players, world);
                    proof {
                        assert(interpret_spec(command.line()) == Some(
                            PlayerMessageModel::Move(direction),
                        ));
                    }
                    if moved.len() == 0 {
                        let look_action = LookAction { sender };
                        let out = look_action.perform(players, world);
                        proof {
                            assert(out.deep_view() == look_messages(players@, rooms, ms, sender));
                            if move_destination(s0, rooms, sender, direction) is Some {
                            } else {
                                assert(players@ == s0);
                                if id_in(s0, sender) {
                                    assert(moved.deep_view().len() == 1);
                                    assert(moved@.len() == 0);
                                    assert(moved.deep_view().len() == 0);
                                }
                                assert(!id_in(s0, sender));
                                assert(out.deep_view() =~= Seq::<OutboundModel>::empty());
                            }
                            assert(process_outcome(
                                s0,
                                players@,
                                rooms,
                                ms,
                                msg_g,
                                out.deep_view(),
                            ));
                        }
                        out
                    } else {
                        proof {
                            assert(moved@.len() != 0);
                            if move_destination(s0, rooms, sender, direction) is Some {
                                assert(moved.deep_view().len() == 0);
                                assert(moved@.len() == 0);
                            }
                            assert(move_destination(s0, rooms, sender, direction) is None);
                            assert(players@ == s0);
                            assert(moved.deep_view().len() == moved@.len());
                            if !id_in(s0, sender) {
                                assert(moved.deep_view() == Seq::<OutboundModel>::empty());
                                assert(moved.deep_view().len() == 0);
                            }
                            assert(id_in(s0, sender));
                            assert(moved.deep_view() == seq![
                                OutboundModel {
                                    recipient: sender,
                                    message: GameMessageModel::Plain(
                                        move_failure_line(direction),
                                    ),
                                },
                            ]);
                            assert(process_outcome(
                                s0,
                                players@,
                                rooms,
                                ms,
                                msg_g,
                                moved.deep_view(),
                            ));
                        }
                        moved
                    }
                },
                Some(PlayerMessage::Mobiles) => {
                    let action = MobileAction { sender };
                    let out = action.perform(players, world);
                    proof {
                        assert(process_outcome(s0, players@, rooms, ms, msg_g, out.deep_view()));
                    }
                    out
                },
                Some(PlayerMessage::Contextual(_verb, _rest)) => {
                    let out = not_understood(players, sender);
                    proof {
                        assert(process_outcome(s0, players@, rooms, ms, msg_g, out.deep_view()));
                    }
                    out
                },
                None => {
                    let out = not_understood(players, sender);
                    proof {
                        assert(process_outcome(s0, players@, rooms, ms, msg_g, out.deep_view()));
                    }
                    out
                },
            }
        },
    }
}

} // verus!
