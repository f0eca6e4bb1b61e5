//! The action dispatcher: the handlers for chat, look, movement and the
//! mobile listing.  Each handler reads (and for movement, writes) the
//! registry and the world and returns the rendered messages, addressed by
//! session id; delivering them to the sessions' queues is the caller's job.
//! A sender that is no longer registered makes every handler a silent no-op.

use vstd::prelude::*;

use crate::message::{
    direction_label, Direction, GameMessage, GameMessageModel, OutboundMessage, OutboundModel,
};
use crate::mobiles::MobileInstance;
use crate::player::{id_in, id_index, players_wf, Player, Players};
use crate::room::{exit_dest, Room};
use crate::text::{dec_str, join_strings, join_with, string_views, u32_to_string};
use crate::world::World;

verus! {

/// Every player hears the line.
pub open spec fn broadcast_all(s: Seq<Player>, line: Seq<char>) -> Seq<OutboundModel>
    decreases s.len(),
{
    if s.len() == 0 {
        Seq::empty()
    } else {
        seq![
            OutboundModel {
                recipient: s.first().id,
                message: GameMessageModel::Plain(line),
            },
        ] + broadcast_all(s.drop_first(), line)
    }
}

/// Only the players standing in the room hear the line.
pub open spec fn broadcast_room(s: Seq<Player>, room: u32, line: Seq<char>) -> Seq<OutboundModel>
    decreases s.len(),
{
    if s.len() == 0 {
        Seq::empty()
    } else {
        let rest = broadcast_room(s.drop_first(), room, line);
        if s.first().current_room == room {
            seq![
                OutboundModel {
                    recipient: s.first().id,
                    message: GameMessageModel::Plain(line),
                },
            ] + rest
        } else {
            rest
        }
    }
}

/// How a global-chat line reads.
pub open spec fn gossip_line(username: Seq<char>, content: Seq<char>) -> Seq<char> {
    username + " gossips '"@ + content + "'"@
}

/// How a room-chat line reads.
pub open spec fn say_line(username: Seq<char>, content: Seq<char>) -> Seq<char> {
    username + " says '"@ + content + "'"@
}

/// What global chat sends: the formatted line to every registered player,
/// the sender included; nothing when the sender is gone.
pub open spec fn gossip_messages(s: Seq<Player>, sender: u32, content: Seq<char>) -> Seq<
    OutboundModel,
> {
    if id_in(s, sender) {
        broadcast_all(s, gossip_line(s[id_index(s, sender)].username@, content))
    } else {
        Seq::empty()
    }
}

/// What room chat sends: the formatted line to every player whose room
/// equals the sender's room now; nothing when the sender is gone.
pub open spec fn say_messages(s: Seq<Player>, sender: u32, content: Seq<char>) -> Seq<
    OutboundModel,
> {
    if id_in(s, sender) {
        let p = s[id_index(s, sender)];
        broadcast_room(s, p.current_room, say_line(p.username@, content))
    } else {
        Seq::empty()
    }
}

/// Global chat.
#[derive(Debug)]
pub struct GossipAction {
    pub sender: u32,
    pub content: String,
}

impl GossipAction {
    pub fn perform(&self, players: &Players, _world: &World) -> (r: Vec<OutboundMessage>)
        ensures
            r.deep_view() == gossip_messages(players@, self.sender, self.content@),
    {
        let ghost s = players@;
        let mut out: Vec<OutboundMessage> = Vec::new();
        let line = match players.get(self.sender) {
            None => {
                proof {
                    assert(out.deep_view() =~= gossip_messages(s, self.sender, self.content@));
                }
                return out;
            },
            Some(p) => {
                let mut line = p.username.clone();
                line.append(" gossips '");
                line.append(self.content.as_str());
                line.append("'");
                line
            },
        };
        proof {
            assert(line@ == gossip_line(s[id_index(s, self.sender)].username@, self.content@));
        }
        let ghost target = broadcast_all(s, line@);
        let mut i: usize = 0;
        proof {
            assert(s.skip(0) =~= s);
            assert(out.deep_view() + broadcast_all(s.skip(0), line@) =~= target);
        }
        while i < players.count()
            invariant
                i <= s.len(),
                players@ == s,
                out.deep_view() + broadcast_all(s.skip(i as int), line@) == target,
            decreases s.len() - i,
        {
            let ghost skip_i = s.skip(i as int);
            let ghost dv0 = out.deep_view();
            proof {
                assert(skip_i.first() == s[i as int]);
                assert(skip_i.drop_first() =~= s.skip(i as int + 1));
            }
            let q = players.player_at(i);
            out.push(
                OutboundMessage { recipient: q.id, message: GameMessage::Plain(line.clone()) },
            );
            proof {
                let m = OutboundModel {
                    recipient: s[i as int].id,
                    message: GameMessageModel::Plain(line@),
                };
                assert(out.deep_view() =~= dv0.push(m));
                assert(dv0.push(m) + broadcast_all(s.skip(i as int + 1), line@) =~= dv0 + (
                seq![m] + broadcast_all(s.skip(i as int + 1), line@)));
            }
            i = i + 1;
        }
        proof {
            assert(s.skip(s.len() as int) =~= Seq::<Player>::empty());
            assert(out.deep_view() + Seq::<OutboundModel>::empty() =~= out.deep_view());
        }
        out
    }
}

/// Room chat.
#[derive(Debug)]
pub struct SayAction {
    pub sender: u32,
    pub content: String,
}

impl SayAction {
    pub fn perform(&self, players: &Players, _world: &World) -> (r: Vec<OutboundMessage>)
        ensures
            r.deep_view() == say_messages(players@, self.sender, self.content@),
    {
        let ghost s = players@;
        let mut out: Vec<OutboundMessage> = Vec::new();
        let (line, room) = match players.get(self.sender) {
            None => {
                proof {
                    assert(out.deep_view() =~= say_messages(s, self.sender, self.content@));
                }
                return out;
            },
            Some(p) => {
                let mut line = p.username.clone();
                line.append(" says '");
                line.append(self.content.as_str());
                line.append("'");
                (line, p.current_room)
            },
        };
        proof {
            assert(line@ == say_line(s[id_index(s, self.sender)].username@, self.content@));
            assert(room == s[id_index(s, self.sender)].current_room);
        }
        let ghost target = broadcast_room(s, room, line@);
        let mut i: usize = 0;
        proof {
            assert(s.skip(0) =~= s);
            assert(out.deep_view() + broadcast_room(s.skip(0), room, line@) =~= target);
        }
        while i < players.count()
            invariant
                i <= s.len(),
                players@ == s,
                out.deep_view() + broadcast_room(s.skip(i as int), room, line@) == target,
            decreases s.len() - i,
        {
            let ghost skip_i = s.skip(i as int);
            let ghost dv0 = out.deep_view();
            proof {
                assert(skip_i.first() == s[i as int]);
                assert(skip_i.drop_first() =~= s.skip(i as int + 1));
            }
            let q = players.player_at(i);
            if q.current_room == room {
                out.push(
                    OutboundMessage { recipient: q.id, message: GameMessage::Plain(line.clone()) },
                );
                proof {
                    let m = OutboundModel {
                        recipient: s[i as int].id,
                        message: GameMessageModel::Plain(line@),
                    };
                    assert(out.deep_view() =~= dv0.push(m));
                    assert(dv0.push(m) + broadcast_room(s.skip(i as int + 1), room, line@) =~= dv0
                        + (seq![m] + broadcast_room(s.skip(i as int + 1), room, line@)));
                }
            }
            i = i + 1;
        }
        proof {
            assert(s.skip(s.len() as int) =~= Seq::<Player>::empty());
            assert(out.deep_view() + Seq::<OutboundModel>::empty() =~= out.deep_view());
        }
        out
    }
}

/// A full broadcast has one message per registered player, in registration
/// order, each carrying the line.
pub proof fn lemma_broadcast_all_recipients(s: Seq<Player>, line: Seq<char>)
    ensures
        broadcast_all(s, line).len() == s.len(),
        forall|k: int|
            0 <= k < s.len() ==> #[trigger] broadcast_all(s, line)[k] == (OutboundModel {
                recipient: s[k].id,
                message: GameMessageModel::Plain(line),
            }),
    decreases s.len(),
{
    if s.len() > 0 {
        lemma_broadcast_all_recipients(s.drop_first(), line);
        assert forall|k: int|
            0 <= k < s.len() implies #[trigger] broadcast_all(s, line)[k] == (OutboundModel {
            recipient: s[k].id,
            message: GameMessageModel::Plain(line),
        }) by {
            if k > 0 {
                assert(broadcast_all(s, line)[k] == broadcast_all(s.drop_first(), line)[k - 1]);
                assert(s.drop_first()[k - 1] == s[k]);
            }
        }
    }
}

/// Global chat reaches every currently registered player, the sender
/// included: one message per registry entry, addressed to that entry's
/// session id.
pub proof fn lemma_gossip_reaches_everyone(s: Seq<Player>, sender: u32, content: Seq<char>)
    requires
        id_in(s, sender),
    ensures
        gossip_messages(s, sender, content).len() == s.len(),
        forall|k: int|
            0 <= k < s.len() ==> #[trigger] gossip_messages(s, sender, content)[k].recipient
                == s[k].id,
{
    let line = gossip_line(s[id_index(s, sender)].username@, content);
    lemma_broadcast_all_recipients(s, line);
}

/// Some registered player in the room has this session id.
pub open spec fn room_has_member(s: Seq<Player>, room: u32, rcpt: u32) -> bool {
    exists|j: int| 0 <= j < s.len() && #[trigger] s[j].id == rcpt && s[j].current_room == room
}

/// Every message of a room broadcast goes to a player standing in the
/// room, and every player standing in the room gets one.
pub proof fn lemma_broadcast_room_recipients(s: Seq<Player>, room: u32, line: Seq<char>)
    ensures
        forall|k: int|
            0 <= k < broadcast_room(s, room, line).len() ==> room_has_member(
                s,
                room,
                #[trigger] broadcast_room(s, room, line)[k].recipient,
            ),
        forall|j: int|
            0 <= j < s.len() && s[j].current_room == room ==> #[trigger] broadcast_room(
                s,
                room,
                line,
            ).contains(
                OutboundModel { recipient: s[j].id, message: GameMessageModel::Plain(line) },
            ),
    decreases s.len(),
{
    if s.len() > 0 {
        let t = s.drop_first();
        let whole = broadcast_room(s, room, line);
        let rest = broadcast_room(t, room, line);
        lemma_broadcast_room_recipients(t, room, line);
        assert forall|k: int| 0 <= k < whole.len() implies room_has_member(
            s,
            room,
            #[trigger] whole[k].recipient,
        ) by {
            let take_first = s.first().current_room == room;
            let shifted = if take_first { k - 1 } else { k };
            if take_first && k == 0 {
                assert(s[0].id == whole[0].recipient && s[0].current_room == room);
            } else {
                assert(whole[k] == rest[shifted]);
                assert(room_has_member(t, room, rest[shifted].recipient));
                let j = choose|j: int|
                    0 <= j < t.len() && #[trigger] t[j].id == rest[shifted].recipient && t[
                        j
                    ].current_room == room;
                assert(s[j + 1].id == whole[k].recipient && s[j + 1].current_room == room);
            }
        }
        assert forall|j: int|
            0 <= j < s.len() && s[j].current_room == room implies #[trigger] whole.contains(
            OutboundModel { recipient: s[j].id, message: GameMessageModel::Plain(line) },
        ) by {
            let m = OutboundModel { recipient: s[j].id, message: GameMessageModel::Plain(line) };
            if j == 0 {
                assert(whole[0] == m);
            } else {
                assert(t[j - 1] == s[j]);
                assert(rest.contains(m));
                let k = choose|k: int| 0 <= k < rest.len() && rest[k] == m;
                if s.first().current_room == room {
                    assert(whole[k + 1] == m);
                } else {
                    assert(whole[k] == m);
                }
            }
        }
    }
}

/// Room chat does not reach a player standing elsewhere: with unique
/// session ids, no message of the broadcast carries that player's id.
pub proof fn lemma_broadcast_room_excludes(s: Seq<Player>, room: u32, line: Seq<char>, j: int)
    requires
        players_wf(s),
        0 <= j < s.len(),
        s[j].current_room != room,
    ensures
        forall|k: int|
            0 <= k < broadcast_room(s, room, line).len() ==> #[trigger] broadcast_room(
                s,
                room,
                line,
            )[k].recipient != s[j].id,
{
    lemma_broadcast_room_recipients(s, room, line);
    let whole = broadcast_room(s, room, line);
    assert forall|k: int| 0 <= k < whole.len() implies #[trigger] whole[k].recipient != s[j].id by {
        assert(room_has_member(s, room, whole[k].recipient));
        let j2 = choose|j2: int|
            0 <= j2 < s.len() && #[trigger] s[j2].id == whole[k].recipient && s[j2].current_room
                == room;
        assert(j2 != j);
        if j2 < j {
            assert(s[j2].id != s[j].id);
        } else {
            assert(s[j].id != s[j2].id);
        }
    }
}

/// No chat broadcast delivers to a session id that is no longer in the
/// registry: what `gossip_messages` and `say_messages` address is always a
/// registered id.
pub proof fn lemma_no_delivery_to_absent(s: Seq<Player>, gone: u32, sender: u32, content: Seq<char>)
    requires
        !id_in(s, gone),
    ensures
        forall|k: int|
            0 <= k < gossip_messages(s, sender, content).len() ==> #[trigger] gossip_messages(
                s,
                sender,
                content,
            )[k].recipient != gone,
        forall|k: int|
            0 <= k < say_messages(s, sender, content).len() ==> #[trigger] say_messages(
                s,
                sender,
                content,
            )[k].recipient != gone,
{
    if id_in(s, sender) {
        let p = s[id_index(s, sender)];
        lemma_broadcast_all_recipients(s, gossip_line(p.username@, content));
        lemma_broadcast_room_recipients(s, p.current_room, say_line(p.username@, content));
        let says = say_messages(s, sender, content);
        assert forall|k: int| 0 <= k < says.len() implies #[trigger] says[k].recipient != gone by {
            assert(room_has_member(s, p.current_room, says[k].recipient));
            let j = choose|j: int|
                0 <= j < s.len() && #[trigger] s[j].id == says[k].recipient && s[j].current_room
                    == p.current_room;
        }
        let gossips = gossip_messages(s, sender, content);
        assert forall|k: int| 0 <= k < gossips.len() implies #[trigger] gossips[k].recipient
            != gone by {
            assert(gossips[k].recipient == s[k].id);
        }
    }
}

/// The usernames of the players standing in the room, the onlooker left
/// out, in registration order.
pub open spec fn occupant_names(s: Seq<Player>, room: u32, except: u32) -> Seq<Seq<char>>
    decreases s.len(),
{
    if s.len() == 0 {
        Seq::empty()
    } else {
        let rest = occupant_names(s.drop_first(), room, except);
        if s.first().current_room == room && s.first().id != except {
            seq![s.first().username@] + rest
        } else {
            rest
        }
    }
}

/// The room descriptions of the mobiles standing in the room, in spawn
/// order.
pub open spec fn mobile_names(ms: Seq<MobileInstance>, room: u32) -> Seq<Seq<char>>
    decreases ms.len(),
{
    if ms.len() == 0 {
        Seq::empty()
    } else {
        let rest = mobile_names(ms.drop_first(), room);
        if ms.first().current_room == room {
            seq![ms.first().template.room_description@] + rest
        } else {
            rest
        }
    }
}

/// The labels of the exits, in insertion order.
pub open spec fn exit_labels(exits: Seq<(Seq<char>, u32)>) -> Seq<Seq<char>> {
    exits.map_values(|p: (Seq<char>, u32)| p.0)
}

/// The exits line of a look response.
pub open spec fn exits_line(exits: Seq<(Seq<char>, u32)>) -> Seq<char> {
    if exits.len() == 0 {
        "You don't see any exits."@
    } else {
        "You see exits to the "@ + join_with(exit_labels(exits), ", "@)
    }
}

/// The occupants line of a look response.
pub open spec fn occupants_line(others: Seq<Seq<char>>) -> Seq<char> {
    if others.len() == 0 {
        "You're the only one here."@
    } else {
        "You see "@ + join_with(others, ", "@) + " here."@
    }
}

/// The whole look response for a room and its other occupants.
pub open spec fn look_text(room: Room, others: Seq<Seq<char>>) -> Seq<char> {
    room.name@ + "\n"@ + room.description@ + "\n"@ + exits_line(room.exits_spec()) + "\n"@
        + occupants_line(others)
}

/// The line a looker hears when its room id resolves to no room: the
/// server degrades gracefully instead of answering nothing.
pub open spec fn no_room_line() -> Seq<char> {
    "No room information available."@
}

/// What a look sends: the composed room description to the sender alone;
/// the no-room line when the sender's room does not exist; nothing when
/// the sender is gone.
pub open spec fn look_messages(
    s: Seq<Player>,
    rooms: Map<u32, Room>,
    mobiles: Seq<MobileInstance>,
    sender: u32,
) -> Seq<OutboundModel> {
    if id_in(s, sender) {
        let p = s[id_index(s, sender)];
        if rooms.contains_key(p.current_room) {
            let room = rooms[p.current_room];
            let others = occupant_names(s, room.id, sender) + mobile_names(mobiles, room.id);
            seq![
                OutboundModel {
                    recipient: sender,
                    message: GameMessageModel::Plain(look_text(room, others)),
                },
            ]
        } else {
            seq![
                OutboundModel {
                    recipient: sender,
                    message: GameMessageModel::Plain(no_room_line()),
                },
            ]
        }
    } else {
        Seq::empty()
    }
}

/// Describe the sender's current room.
#[derive(Debug)]
pub struct LookAction {
    pub sender: u32,
}

impl LookAction {
    pub fn perform(&self, players: &Players, world: &World) -> (r: Vec<OutboundMessage>)
        ensures
            r.deep_view() == look_messages(
                players@,
                world.rooms_spec(),
                world.mobiles_spec(),
                self.sender,
            ),
    {
        let ghost s = players@;
        let ghost rooms = world.rooms_spec();
        let ghost ms = world.mobiles_spec();
        let mut out: Vec<OutboundMessage> = Vec::new();
        let current_room = match players.get(self.sender) {
            None => {
                proof {
                    assert(out.deep_view() =~= look_messages(s, rooms, ms, self.sender));
                }
                return out;
            },
            Some(p) => p.current_room,
        };
        let room = match world.get_room(current_room) {
            None => {
                out.push(
                    OutboundMessage {
                        recipient: self.sender,
                        message: GameMessage::Plain(
                            String::from_str("No room information available."),
                        ),
                    },
                );
                proof {
                    assert(out.deep_view() =~= look_messages(s, rooms, ms, self.sender));
                }
                return out;
            },
            Some(room) => room,
        };
        let room_id = room.id;
        let ghost occ_target = occupant_names(s, room_id, self.sender);
        let mut others: Vec<String> = Vec::new();
        let mut i: usize = 0;
        proof {
            assert(s.skip(0) =~= s);
            assert(string_views(others@) + occupant_names(s.skip(0), room_id, self.sender)
                =~= occ_target);
        }
        while i < players.count()
            invariant
                i <= s.len(),
                players@ == s,
                string_views(others@) + occupant_names(s.skip(i as int), room_id, self.sender)
                    == occ_target,
            decreases s.len() - i,
        {
            let ghost skip_i = s.skip(i as int);
            let ghost sv0 = string_views(others@);
            proof {
                assert(skip_i.first() == s[i as int]);
                assert(skip_i.drop_first() =~= s.skip(i as int + 1));
            }
            let q = players.player_at(i);
            if q.current_room == room_id && q.id != self.sender {
                others.push(q.username.clone());
                proof {
                    assert(string_views(others@) =~= sv0.push(s[i as int].username@));
                    assert(sv0.push(s[i as int].username@) + occupant_names(
                        s.skip(i as int + 1),
                        room_id,
                        self.sender,
                    ) =~= sv0 + (seq![s[i as int].username@] + occupant_names(
                        s.skip(i as int + 1),
                        room_id,
                        self.sender,
                    )));
                }
            }
            i = i + 1;
        }
        proof {
            assert(s.skip(s.len() as int) =~= Seq::<Player>::empty());
            assert(string_views(others@) + Seq::<Seq<char>>::empty() =~= string_views(others@));
            assert(string_views(others@) == occ_target);
        }
        let ghost mob_target = occ_target + mobile_names(ms, room_id);
        let mut k: usize = 0;
        proof {
            assert(ms.skip(0) =~= ms);
        }
        while k < world.mobile_count()
            invariant
                k <= ms.len(),
                world.mobiles_spec() == ms,
                string_views(others@) + mobile_names(ms.skip(k as int), room_id) == mob_target,
            decreases ms.len() - k,
        {
            let ghost skip_k = ms.skip(k as int);
            let ghost sv0 = string_views(others@);
            proof {
                assert(skip_k.first() == ms[k as int]);
                assert(skip_k.drop_first() =~= ms.skip(k as int + 1));
            }
            let m = world.mobile_at(k);
            if m.current_room == room_id {
                others.push(m.template.room_description.clone());
                proof {
                    assert(string_views(others@) =~= sv0.push(
                        ms[k as int].template.room_description@,
                    ));
                    assert(sv0.push(ms[k as int].template.room_description@) + mobile_names(
                        ms.skip(k as int + 1),
                        room_id,
                    ) =~= sv0 + (seq![ms[k as int].template.room_description@] + mobile_names(
                        ms.skip(k as int + 1),
                        room_id,
                    )));
                }
            }
            k = k + 1;
        }
        proof {
            assert(ms.skip(ms.len() as int) =~= Seq::<MobileInstance>::empty());
            assert(string_views(others@) + Seq::<Seq<char>>::empty() =~= string_views(others@));
            assert(string_views(others@) == mob_target);
        }
        let exits_text = if room.exit_count() == 0 {
            String::from_str("You don't see any exits.")
        } else {
            let names = room.exit_names();
            proof {
                assert(string_views(names@) =~= exit_labels(room.exits_spec()));
            }
            let mut e = String::from_str("You see exits to the ");
            let joined = join_strings(&names, ", ");
            e.append(joined.as_str());
            e
        };
        proof {
            assert(exits_text@ == exits_line(room.exits_spec()));
        }
        let occupants_text = if others.len() == 0 {
            String::from_str("You're the only one here.")
        } else {
            let mut o = String::from_str("You see ");
            let joined = join_strings(&others, ", ");
            o.append(joined.as_str());
            o.append(" here.");
            o
        };
        proof {
            assert(occupants_text@ == occupants_line(mob_target));
        }
        let mut text = room.name.clone();
        text.append("\n");
        text.append(room.description.as_str());
        text.append("\n");
        text.append(exits_text.as_str());
        text.append("\n");
        text.append(occupants_text.as_str());
        proof {
            assert(text@ == look_text(rooms[current_room], mob_target));
        }
        out.push(OutboundMessage { recipient: self.sender, message: GameMessage::Plain(text) });
        proof {
            assert(out.deep_view() =~= look_messages(s, rooms, ms, self.sender));
        }
        out
    }
}

/// The refusal a mover hears when there is no exit that way.
pub open spec fn move_failure_line(d: Direction) -> Seq<char> {
    "You don't see an exit "@ + direction_label(d) + " from here"@
}

/// Where a move from this registry and room table would take the sender:
/// the destination room id, if the sender stands in an existing room with
/// an exit in that direction.
pub open spec fn move_destination(
    s: Seq<Player>,
    rooms: Map<u32, Room>,
    sender: u32,
    d: Direction,
) -> Option<u32> {
    if id_in(s, sender) {
        let p = s[id_index(s, sender)];
        if rooms.contains_key(p.current_room) {
            exit_dest(rooms[p.current_room].exits_spec(), direction_label(d))
        } else {
            None
        }
    } else {
        None
    }
}

/// Movement through a fixed exit.
#[derive(Debug)]
pub struct MoveAction {
    pub sender: u32,
    pub direction: Direction,
}

impl MoveAction {
    /// Moves the sender when the exit is there (sending nothing: the caller
    /// follows up with a look); otherwise changes nothing and tells the
    /// sender there is no exit that way.  An unregistered sender is a
    /// silent no-op.
    pub fn perform(&self, players: &mut Players, world: &World) -> (r: Vec<OutboundMessage>)
        requires
            players_wf(old(players)@),
        ensures
            players_wf(final(players)@),
            final(players)@.len() == old(players)@.len(),
            ({
                let dest = move_destination(old(players)@, world.rooms_spec(), self.sender, self.direction);
                let i = id_index(old(players)@, self.sender);
                match dest {
                    Some(room_id) => {
                        &&& r.deep_view() == Seq::<OutboundModel>::empty()
                        &&& forall|j: int|
                            0 <= j < old(players)@.len() && j != i ==> final(players)@[j] == old(
                                players,
                            )@[j]
                        &&& final(players)@[i].id == old(players)@[i].id
                        &&& final(players)@[i].username == old(players)@[i].username
                        &&& final(players)@[i].current_room == room_id
                    },
                    None => {
                        &&& final(players)@ == old(players)@
                        &&& if id_in(old(players)@, self.sender) {
                            r.deep_view() == seq![
                                OutboundModel {
                                    recipient: self.sender,
                                    message: GameMessageModel::Plain(
                                        move_failure_line(self.direction),
                                    ),
                                },
                            ]
                        } else {
                            r.deep_view() == Seq::<OutboundModel>::empty()
                        }
                    },
                }
            }),
    {
        let ghost s = players@;
        let mut out: Vec<OutboundMessage> = Vec::new();
        let current_room = match players.get(self.sender) {
            None => {
                proof {
                    assert(out.deep_view() =~= Seq::<OutboundModel>::empty());
                }
                return out;
            },
            Some(p) => p.current_room,
        };
        let exit = match world.get_room(current_room) {
            None => None,
            Some(room) => room.get_exit(self.direction.label()),
        };
        match exit {
            Some(dest) => {
                players.set_room(self.sender, dest);
                proof {
                    assert(out.deep_view() =~= Seq::<OutboundModel>::empty());
                }
                out
            },
            None => {
                let mut line = String::from_str("You don't see an exit ");
                line.append(self.direction.label());
                line.append(" from here");
                proof {
                    assert(line@ == move_failure_line(self.direction));
                }
                out.push(
                    OutboundMessage { recipient: self.sender, message: GameMessage::Plain(line) },
                );
                proof {
                    assert(out.deep_view() =~= seq![
                        OutboundModel {
                            recipient: self.sender,
                            message: GameMessageModel::Plain(move_failure_line(self.direction)),
                        },
                    ]);
                }
                out
            },
        }
    }
}

/// The name a mobile's room shows in the listing, or a marker when the
/// room does not exist.
pub open spec fn room_name_or_unknown(rooms: Map<u32, Room>, id: u32) -> Seq<char> {
    if rooms.contains_key(id) {
        rooms[id].name@
    } else {
        "UNKNOWN"@
    }
}

/// One line of the mobile listing.
pub open spec fn mobile_line(m: MobileInstance, rooms: Map<u32, Room>) -> Seq<char> {
    dec_str(m.id as nat) + "\t"@ + m.template.room_description@ + "\t"@ + dec_str(
        m.current_room as nat,
    ) + "\t"@ + room_name_or_unknown(rooms, m.current_room)
}

/// The listing lines, one per spawned mobile, in spawn order.
pub open spec fn mobile_lines(ms: Seq<MobileInstance>, rooms: Map<u32, Room>) -> Seq<Seq<char>>
    decreases ms.len(),
{
    if ms.len() == 0 {
        Seq::empty()
    } else {
        seq![mobile_line(ms.first(), rooms)] + mobile_lines(ms.drop_first(), rooms)
    }
}

/// What the mobile listing sends: every spawned mobile with its room, to
/// the sender alone; nothing when the sender is gone.
pub open spec fn mobiles_messages(
    s: Seq<Player>,
    rooms: Map<u32, Room>,
    ms: Seq<MobileInstance>,
    sender: u32,
) -> Seq<OutboundModel> {
    if id_in(s, sender) {
        seq![
            OutboundModel {
                recipient: sender,
                message: GameMessageModel::Plain(join_with(mobile_lines(ms, rooms), "\n"@)),
            },
        ]
    } else {
        Seq::empty()
    }
}

/// List every spawned mobile and where it stands.
#[derive(Debug)]
pub struct MobileAction {
    pub sender: u32,
}

impl MobileAction {
    pub fn perform(&self, players: &Players, world: &World) -> (r: Vec<OutboundMessage>)
        ensures
            r.deep_view() == mobiles_messages(
                players@,
                world.rooms_spec(),
                world.mobiles_spec(),
                self.sender,
            ),
    {
        let ghost s = players@;
        let ghost rooms = world.rooms_spec();
        let ghost ms = world.mobiles_spec();
        let mut out: Vec<OutboundMessage> = Vec::new();
        if players.get(self.sender).is_none() {
            proof {
                assert(out.deep_view() =~= mobiles_messages(s, rooms, ms, self.sender));
            }
            return out;
        }
        let ghost target = mobile_lines(ms, rooms);
        let mut lines: Vec<String> = Vec::new();
        let mut k: usize = 0;
        proof {
            assert(ms.skip(0) =~= ms);
            assert(string_views(lines@) + mobile_lines(ms.skip(0), rooms) =~= target);
        }
        while k < world.mobile_count()
            invariant
                k <= ms.len(),
                world.mobiles_spec() == ms,
                world.rooms_spec() == rooms,
                string_views(lines@) + mobile_lines(ms.skip(k as int), rooms) == target,
            decreases ms.len() - k,
        {
            let ghost skip_k = ms.skip(k as int);
            let ghost sv0 = string_views(lines@);
            proof {
                assert(skip_k.first() == ms[k as int]);
                assert(skip_k.drop_first() =~= ms.skip(k as int + 1));
            }
            let m = world.mobile_at(k);
            let mut line = u32_to_string(m.id);
            line.append("\t");
            line.append(m.template.room_description.as_str());
            line.append("\t");
            let room_number = u32_to_string(m.current_room);
            line.append(room_number.as_str());
            line.append("\t");
            match world.get_room(m.current_room) {
                Some(room) => line.append(room.name.as_str()),
                None => line.append("UNKNOWN"),
            }
            proof {
                assert(line@ == mobile_line(ms[k as int], rooms));
            }
            lines.push(line);
            proof {
                assert(string_views(lines@) =~= sv0.push(mobile_line(ms[k as int], rooms)));
                assert(sv0.push(mobile_line(ms[k as int], rooms)) + mobile_lines(
                    ms.skip(k as int + 1),
                    rooms,
                ) =~= sv0 + (seq![mobile_line(ms[k as int], rooms)] + mobile_lines(
                    ms.skip(k as int + 1),
                    rooms,
                )));
            }
            k = k + 1;
        }
        proof {
            assert(ms.skip(ms.len() as int) =~= Seq::<MobileInstance>::empty());
            assert(string_views(lines@) + Seq::<Seq<char>>::empty() =~= string_views(lines@));
            assert(string_views(lines@) == target);
        }
        let text = join_strings(&lines, "\n");
        out.push(OutboundMessage { recipient: self.sender, message: GameMessage::Plain(text) });
        proof {
            assert(out.deep_view() =~= mobiles_messages(s, rooms, ms, self.sender));
        }
        out
    }
}

} // verus!
