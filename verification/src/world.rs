//! The world: the room graph, the mobile templates, the spawned mobile
//! instances, and the spawn rules.  Rooms, templates and rules are immutable
//! after load; only spawn-rule application creates instances.

use vstd::prelude::*;

use std::collections::HashMap;

use crate::area::Area;
use crate::mobiles::{Mobile, MobileInstance, ResetCommand};
use crate::player::Player;
use crate::room::Room;

verus! {

broadcast use vstd::std_specs::hash::group_hash_axioms;

/// Some instance carries this id.
pub open spec fn mob_id_in(s: Seq<MobileInstance>, id: u32) -> bool {
    exists|i: int| 0 <= i < s.len() && #[trigger] s[i].id == id
}

/// Instance ids are unique and at least 1.
pub open spec fn mobiles_wf(s: Seq<MobileInstance>) -> bool {
    &&& forall|i: int, j: int|
        #![trigger s[i].id, s[j].id]
        0 <= i < j < s.len() ==> s[i].id != s[j].id
    &&& forall|i: int| 0 <= i < s.len() ==> #[trigger] s[i].id >= 1
}

/// The lowest instance id not in use: scanning from 1 upward stops here.
pub open spec fn is_lowest_free_mob_id(s: Seq<MobileInstance>, id: u32) -> bool {
    &&& id >= 1
    &&& !mob_id_in(s, id)
    &&& forall|k: u32| 1 <= k < id ==> mob_id_in(s, k)
}

/// If the ids 1..m are all taken by instances with pairwise distinct ids,
/// there are at least m-1 instances: the id scan cannot run away.
proof fn lemma_distinct_mob_ids_bound(s: Seq<MobileInstance>, m: u32)
    requires
        forall|i: int, j: int|
            #![trigger s[i].id, s[j].id]
            0 <= i < j < s.len() ==> s[i].id != s[j].id,
        forall|k: u32| 1 <= k < m ==> mob_id_in(s, k),
    ensures
        m - 1 <= s.len(),
    decreases m,
{
    if m > 1 {
        assert(mob_id_in(s, (m - 1) as u32));
        let i = choose|i: int| 0 <= i < s.len() && #[trigger] s[i].id == (m - 1) as u32;
        let t = s.remove(i);
        assert forall|i2: int, j2: int|
            #![trigger t[i2].id, t[j2].id]
            0 <= i2 < j2 < t.len() implies t[i2].id != t[j2].id by {
            let a = if i2 < i {
                i2
            } else {
                i2 + 1
            };
            let b = if j2 < i {
                j2
            } else {
                j2 + 1
            };
            assert(t[i2] == s[a]);
            assert(t[j2] == s[b]);
            assert(s[a].id != s[b].id);
        }
        assert forall|k: u32| 1 <= k < (m - 1) as u32 implies mob_id_in(t, k) by {
            assert(mob_id_in(s, k));
            let j = choose|j: int| 0 <= j < s.len() && #[trigger] s[j].id == k;
            assert(s[j].id != s[i].id);
            if j < i {
                assert(t[j] == s[j]);
                assert(t[j].id == k);
            } else {
                assert(t[j - 1] == s[j]);
                assert(t[j - 1].id == k);
            }
        }
        lemma_distinct_mob_ids_bound(t, (m - 1) as u32);
    }
}

/// Inserting each room of the list into the table, keyed by its id.
pub open spec fn insert_rooms(m: Map<u32, Room>, rs: Seq<Room>) -> Map<u32, Room>
    decreases rs.len(),
{
    if rs.len() == 0 {
        m
    } else {
        insert_rooms(m.insert(rs.first().id, rs.first()), rs.drop_first())
    }
}

/// Inserting each template of the list into the table, keyed by its id.
pub open spec fn insert_templates(m: Map<u32, Mobile>, ts: Seq<Mobile>) -> Map<u32, Mobile>
    decreases ts.len(),
{
    if ts.len() == 0 {
        m
    } else {
        insert_templates(m.insert(ts.first().id, ts.first()), ts.drop_first())
    }
}

/// The spawn rules one application of the rule set actually performs: the
/// ones whose template exists, in load order.  A rule naming a missing
/// template is skipped, deterministically.
pub open spec fn applicable_rules(rules: Seq<ResetCommand>, templates: Map<u32, Mobile>) -> Seq<
    ResetCommand,
>
    decreases rules.len(),
{
    if rules.len() == 0 {
        Seq::empty()
    } else {
        let rest = applicable_rules(rules.drop_first(), templates);
        if templates.contains_key(rules.first().mobile_id) {
            seq![rules.first()] + rest
        } else {
            rest
        }
    }
}

/// Extending the rule list by one rule extends the applicable ones by that
/// rule exactly when its template exists.
proof fn lemma_applicable_rules_push(
    rules: Seq<ResetCommand>,
    templates: Map<u32, Mobile>,
    r: ResetCommand,
)
    ensures
        applicable_rules(rules.push(r), templates) == applicable_rules(rules, templates) + (
        if templates.contains_key(r.mobile_id) {
            seq![r]
        } else {
            Seq::<ResetCommand>::empty()
        }),
    decreases rules.len(),
{
    let tail = if templates.contains_key(r.mobile_id) {
        seq![r]
    } else {
        Seq::<ResetCommand>::empty()
    };
    if rules.len() == 0 {
        assert(rules.push(r).first() == r);
        assert(rules.push(r).drop_first() =~= Seq::<ResetCommand>::empty());
        assert(applicable_rules(rules.push(r).drop_first(), templates) =~= Seq::<
            ResetCommand,
        >::empty());
        assert(applicable_rules(rules.push(r), templates) =~= applicable_rules(rules, templates)
            + tail);
    } else {
        assert(rules.push(r).first() == rules.first());
        assert(rules.push(r).drop_first() =~= rules.drop_first().push(r));
        lemma_applicable_rules_push(rules.drop_first(), templates, r);
        if templates.contains_key(rules.first().mobile_id) {
            assert(seq![rules.first()] + (applicable_rules(rules.drop_first(), templates) + tail)
                =~= (seq![rules.first()] + applicable_rules(rules.drop_first(), templates))
                + tail);
        }
    }
}

/// Loading rooms with pairwise distinct ids keys each under its own id,
/// keeps every unshadowed earlier key, and brings in no other key.
pub proof fn lemma_insert_rooms_distinct(m: Map<u32, Room>, rs: Seq<Room>)
    requires
        forall|i: int, j: int|
            #![trigger rs[i].id, rs[j].id]
            0 <= i < j < rs.len() ==> rs[i].id != rs[j].id,
    ensures
        forall|k: u32|
            #[trigger] m.contains_key(k) && !(exists|i: int|
                0 <= i < rs.len() && #[trigger] rs[i].id == k) ==> insert_rooms(
                m,
                rs,
            ).contains_key(k) && insert_rooms(m, rs)[k] == m[k],
        forall|i: int|
            0 <= i < rs.len() ==> insert_rooms(m, rs).contains_key(#[trigger] rs[i].id)
                && insert_rooms(m, rs)[rs[i].id] == rs[i],
        forall|k: u32|
            #[trigger] insert_rooms(m, rs).contains_key(k) ==> m.contains_key(k) || (exists|i: int|
                0 <= i < rs.len() && #[trigger] rs[i].id == k),
    decreases rs.len(),
{
    if rs.len() > 0 {
        let f = rs.first();
        let m2 = m.insert(f.id, f);
        let t = rs.drop_first();
        let result = insert_rooms(m, rs);
        assert(forall|i: int| 0 <= i < t.len() ==> t[i] == rs[i + 1]);
        lemma_insert_rooms_distinct(m2, t);
        assert(result == insert_rooms(m2, t));
        assert forall|k: u32|
            #[trigger] m.contains_key(k) && !(exists|i: int|
                0 <= i < rs.len() && #[trigger] rs[i].id == k) implies result.contains_key(k)
            && result[k] == m[k] by {
            assert(rs[0].id == f.id);
            assert(k != f.id);
            assert(m2.contains_key(k) && m2[k] == m[k]);
            if exists|i2: int| 0 <= i2 < t.len() && #[trigger] t[i2].id == k {
                let i2 = choose|i2: int| 0 <= i2 < t.len() && #[trigger] t[i2].id == k;
                assert(rs[i2 + 1].id == k);
            }
        }
        assert forall|i: int| 0 <= i < rs.len() implies result.contains_key(#[trigger] rs[i].id)
            && result[rs[i].id] == rs[i] by {
            if i == 0 {
                assert(m2.contains_key(f.id) && m2[f.id] == f);
                if exists|i2: int| 0 <= i2 < t.len() && #[trigger] t[i2].id == f.id {
                    let i2 = choose|i2: int| 0 <= i2 < t.len() && #[trigger] t[i2].id == f.id;
                    assert(rs[i2 + 1].id != rs[0].id);
                }
                assert(result.contains_key(f.id) && result[f.id] == m2[f.id]);
            } else {
                assert(t[i - 1] == rs[i]);
            }
        }
        assert forall|k: u32| #[trigger] result.contains_key(k) implies m.contains_key(k) || (
        exists|i: int| 0 <= i < rs.len() && #[trigger] rs[i].id == k) by {
            if exists|i2: int| 0 <= i2 < t.len() && #[trigger] t[i2].id == k {
                let i2 = choose|i2: int| 0 <= i2 < t.len() && #[trigger] t[i2].id == k;
                assert(rs[i2 + 1].id == k);
            } else if k == f.id {
                assert(rs[0].id == k);
            }
        }
    }
}

/// The world state.  Use `add_area`/`add_room`/`add_mobile_template`/
/// `add_reset` to load it, then `reset` once to place the mobiles.
pub struct World {
    rooms: HashMap<u32, Room>,
    mobile_templates: HashMap<u32, Mobile>,
    mobiles: Vec<MobileInstance>,
    resets: Vec<ResetCommand>,
}

impl World {
    /// The room table.
    pub closed spec fn rooms_spec(&self) -> Map<u32, Room> {
        self.rooms@
    }

    /// The mobile-template table.
    pub closed spec fn templates_spec(&self) -> Map<u32, Mobile> {
        self.mobile_templates@
    }

    /// The spawned instances, oldest first.
    pub closed spec fn mobiles_spec(&self) -> Seq<MobileInstance> {
        self.mobiles@
    }

    /// The spawn rules, in load order.
    pub closed spec fn resets_spec(&self) -> Seq<ResetCommand> {
        self.resets@
    }

    pub fn new() -> (w: World)
        ensures
            w.rooms_spec() == Map::<u32, Room>::empty(),
            w.templates_spec() == Map::<u32, Mobile>::empty(),
            w.mobiles_spec() == Seq::<MobileInstance>::empty(),
            w.resets_spec() == Seq::<ResetCommand>::empty(),
    {
        let w = World {
            rooms: HashMap::new(),
            mobile_templates: HashMap::new(),
            mobiles: Vec::new(),
            resets: Vec::new(),
        };
        proof {
            assert(w.mobiles_spec() =~= Seq::<MobileInstance>::empty());
            assert(w.resets_spec() =~= Seq::<ResetCommand>::empty());
        }
        w
    }

    pub fn add_room(&mut self, room: Room)
        ensures
            final(self).rooms_spec() == old(self).rooms_spec().insert(room.id, room),
            final(self).templates_spec() == old(self).templates_spec(),
            final(self).mobiles_spec() == old(self).mobiles_spec(),
            final(self).resets_spec() == old(self).resets_spec(),
    {
        let key = room.id;
        self.rooms.insert(key, room);
    }

    pub fn add_mobile_template(&mut self, mobile: Mobile)
        ensures
            final(self).templates_spec() == old(self).templates_spec().insert(mobile.id, mobile),
            final(self).rooms_spec() == old(self).rooms_spec(),
            final(self).mobiles_spec() == old(self).mobiles_spec(),
            final(self).resets_spec() == old(self).resets_spec(),
    {
        let key = mobile.id;
        self.mobile_templates.insert(key, mobile);
    }

    pub fn add_reset(&mut self, reset: ResetCommand)
        ensures
            final(self).resets_spec() == old(self).resets_spec().push(reset),
            final(self).rooms_spec() == old(self).rooms_spec(),
            final(self).templates_spec() == old(self).templates_spec(),
            final(self).mobiles_spec() == old(self).mobiles_spec(),
    {
        self.resets.push(reset);
    }

    /// Loads a whole area: every room and template keyed by its id (a later
    /// duplicate id wins), every spawn rule appended.
    pub fn add_area(&mut self, area: Area)
        ensures
            final(self).rooms_spec() == insert_rooms(old(self).rooms_spec(), area.rooms@),
            final(self).templates_spec() == insert_templates(
                old(self).templates_spec(),
                area.mobiles@,
            ),
            final(self).resets_spec() == old(self).resets_spec() + area.resets@,
            final(self).mobiles_spec() == old(self).mobiles_spec(),
    {
        let Area { mut rooms, mut mobiles, mut resets } = area;
        let ghost rooms0 = rooms@;
        let ghost map0 = self.rooms@;
        while rooms.len() > 0
            invariant
                insert_rooms(map0, rooms0) == insert_rooms(self.rooms@, rooms@),
                self.mobile_templates@ == old(self).mobile_templates@,
                self.mobiles@ == old(self).mobiles@,
                self.resets@ == old(self).resets@,
            decreases rooms@.len(),
        {
            let ghost rs = rooms@;
            let r = rooms.remove(0);
            proof {
                assert(rooms@ =~= rs.drop_first());
                assert(r == rs.first());
            }
            let key = r.id;
            self.rooms.insert(key, r);
        }
        let ghost mobiles0 = mobiles@;
        let ghost tmap0 = self.mobile_templates@;
        while mobiles.len() > 0
            invariant
                insert_rooms(map0, rooms0) == insert_rooms(self.rooms@, rooms@),
                rooms@.len() == 0,
                insert_templates(tmap0, mobiles0) == insert_templates(
                    self.mobile_templates@,
                    mobiles@,
                ),
                self.mobiles@ == old(self).mobiles@,
                self.resets@ == old(self).resets@,
            decreases mobiles@.len(),
        {
            let ghost ms = mobiles@;
            let m = mobiles.remove(0);
            proof {
                assert(mobiles@ =~= ms.drop_first());
                assert(m == ms.first());
            }
            let key = m.id;
            self.mobile_templates.insert(key, m);
        }
        let ghost resets0 = resets@;
        let ghost rlist0 = self.resets@;
        while resets.len() > 0
            invariant
                insert_rooms(map0, rooms0) == insert_rooms(self.rooms@, rooms@),
                rooms@.len() == 0,
                insert_templates(tmap0, mobiles0) == insert_templates(
                    self.mobile_templates@,
                    mobiles@,
                ),
                mobiles@.len() == 0,
                self.mobiles@ == old(self).mobiles@,
                rlist0 + resets0 == self.resets@ + resets@,
            decreases resets@.len(),
        {
            let ghost qs = resets@;
            let ghost done = self.resets@;
            let rc = resets.remove(0);
            proof {
                assert(resets@ =~= qs.drop_first());
                assert(rc == qs.first());
            }
            self.resets.push(rc);
            proof {
                assert(done + qs =~= self.resets@ + resets@);
            }
        }
        proof {
            assert(rooms@ =~= Seq::<Room>::empty());
            assert(mobiles@ =~= Seq::<Mobile>::empty());
            assert(self.resets@ + resets@ =~= self.resets@);
            assert(rlist0 + resets0 == self.resets@);
        }
    }

    /// A borrowed look at a room by id.
    pub fn get_room(&self, room_id: u32) -> (r: Option<&Room>)
        ensures
            match r {
                Some(room) => self.rooms_spec().contains_key(room_id) && *room
                    == self.rooms_spec()[room_id],
                None => !self.rooms_spec().contains_key(room_id),
            },
    {
        self.rooms.get(&room_id)
    }

    /// The room a player stands in, if it exists.
    pub fn get_player_room(&self, player: &Player) -> (r: Option<&Room>)
        ensures
            match r {
                Some(room) => self.rooms_spec().contains_key(player.current_room) && *room
                    == self.rooms_spec()[player.current_room],
                None => !self.rooms_spec().contains_key(player.current_room),
            },
    {
        self.get_room(player.current_room)
    }

    /// The exits of the player's room, if the room exists.
    pub fn get_player_exits(&self, player: &Player) -> (r: Option<&Vec<(String, u32)>>)
        ensures
            match r {
                Some(exits) => self.rooms_spec().contains_key(player.current_room) && exits@
                    == self.rooms_spec()[player.current_room].exits@,
                None => !self.rooms_spec().contains_key(player.current_room),
            },
    {
        match self.get_player_room(player) {
            Some(room) => Some(&room.exits),
            None => None,
        }
    }

    /// How many instances are spawned.
    pub fn mobile_count(&self) -> (r: usize)
        ensures
            r == self.mobiles_spec().len(),
    {
        self.mobiles.len()
    }

    /// The instance at a position, for iteration in spawn order.
    pub fn mobile_at(&self, i: usize) -> (m: &MobileInstance)
        requires
            i < self.mobiles_spec().len(),
        ensures
            *m == self.mobiles_spec()[i as int],
    {
        &self.mobiles[i]
    }

    /// Decides whether an instance id is in use.
    fn contains_mob_id(&self, id: u32) -> (r: bool)
        ensures
            r == mob_id_in(self.mobiles_spec(), id),
    {
        let ghost s = self.mobiles_spec();
        let mut i: usize = 0;
        while i < self.mobiles.len()
            invariant
                i <= s.len(),
                self.mobiles_spec() == s,
                s.len() == self.mobiles@.len(),
                forall|j: int| 0 <= j < i ==> s[j].id != id,
            decreases s.len() - i,
        {
            if self.mobiles[i].id == id {
                assert(s[i as int].id == id);
                return true;
            }
            i = i + 1;
        }
        false
    }

    /// Applies the spawn rules once, in load order.  Each rule whose
    /// template exists clones it into a new instance standing in the rule's
    /// room, under the lowest instance id not in use at that moment; a rule
    /// naming a missing template is skipped, deterministically, leaving the
    /// instance table otherwise untouched.
    #[verifier::loop_isolation(false)]
    pub fn reset(&mut self)
        requires
            mobiles_wf(old(self).mobiles_spec()),
            old(self).mobiles_spec().len() + old(self).resets_spec().len() < 0xFFFF_FFFEusize,
        ensures
            mobiles_wf(final(self).mobiles_spec()),
            final(self).rooms_spec() == old(self).rooms_spec(),
            final(self).templates_spec() == old(self).templates_spec(),
            final(self).resets_spec() == old(self).resets_spec(),
            ({
                let applied = applicable_rules(
                    old(self).resets_spec(),
                    old(self).templates_spec(),
                );
                &&& final(self).mobiles_spec().len() == old(self).mobiles_spec().len()
                    + applied.len()
                &&& forall|j: int|
                    0 <= j < old(self).mobiles_spec().len() ==> final(self).mobiles_spec()[j]
                        == old(self).mobiles_spec()[j]
                &&& forall|k: int|
                    #![trigger final(self).mobiles_spec()[old(self).mobiles_spec().len() + k]]
                    0 <= k < applied.len() ==> {
                        let inst = final(self).mobiles_spec()[old(self).mobiles_spec().len() + k];
                        let rule = applied[k];
                        let tpl = old(self).templates_spec()[rule.mobile_id];
                        &&& inst.current_room == rule.room_id
                        &&& inst.template.id == tpl.id
                        &&& inst.template.room_description@ == tpl.room_description@
                        &&& inst.template.keywords@ == tpl.keywords@
                        &&& is_lowest_free_mob_id(
                            final(self).mobiles_spec().take(old(self).mobiles_spec().len() + k),
                            inst.id,
                        )
                    }
            }),
    {
        let ghost mobiles0 = self.mobiles@;
        let ghost rules = self.resets@;
        let ghost templates0 = self.mobile_templates@;
        let n = self.resets.len();
        let mut k: usize = 0;
        proof {
            assert(rules.take(0) =~= Seq::<ResetCommand>::empty());
        }
        while k < n
            invariant
                k <= n,
                self.rooms@ == old(self).rooms@,
                self.mobile_templates@ == old(self).mobile_templates@,
                self.resets@ == rules,
                mobiles_wf(self.mobiles@),
                ({
                    let applied = applicable_rules(rules.take(k as int), templates0);
                    &&& applied.len() <= k
                    &&& self.mobiles@.len() == mobiles0.len() + applied.len()
                    &&& forall|j: int| 0 <= j < mobiles0.len() ==> self.mobiles@[j] == mobiles0[j]
                    &&& forall|k2: int|
                        #![trigger self.mobiles@[mobiles0.len() + k2]]
                        0 <= k2 < applied.len() ==> {
                            let inst = self.mobiles@[mobiles0.len() + k2];
                            let rule = applied[k2];
                            let tpl = templates0[rule.mobile_id];
                            &&& inst.current_room == rule.room_id
                            &&& inst.template.id == tpl.id
                            &&& inst.template.room_description@ == tpl.room_description@
                            &&& inst.template.keywords@ == tpl.keywords@
                            &&& is_lowest_free_mob_id(
                                self.mobiles@.take(mobiles0.len() + k2),
                                inst.id,
                            )
                        }
                }),
            decreases n - k,
        {
            let rc = self.resets[k];
            let ghost applied0 = applicable_rules(rules.take(k as int), templates0);
            proof {
                lemma_applicable_rules_push(rules.take(k as int), templates0, rules[k as int]);
                assert(rules.take(k as int).push(rules[k as int]) =~= rules.take(k as int + 1));
            }
            match self.mobile_templates.get(&rc.mobile_id) {
                None => {
                    // The rule names no loaded template: skipped.
                    proof {
                        assert(!templates0.contains_key(rc.mobile_id));
                        assert(applicable_rules(rules.take(k as int + 1), templates0) =~= applied0);
                    }
                },
                Some(t) => {
                    let template = t.clone();
                    proof {
                        assert(templates0.contains_key(rc.mobile_id));
                        assert(templates0[rc.mobile_id] == *t);
                        assert(applicable_rules(rules.take(k as int + 1), templates0)
                            =~= applied0.push(rc));
                    }
                    let ghost cur = self.mobiles@;
                    let mut id: u32 = 1;
                    while self.contains_mob_id(id)
                        invariant
                            self.mobiles@ == cur,
                            1 <= id,
                            id <= cur.len() + 1,
                            forall|q: u32| 1 <= q < id ==> mob_id_in(cur, q),
                        decreases cur.len() + 1 - id,
                    {
                        proof {
                            assert(forall|q: u32| 1 <= q < id + 1 ==> mob_id_in(cur, q));
                            lemma_distinct_mob_ids_bound(cur, (id + 1) as u32);
                        }
                        id = id + 1;
                    }
                    let mi = MobileInstance { id, template, current_room: rc.room_id };
                    let ghost mig = mi;
                    proof {
                        assert(is_lowest_free_mob_id(cur, mig.id));
                    }
                    self.mobiles.push(mi);
                    proof {
                        assert(self.mobiles@[cur.len() as int] == mig);
                        assert(cur =~= self.mobiles@.take(cur.len() as int));
                        assert forall|x: int| 0 <= x <= cur.len() implies self.mobiles@.take(x)
                            == cur.take(x) by {
                            assert(self.mobiles@.take(x) =~= cur.take(x));
                        }
                        assert forall|i2: int, j2: int|
                            #![trigger self.mobiles@[i2].id, self.mobiles@[j2].id]
                            0 <= i2 < j2 < self.mobiles@.len() implies self.mobiles@[i2].id
                            != self.mobiles@[j2].id by {
                            if j2 < cur.len() {
                                assert(cur[i2].id != cur[j2].id);
                            } else {
                                assert(self.mobiles@[j2] == mig);
                                assert(self.mobiles@[i2] == cur[i2]);
                                assert(!mob_id_in(cur, mig.id));
                            }
                        }
                    }
                },
            }
            k = k + 1;
        }
        proof {
            assert(rules.take(n as int) =~= rules);
        }
    }
}

/// One of the six words the prompt abbreviates.
pub open spec fn is_cardinal(label: Seq<char>) -> bool {
    label == "north"@ || label == "south"@ || label == "east"@ || label == "west"@ || label
        == "up"@ || label == "down"@
}

/// The upper-cased initials of the cardinal exits, in insertion order.
pub open spec fn cardinal_initials(exits: Seq<(Seq<char>, u32)>) -> Seq<char>
    decreases exits.len(),
{
    if exits.len() == 0 {
        Seq::empty()
    } else {
        let rest = cardinal_initials(exits.drop_first());
        if is_cardinal(crate::text::lower_seq(exits.first().0)) {
            seq![crate::text::upper_char(exits.first().0.first())] + rest
        } else {
            rest
        }
    }
}

/// What the prompt reads for a player: the initials of the cardinal exits
/// of the player's room (nothing when the room does not exist), then the
/// prompt arrow.
pub open spec fn prompt_text(rooms: Map<u32, Room>, p: Player) -> Seq<char> {
    (if rooms.contains_key(p.current_room) {
        cardinal_initials(rooms[p.current_room].exits_spec())
    } else {
        Seq::empty()
    }) + " > "@
}

impl Player {
    /// The player's prompt line: the cardinal exits of the current room as
    /// upper-case initials, then the prompt arrow.
    pub fn prompt_str(&self, world: &World) -> (r: String)
        ensures
            r@ == prompt_text(world.rooms_spec(), *self),
    {
        let ghost rooms = world.rooms_spec();
        let mut initials = String::new();
        match world.get_player_room(self) {
            None => {},
            Some(room) => {
                let ghost pairs = room.exits_spec();
                let mut i: usize = 0;
                proof {
                    assert(pairs.skip(0) =~= pairs);
                }
                while i < room.exits.len()
                    invariant
                        i <= pairs.len(),
                        pairs == room.exits_spec(),
                        pairs.len() == room.exits@.len(),
                        initials@ + cardinal_initials(pairs.skip(i as int)) == cardinal_initials(
                            pairs,
                        ),
                    decreases pairs.len() - i,
                {
                    let ghost skip_i = pairs.skip(i as int);
                    proof {
                        assert(skip_i.first() == pairs[i as int]);
                        assert(skip_i.drop_first() =~= pairs.skip(i as int + 1));
                        assert(pairs[i as int].0 == room.exits@[i as int].0@);
                    }
                    let label = &room.exits[i].0;
                    let cardinal = crate::text::eq_lower_str(label.as_str(), "north")
                        || crate::text::eq_lower_str(label.as_str(), "south")
                        || crate::text::eq_lower_str(label.as_str(), "east")
                        || crate::text::eq_lower_str(label.as_str(), "west")
                        || crate::text::eq_lower_str(label.as_str(), "up")
                        || crate::text::eq_lower_str(label.as_str(), "down");
                    if cardinal {
                        proof {
                            assert(label@.len() > 0) by {
                                reveal_strlit("north");
                                reveal_strlit("south");
                                reveal_strlit("east");
                                reveal_strlit("west");
                                reveal_strlit("up");
                                reveal_strlit("down");
                                assert(crate::text::lower_seq(label@).len() == label@.len());
                            }
                        }
                        let c = crate::text::ascii_upper(label.as_str().get_char(0));
                        crate::text::push_char(&mut initials, c);
                    }
                    i = i + 1;
                }
                proof {
                    assert(pairs.skip(pairs.len() as int) =~= Seq::<(Seq<char>, u32)>::empty());
                    assert(initials@ + Seq::<char>::empty() =~= initials@);
                }
            },
        }
        initials.append(" > ");
        initials
    }
}

/// A world holding only the hand-authored sample rooms: each of the ids
/// 1 to 10 resolves to its room, nothing else does, and no templates,
/// instances or spawn rules are loaded.
pub fn get_sample_world() -> (w: World)
    ensures
        forall|k: u32| #[trigger] w.rooms_spec().contains_key(k) <==> 1 <= k <= 10,
        forall|k: u32|
            1 <= k <= 10 ==> (#[trigger] w.rooms_spec()[k]).id == k && w.rooms_spec()[k].wf(),
        w.rooms_spec()[1].name@ == "Cozy Cottage"@,
        w.rooms_spec()[1].exits_spec() == seq![("north"@, 2u32), ("east"@, 5u32)],
        w.rooms_spec()[2].name@ == "Enchanted Forest"@,
        w.rooms_spec()[2].exits_spec() == seq![("south"@, 1u32), ("west"@, 4u32)],
        w.rooms_spec()[3].exits_spec() == seq![("down"@, 4u32)],
        w.rooms_spec()[4].exits_spec() == seq![("east"@, 5u32), ("west"@, 2u32), ("down"@, 7u32)],
        w.rooms_spec()[5].exits_spec() == seq![
            ("north"@, 8u32),
            ("south"@, 1u32),
            ("east"@, 6u32),
            ("west"@, 4u32),
        ],
        w.rooms_spec()[6].exits_spec() == seq![("north"@, 10u32), ("south"@, 5u32)],
        w.rooms_spec()[7].exits_spec() == seq![("up"@, 4u32), ("down"@, 9u32)],
        w.rooms_spec()[8].exits_spec() == seq![
            ("north"@, 10u32),
            ("south"@, 5u32),
            ("east"@, 9u32),
            ("west"@, 7u32),
        ],
        w.rooms_spec()[9].exits_spec() == seq![("up"@, 8u32), ("north"@, 7u32), ("south"@, 10u32)],
        w.rooms_spec()[10].exits_spec() == seq![
            ("north"@, 6u32),
            ("south"@, 9u32),
            ("down"@, 8u32),
        ],
        w.templates_spec() == Map::<u32, Mobile>::empty(),
        w.mobiles_spec() == Seq::<MobileInstance>::empty(),
        w.resets_spec() == Seq::<ResetCommand>::empty(),
{
    let mut rooms = crate::room::get_sample_rooms();
    let ghost orig = rooms@;
    let mut world = World::new();
    while rooms.len() > 0
        invariant
            insert_rooms(world.rooms_spec(), rooms@) == insert_rooms(
                Map::<u32, Room>::empty(),
                orig,
            ),
            world.templates_spec() == Map::<u32, Mobile>::empty(),
            world.mobiles_spec() == Seq::<MobileInstance>::empty(),
            world.resets_spec() == Seq::<ResetCommand>::empty(),
        decreases rooms@.len(),
    {
        let ghost rs = rooms@;
        let r = rooms.remove(0);
        proof {
            assert(rooms@ =~= rs.drop_first());
            assert(r == rs.first());
        }
        world.add_room(r);
    }
    proof {
        assert(rooms@.len() == 0);
        assert(world.rooms_spec() == insert_rooms(Map::<u32, Room>::empty(), orig));
        assert(forall|i: int, j: int|
            #![trigger orig[i].id, orig[j].id]
            0 <= i < j < orig.len() ==> orig[i].id != orig[j].id);
        lemma_insert_rooms_distinct(Map::<u32, Room>::empty(), orig);
        assert forall|k: u32| #[trigger] world.rooms_spec().contains_key(k) implies 1 <= k
            <= 10 by {
            let i = choose|i: int| 0 <= i < orig.len() && #[trigger] orig[i].id == k;
            assert(orig[i].id == i + 1);
        }
        assert forall|k: u32| 1 <= k <= 10 implies world.rooms_spec().contains_key(k) && (
        #[trigger] world.rooms_spec()[k]) == orig[k - 1] by {
            assert(orig[k - 1].id == k);
        }
        assert(world.rooms_spec()[1] == orig[0]);
        assert(world.rooms_spec()[2] == orig[1]);
        assert(world.rooms_spec()[3] == orig[2]);
        assert(world.rooms_spec()[4] == orig[3]);
        assert(world.rooms_spec()[5] == orig[4]);
        assert(world.rooms_spec()[6] == orig[5]);
        assert(world.rooms_spec()[7] == orig[6]);
        assert(world.rooms_spec()[8] == orig[7]);
        assert(world.rooms_spec()[9] == orig[8]);
        assert(world.rooms_spec()[10] == orig[9]);
    }
    world
}

} // verus!
