//! Rooms: the nodes of the world graph.  Exits are directed edges, labelled
//! by a direction word; a reverse exit must be authored explicitly.

use vstd::prelude::*;

use crate::text::str_eq;

verus! {

/// One room: identity, what a looker is told, and the labelled exits.
#[derive(Debug)]
pub struct Room {
    pub id: u32,
    pub name: String,
    pub description: String,
    pub exits: Vec<(String, u32)>,
}

/// The views of a list of labelled exits.
pub open spec fn pair_views(s: Seq<(String, u32)>) -> Seq<(Seq<char>, u32)> {
    s.map_values(|p: (String, u32)| (p.0@, p.1))
}

/// The position of the exit labelled `d`, or -1 when there is none.
pub open spec fn key_index(ps: Seq<(Seq<char>, u32)>, d: Seq<char>) -> int
    decreases ps.len(),
{
    if ps.len() == 0 {
        -1
    } else if ps.first().0 == d {
        0
    } else {
        let r = key_index(ps.drop_first(), d);
        if r < 0 {
            -1
        } else {
            1 + r
        }
    }
}

/// Where the exit labelled `d` leads, if anywhere.
pub open spec fn exit_dest(ps: Seq<(Seq<char>, u32)>, d: Seq<char>) -> Option<u32> {
    if key_index(ps, d) >= 0 {
        Some(ps[key_index(ps, d)].1)
    } else {
        None
    }
}

/// `key_index` finds a label exactly where a front-to-back scan first meets
/// it.
proof fn lemma_key_index_at(ps: Seq<(Seq<char>, u32)>, d: Seq<char>, k: int)
    requires
        0 <= k <= ps.len(),
        forall|j: int| 0 <= j < k ==> ps[j].0 != d,
        k == ps.len() || ps[k].0 == d,
    ensures
        key_index(ps, d) == if k == ps.len() {
            -1int
        } else {
            k
        },
    decreases k,
{
    if k == 0 {
        if ps.len() > 0 && ps.first().0 != d {
            let t = ps.drop_first();
            lemma_key_index_none(t, d);
        }
    } else {
        let t = ps.drop_first();
        assert(forall|j: int| 0 <= j < k - 1 ==> t[j] == ps[j + 1] && t[j].0 != d);
        lemma_key_index_at(t, d, k - 1);
    }
}

/// A label that occurs nowhere has no index.
proof fn lemma_key_index_none(ps: Seq<(Seq<char>, u32)>, d: Seq<char>)
    requires
        forall|j: int| 0 <= j < ps.len() ==> ps[j].0 != d,
    ensures
        key_index(ps, d) == -1,
    decreases ps.len(),
{
    if ps.len() > 0 {
        let t = ps.drop_first();
        assert(forall|j: int| 0 <= j < t.len() ==> t[j] == ps[j + 1] && t[j].0 != d);
        lemma_key_index_none(t, d);
    }
}

/// A found index points at the label.
proof fn lemma_key_index_found(ps: Seq<(Seq<char>, u32)>, d: Seq<char>)
    requires
        key_index(ps, d) >= 0,
    ensures
        key_index(ps, d) < ps.len(),
        ps[key_index(ps, d)].0 == d,
    decreases ps.len(),
{
    if ps.len() > 0 && ps.first().0 != d {
        lemma_key_index_found(ps.drop_first(), d);
    }
}

impl Room {
    /// The exits as (label, destination) pairs, in insertion order.
    pub open spec fn exits_spec(&self) -> Seq<(Seq<char>, u32)> {
        pair_views(self.exits@)
    }

    /// Exit labels are unique.
    pub open spec fn wf(&self) -> bool {
        forall|i: int, j: int|
            0 <= i < j < self.exits_spec().len() ==> self.exits_spec()[i].0
                != self.exits_spec()[j].0
    }

    pub fn new(id: u32, name: &str, description: &str) -> (r: Room)
        ensures
            r.id == id,
            r.name@ == name@,
            r.description@ == description@,
            r.exits_spec() == Seq::<(Seq<char>, u32)>::empty(),
            r.wf(),
    {
        let r = Room {
            id,
            name: name.to_owned(),
            description: description.to_owned(),
            exits: Vec::new(),
        };
        proof {
            assert(r.exits_spec() =~= Seq::<(Seq<char>, u32)>::empty());
        }
        r
    }

    /// Finds the position of a label in the exit list, scanning forward.
    fn find_exit(&self, direction: &str) -> (r: Option<usize>)
        ensures
            match r {
                Some(i) => i == key_index(self.exits_spec(), direction@),
                None => key_index(self.exits_spec(), direction@) == -1,
            },
    {
        let ghost ps = self.exits_spec();
        let mut i: usize = 0;
        while i < self.exits.len()
            invariant
                i <= ps.len(),
                ps == self.exits_spec(),
                ps.len() == self.exits@.len(),
                forall|j: int| 0 <= j < i ==> ps[j].0 != direction@,
            decreases ps.len() - i,
        {
            proof {
                assert(ps[i as int].0 == self.exits@[i as int].0@);
            }
            if str_eq(self.exits[i].0.as_str(), direction) {
                proof {
                    lemma_key_index_at(ps, direction@, i as int);
                }
                return Some(i);
            }
            i = i + 1;
        }
        proof {
            lemma_key_index_at(ps, direction@, ps.len() as int);
        }
        None
    }

    /// Adds or replaces the exit labelled `direction`.  A fresh label goes
    /// to the back; an existing one keeps its place, pointing at the new
    /// destination.
    pub fn add_exit(&mut self, direction: &str, destination_id: u32)
        requires
            old(self).wf(),
        ensures
            final(self).wf(),
            final(self).id == old(self).id,
            final(self).name@ == old(self).name@,
            final(self).description@ == old(self).description@,
            ({
                let ki = key_index(old(self).exits_spec(), direction@);
                if ki >= 0 {
                    final(self).exits_spec() == old(self).exits_spec().update(
                        ki,
                        (direction@, destination_id),
                    )
                } else {
                    final(self).exits_spec() == old(self).exits_spec().push(
                        (direction@, destination_id),
                    )
                }
            }),
    {
        let ghost ps = self.exits_spec();
        match self.find_exit(direction) {
            Some(i) => {
                proof {
                    lemma_key_index_found(ps, direction@);
                }
                self.exits.remove(i);
                self.exits.insert(i, (direction.to_owned(), destination_id));
                proof {
                    assert(final(self).exits_spec() =~= ps.update(
                        i as int,
                        (direction@, destination_id),
                    ));
                }
            },
            None => {
                self.exits.push((direction.to_owned(), destination_id));
                proof {
                    assert(final(self).exits_spec() =~= ps.push((direction@, destination_id)));
                    lemma_key_index_none_means_absent(ps, direction@);
                }
            },
        }
    }

    /// Removes the exit labelled `direction`, if it is there.
    pub fn remove_exit(&mut self, direction: &str)
        requires
            old(self).wf(),
        ensures
            final(self).wf(),
            final(self).id == old(self).id,
            final(self).name@ == old(self).name@,
            final(self).description@ == old(self).description@,
            ({
                let ki = key_index(old(self).exits_spec(), direction@);
                if ki >= 0 {
                    final(self).exits_spec() == old(self).exits_spec().remove(ki)
                } else {
                    final(self).exits_spec() == old(self).exits_spec()
                }
            }),
    {
        let ghost ps = self.exits_spec();
        match self.find_exit(direction) {
            Some(i) => {
                proof {
                    lemma_key_index_found(ps, direction@);
                }
                self.exits.remove(i);
                proof {
                    assert(final(self).exits_spec() =~= ps.remove(i as int));
                }
            },
            None => {},
        }
    }

    /// Where the exit labelled `direction` leads, if anywhere.
    pub fn get_exit(&self, direction: &str) -> (r: Option<u32>)
        ensures
            r == exit_dest(self.exits_spec(), direction@),
    {
        match self.find_exit(direction) {
            Some(i) => {
                proof {
                    lemma_key_index_found(self.exits_spec(), direction@);
                }
                Some(self.exits[i].1)
            },
            None => None,
        }
    }

    /// How many exits the room has.
    pub fn exit_count(&self) -> (r: usize)
        ensures
            r == self.exits_spec().len(),
    {
        self.exits.len()
    }

    /// The exit labels, in insertion order.
    pub fn exit_names(&self) -> (r: Vec<String>)
        ensures
            r@.len() == self.exits_spec().len(),
            forall|i: int| 0 <= i < r@.len() ==> r@[i]@ == self.exits_spec()[i].0,
    {
        let mut r: Vec<String> = Vec::new();
        let mut i: usize = 0;
        while i < self.exits.len()
            invariant
                i <= self.exits@.len(),
                self.exits_spec().len() == self.exits@.len(),
                r@.len() == i,
                forall|j: int| 0 <= j < i ==> r@[j]@ == self.exits_spec()[j].0,
            decreases self.exits@.len() - i,
        {
            r.push(self.exits[i].0.clone());
            i = i + 1;
        }
        r
    }
}

/// The six direction words are pairwise distinct.
proof fn lemma_direction_labels_distinct()
    ensures
        "north"@ != "south"@,
        "north"@ != "east"@,
        "north"@ != "west"@,
        "north"@ != "up"@,
        "north"@ != "down"@,
        "south"@ != "east"@,
        "south"@ != "west"@,
        "south"@ != "up"@,
        "south"@ != "down"@,
        "east"@ != "west"@,
        "east"@ != "up"@,
        "east"@ != "down"@,
        "west"@ != "up"@,
        "west"@ != "down"@,
        "up"@ != "down"@,
{
    reveal_strlit("north");
    reveal_strlit("south");
    reveal_strlit("east");
    reveal_strlit("west");
    reveal_strlit("up");
    reveal_strlit("down");
    assert("north"@.len() == 5);
    assert("south"@.len() == 5);
    assert("east"@.len() == 4);
    assert("west"@.len() == 4);
    assert("up"@.len() == 2);
    assert("down"@.len() == 4);
    assert("north"@[0] == 'n');
    assert("south"@[0] == 's');
    assert("east"@[0] == 'e');
    assert("west"@[0] == 'w');
    assert("down"@[0] == 'd');
}

/// A hand-authored sample map of ten connected rooms, for running the
/// server without an area file.  Ids run from 1 to 10, in order.
pub fn get_sample_rooms() -> (r: Vec<Room>)
    ensures
        r@.len() == 10,
        forall|i: int| 0 <= i < 10 ==> (#[trigger] r@[i].id) == i + 1 && r@[i].wf(),
        r@[0].name@ == "Cozy Cottage"@,
        r@[0].exits_spec() == seq![("north"@, 2u32), ("east"@, 5u32)],
        r@[1].name@ == "Enchanted Forest"@,
        r@[1].exits_spec() == seq![("south"@, 1u32), ("west"@, 4u32)],
        r@[2].name@ == "Dusty Attic"@,
        r@[2].exits_spec() == seq![("down"@, 4u32)],
        r@[3].name@ == "Abandoned Mine"@,
        r@[3].exits_spec() == seq![("east"@, 5u32), ("west"@, 2u32), ("down"@, 7u32)],
        r@[4].name@ == "Bustling Marketplace"@,
        r@[4].exits_spec() == seq![
            ("north"@, 8u32),
            ("south"@, 1u32),
            ("east"@, 6u32),
            ("west"@, 4u32),
        ],
        r@[5].name@ == "Serene Lake"@,
        r@[5].exits_spec() == seq![("north"@, 10u32), ("south"@, 5u32)],
        r@[6].name@ == "Mysterious Crypt"@,
        r@[6].exits_spec() == seq![("up"@, 4u32), ("down"@, 9u32)],
        r@[7].name@ == "Grand Castle Hall"@,
        r@[7].exits_spec() == seq![
            ("north"@, 10u32),
            ("south"@, 5u32),
            ("east"@, 9u32),
            ("west"@, 7u32),
        ],
        r@[8].name@ == "Underground Lab"@,
        r@[8].exits_spec() == seq![("up"@, 8u32), ("north"@, 7u32), ("south"@, 10u32)],
        r@[9].name@ == "Celestial Observatory"@,
        r@[9].exits_spec() == seq![("north"@, 6u32), ("south"@, 9u32), ("down"@, 8u32)],
{
    let mut rooms: Vec<Room> = Vec::new();

    let mut room1 = Room::new(
        1,
        "Cozy Cottage",
        "A small, quaint cottage nestled in the countryside. The warm fireplace and cozy furnishings make it a welcoming place to rest.",
    );
    room1.add_exit("north", 2);
    room1.add_exit("east", 5);
    proof {
        lemma_direction_labels_distinct();
        reveal_with_fuel(key_index, 6);
        assert(room1.exits_spec() =~= seq![("north"@, 2u32), ("east"@, 5u32)]);
    }
    rooms.push(room1);

    let mut room2 = Room::new(
        2,
        "Enchanted Forest",
        "Towering trees stretch towards the sky, their branches creating a lush, green canopy. The sound of a nearby stream and the chirping of birds create a serene atmosphere.",
    );
    room2.add_exit("south", 1);
    room2.add_exit("west", 4);
    proof {
        lemma_direction_labels_distinct();
        reveal_with_fuel(key_index, 6);
        assert(room2.exits_spec() =~= seq![("south"@, 1u32), ("west"@, 4u32)]);
    }
    rooms.push(room2);

    let mut room3 = Room::new(
        3,
        "Dusty Attic",
        "The attic is filled with old trunks, cobwebs, and the musty smell of forgotten memories. Rays of sunlight filter through the dirty windows, casting a warm glow over the space.",
    );
    room3.add_exit("down", 4);
    proof {
        lemma_direction_labels_distinct();
        reveal_with_fuel(key_index, 6);
        assert(room3.exits_spec() =~= seq![("down"@, 4u32)]);
    }
    rooms.push(room3);

    let mut room4 = Room::new(
        4,
        "Abandoned Mine",
        "The entrance to the mine is dark and foreboding, with the sound of dripping water echoing through the tunnel. The air is thick with the scent of damp earth and forgotten treasures.",
    );
    room4.add_exit("east", 5);
    room4.add_exit("west", 2);
    room4.add_exit("down", 7);
    proof {
        lemma_direction_labels_distinct();
        reveal_with_fuel(key_index, 6);
        assert(room4.exits_spec() =~= seq![("east"@, 5u32), ("west"@, 2u32), ("down"@, 7u32)]);
    }
    rooms.push(room4);

    let mut room5 = Room::new(
        5,
        "Bustling Marketplace",
        "The marketplace is a lively, crowded place, with merchants shouting their wares and the aroma of exotic spices filling the air. Colorful fabrics and stalls selling all manner of goods line the cobblestone streets.",
    );
    room5.add_exit("north", 8);
    room5.add_exit("south", 1);
    room5.add_exit("east", 6);
    room5.add_exit("west", 4);
    proof {
        lemma_direction_labels_distinct();
        reveal_with_fuel(key_index, 6);
        assert(room5.exits_spec() =~= seq![
            ("north"@, 8u32),
            ("south"@, 1u32),
            ("east"@, 6u32),
            ("west"@, 4u32),
        ]);
    }
    rooms.push(room5);

    let mut room6 = Room::new(
        6,
        "Serene Lake",
        "The still, crystal-clear waters of the lake reflect the surrounding forest and mountains, creating a peaceful and tranquil atmosphere. The gentle lapping of the waves and the calls of waterfowl add to the calming ambiance.",
    );
    room6.add_exit("north", 10);
    room6.add_exit("south", 5);
    proof {
        lemma_direction_labels_distinct();
        reveal_with_fuel(key_index, 6);
        assert(room6.exits_spec() =~= seq![("north"@, 10u32), ("south"@, 5u32)]);
    }
    rooms.push(room6);

    let mut room7 = Room::new(
        7,
        "Mysterious Crypt",
        "The air in the crypt is thick and oppressive, with the faint sound of wind whispering through the ancient, crumbling walls. The dim lighting casts eerie shadows, and the atmosphere is heavy with a sense of foreboding.",
    );
    room7.add_exit("up", 4);
    room7.add_exit("down", 9);
    proof {
        lemma_direction_labels_distinct();
        reveal_with_fuel(key_index, 6);
        assert(room7.exits_spec() =~= seq![("up"@, 4u32), ("down"@, 9u32)]);
    }
    rooms.push(room7);

    let mut room8 = Room::new(
        8,
        "Grand Castle Hall",
        "The high ceilings and ornate decor of the castle hall are impressive and awe-inspiring. Tapestries and chandeliers adorn the space, and the sound of your footsteps echoes through the cavernous room.",
    );
    room8.add_exit("north", 10);
    room8.add_exit("south", 5);
    room8.add_exit("east", 9);
    room8.add_exit("west", 7);
    proof {
        lemma_direction_labels_distinct();
        reveal_with_fuel(key_index, 6);
        assert(room8.exits_spec() =~= seq![
            ("north"@, 10u32),
            ("south"@, 5u32),
            ("east"@, 9u32),
            ("west"@, 7u32),
        ]);
    }
    rooms.push(room8);

    let mut room9 = Room::new(
        9,
        "Underground Lab",
        "The underground lab is a maze of corridors and dimly lit chambers, filled with the hum of machinery and the faint glow of computer screens. The air is cool and damp, and the atmosphere is one of scientific curiosity and experimentation.",
    );
    room9.add_exit("up", 8);
    room9.add_exit("north", 7);
    room9.add_exit("south", 10);
    proof {
        lemma_direction_labels_distinct();
        reveal_with_fuel(key_index, 6);
        assert(room9.exits_spec() =~= seq![("up"@, 8u32), ("north"@, 7u32), ("south"@, 10u32)]);
    }
    rooms.push(room9);

    let mut room10 = Room::new(
        10,
        "Celestial Observatory",
        "The observatory is a spacious, domed room with large windows that offer a breathtaking view of the night sky. Telescopes and astronomical equipment line the walls, and the air is filled with the sense of wonder and discovery.",
    );
    room10.add_exit("north", 6);
    room10.add_exit("south", 9);
    room10.add_exit("down", 8);
    proof {
        lemma_direction_labels_distinct();
        reveal_with_fuel(key_index, 6);
        assert(room10.exits_spec() =~= seq![("north"@, 6u32), ("south"@, 9u32), ("down"@, 8u32)]);
    }
    rooms.push(room10);

    rooms
}

/// A negative index means the label stands nowhere in the list.
proof fn lemma_key_index_none_means_absent(ps: Seq<(Seq<char>, u32)>, d: Seq<char>)
    requires
        key_index(ps, d) < 0,
    ensures
        forall|j: int| 0 <= j < ps.len() ==> ps[j].0 != d,
    decreases ps.len(),
{
    if ps.len() > 0 {
        lemma_key_index_none_means_absent(ps.drop_first(), d);
        assert forall|j: int| 0 <= j < ps.len() implies ps[j].0 != d by {
            if j > 0 {
                assert(ps[j] == ps.drop_first()[j - 1]);
            }
        }
    }
}

} // verus!
