//! Players and the registry of connected sessions.
//!
//! The registry is the one directory shared between the game loop and the
//! connection tasks.  Callers guard it with whatever exclusion they need;
//! every operation here is a single, fully specified state transition, so an
//! exclusive section never has to span more than one call.

use vstd::prelude::*;

use crate::text::str_eq;

verus! {

/// One connected player.  The registry entry is authoritative; the session's
/// outbound channel is owned by the connection code outside this crate.
#[derive(Debug)]
pub struct Player {
    pub id: u32,
    pub username: String,
    pub current_room: u32,
}

impl Player {
    pub fn new(id: u32, username: String, current_room: u32) -> (p: Player)
        ensures
            p.id == id,
            p.username@ == username@,
            p.current_room == current_room,
    {
        Player { id, username, current_room }
    }

    /// Puts the player into another room.
    pub fn move_to_room(&mut self, room_id: u32)
        ensures
            final(self).id == old(self).id,
            final(self).username == old(self).username,
            final(self).current_room == room_id,
    {
        self.current_room = room_id;
    }
}

/// Why a registration was refused.
#[derive(Clone, Copy, Debug, PartialEq, Eq, Structural)]
pub enum RegisterError {
    /// The username is already connected, case sensitively.
    UsernameTaken,
}

/// Some entry carries this session id.
pub open spec fn id_in(s: Seq<Player>, id: u32) -> bool {
    exists|i: int| 0 <= i < s.len() && #[trigger] s[i].id == id
}

/// Some entry carries this username.
pub open spec fn username_in(s: Seq<Player>, u: Seq<char>) -> bool {
    exists|i: int| 0 <= i < s.len() && #[trigger] s[i].username@ == u
}

/// The registry invariant: ids unique and at least 1, usernames unique.
pub open spec fn players_wf(s: Seq<Player>) -> bool {
    &&& forall|i: int, j: int|
        #![trigger s[i].id, s[j].id]
        0 <= i < j < s.len() ==> s[i].id != s[j].id
    &&& forall|i: int, j: int|
        #![trigger s[i].username, s[j].username]
        0 <= i < j < s.len() ==> s[i].username@ != s[j].username@
    &&& forall|i: int| 0 <= i < s.len() ==> #[trigger] s[i].id >= 1
}

/// The lowest session id not in use: scanning from 1 upward stops here.
pub open spec fn is_lowest_free_id(s: Seq<Player>, id: u32) -> bool {
    &&& id >= 1
    &&& !id_in(s, id)
    &&& forall|k: u32| 1 <= k < id ==> id_in(s, k)
}

/// The position of the entry with this session id, or -1.
pub open spec fn id_index(s: Seq<Player>, id: u32) -> int
    decreases s.len(),
{
    if s.len() == 0 {
        -1
    } else if s.first().id == id {
        0
    } else {
        let r = id_index(s.drop_first(), id);
        if r < 0 {
            -1
        } else {
            1 + r
        }
    }
}

proof fn lemma_id_index_at(s: Seq<Player>, id: u32, k: int)
    requires
        0 <= k <= s.len(),
        forall|j: int| 0 <= j < k ==> s[j].id != id,
        k == s.len() || s[k].id == id,
    ensures
        id_index(s, id) == if k == s.len() {
            -1int
        } else {
            k
        },
    decreases k,
{
    if k == 0 {
        if s.len() > 0 && s.first().id != id {
            lemma_id_index_negative(s, id);
        }
    } else {
        let t = s.drop_first();
        assert(forall|j: int| 0 <= j < k - 1 ==> t[j] == s[j + 1] && t[j].id != id);
        lemma_id_index_at(t, id, k - 1);
    }
}

proof fn lemma_id_index_negative(s: Seq<Player>, id: u32)
    requires
        forall|j: int| 0 <= j < s.len() ==> s[j].id != id,
    ensures
        id_index(s, id) == -1,
    decreases s.len(),
{
    if s.len() > 0 {
        let t = s.drop_first();
        assert(forall|j: int| 0 <= j < t.len() ==> t[j] == s[j + 1] && t[j].id != id);
        lemma_id_index_negative(t, id);
    }
}

/// If the ids 1..m are all taken by entries with pairwise distinct ids, the
/// registry holds at least m-1 entries: the id scan cannot run away.
proof fn lemma_distinct_ids_bound(s: Seq<Player>, m: u32)
    requires
        forall|i: int, j: int|
            #![trigger s[i].id, s[j].id]
            0 <= i < j < s.len() ==> s[i].id != s[j].id,
        forall|k: u32| 1 <= k < m ==> id_in(s, k),
    ensures
        m - 1 <= s.len(),
    decreases m,
{
    if m > 1 {
        assert(id_in(s, (m - 1) as u32));
        let i = choose|i: int| 0 <= i < s.len() && #[trigger] s[i].id == (m - 1) as u32;
        let t = s.remove(i);
        assert forall|i2: int, j2: int|
            #![trigger t[i2].id, t[j2].id]
            0 <= i2 < j2 < t.len() implies t[i2].id != t[j2].id by {
            let a = if i2 < i { i2 } else { i2 + 1 };
            let b = if j2 < i { j2 } else { j2 + 1 };
            assert(t[i2] == s[a]);
            assert(t[j2] == s[b]);
            assert(s[a].id != s[b].id);
        }
        assert forall|k: u32| 1 <= k < (m - 1) as u32 implies id_in(t, k) by {
            assert(id_in(s, k));
            let j = choose|j: int| 0 <= j < s.len() && #[trigger] s[j].id == k;
            assert(s[j].id != s[i].id);
            if j < i {
                assert(t[j] == s[j]);
                assert(t[j].id == k);
            } else {
                assert(t[j - 1] == s[j]);
                assert(t[j - 1].id == k);
            }
        }
        lemma_distinct_ids_bound(t, (m - 1) as u32);
    }
}

/// Pushing a fresh, well-formed entry keeps the registry well formed: every
/// registered player keeps a session id and a username that nobody else has.
pub proof fn lemma_wf_push(s: Seq<Player>, p: Player)
    requires
        players_wf(s),
        !id_in(s, p.id),
        !username_in(s, p.username@),
        p.id >= 1,
    ensures
        players_wf(s.push(p)),
{
    let s2 = s.push(p);
    assert forall|i: int, j: int|
        #![trigger s2[i].id, s2[j].id]
        0 <= i < j < s2.len() implies s2[i].id != s2[j].id by {
        if j == s.len() {
            assert(s2[i] == s[i]);
            assert(s[i].id == s[i].id);
        }
    }
    assert forall|i: int, j: int|
        #![trigger s2[i].username, s2[j].username]
        0 <= i < j < s2.len() implies s2[i].username@ != s2[j].username@ by {
        if j == s.len() {
            assert(s2[i] == s[i]);
            assert(s[i].username@ == s[i].username@);
        }
    }
    assert forall|i: int| 0 <= i < s2.len() implies #[trigger] s2[i].id >= 1 by {
        if i < s.len() {
            assert(s2[i] == s[i]);
        }
    }
}

/// Removing an entry keeps the registry well formed, and its session id is
/// gone afterwards.
pub proof fn lemma_wf_remove(s: Seq<Player>, i: int)
    requires
        players_wf(s),
        0 <= i < s.len(),
    ensures
        players_wf(s.remove(i)),
        !id_in(s.remove(i), s[i].id),
{
    let t = s.remove(i);
    assert forall|x: int, y: int|
        #![trigger t[x].id, t[y].id]
        0 <= x < y < t.len() implies t[x].id != t[y].id by {
        let a = if x < i { x } else { x + 1 };
        let b = if y < i { y } else { y + 1 };
        assert(t[x] == s[a]);
        assert(t[y] == s[b]);
        assert(s[a].id != s[b].id);
    }
    assert forall|x: int, y: int|
        #![trigger t[x].username, t[y].username]
        0 <= x < y < t.len() implies t[x].username@ != t[y].username@ by {
        let a = if x < i { x } else { x + 1 };
        let b = if y < i { y } else { y + 1 };
        assert(t[x] == s[a]);
        assert(t[y] == s[b]);
        assert(s[a].username@ != s[b].username@);
    }
    assert forall|x: int| 0 <= x < t.len() implies #[trigger] t[x].id >= 1 by {
        let a = if x < i { x } else { x + 1 };
        assert(t[x] == s[a]);
        assert(s[a].id >= 1);
    }
    assert forall|x: int| 0 <= x < t.len() implies #[trigger] t[x].id != s[i].id by {
        let a = if x < i { x } else { x + 1 };
        assert(t[x] == s[a]);
        if a < i {
            assert(s[a].id != s[i].id);
        } else {
            assert(s[i].id != s[a].id);
        }
    }
}

/// Replacing an entry by one with the same id and username keeps the
/// registry well formed.
pub proof fn lemma_wf_update(s: Seq<Player>, i: int, p: Player)
    requires
        players_wf(s),
        0 <= i < s.len(),
        p.id == s[i].id,
        p.username@ == s[i].username@,
    ensures
        players_wf(s.update(i, p)),
{
    let t = s.update(i, p);
    assert forall|x: int| 0 <= x < t.len() implies #[trigger] t[x].id == s[x].id && #[trigger] t[x].username@ == s[x].username@ by {
        if x != i {
            assert(t[x] == s[x]);
        }
    }
    assert forall|x: int, y: int|
        #![trigger t[x].id, t[y].id]
        0 <= x < y < t.len() implies t[x].id != t[y].id by {
        assert(s[x].id != s[y].id);
    }
    assert forall|x: int, y: int|
        #![trigger t[x].username, t[y].username]
        0 <= x < y < t.len() implies t[x].username@ != t[y].username@ by {
        assert(s[x].username@ != s[y].username@);
    }
    assert forall|x: int| 0 <= x < t.len() implies #[trigger] t[x].id >= 1 by {
        assert(s[x].id >= 1);
    }
}

/// A freshly allocated session id belongs to nobody already registered:
/// simultaneous logins, serialised through the registry, can never hand
/// out a duplicate id.
pub proof fn lemma_fresh_id_distinct(s: Seq<Player>, id: u32)
    requires
        is_lowest_free_id(s, id),
    ensures
        forall|i: int| 0 <= i < s.len() ==> #[trigger] s[i].id != id,
{
    assert forall|i: int| 0 <= i < s.len() implies #[trigger] s[i].id != id by {
        assert(!id_in(s, id));
    }
}

/// A username's lifecycle: once a player carrying it is registered, the
/// name is in use (so a second login with it is refused), and removing
/// that player's session gives back exactly the registry from before, so
/// the name is free again.
pub proof fn lemma_username_lifecycle(s: Seq<Player>, p: Player)
    requires
        players_wf(s),
        !id_in(s, p.id),
        !username_in(s, p.username@),
        p.id >= 1,
    ensures
        username_in(s.push(p), p.username@),
        id_in(s.push(p), p.id),
        id_index(s.push(p), p.id) == s.len(),
        s.push(p).remove(id_index(s.push(p), p.id)) == s,
{
    let s2 = s.push(p);
    assert(s2[s.len() as int].username@ == p.username@);
    assert(s2[s.len() as int].id == p.id);
    assert(forall|j: int| 0 <= j < s.len() ==> s2[j] == s[j]);
    assert forall|j: int| 0 <= j < s.len() implies s2[j].id != p.id by {
        assert(!id_in(s, p.id));
    }
    lemma_id_index_at(s2, p.id, s.len() as int);
    assert(s2.remove(s.len() as int) =~= s);
}

/// The directory of connected players.
pub struct Players {
    list: Vec<Player>,
}

impl View for Players {
    type V = Seq<Player>;

    closed spec fn view(&self) -> Seq<Player> {
        self.list@
    }
}

impl Players {
    pub fn new() -> (r: Players)
        ensures
            r@ == Seq::<Player>::empty(),
            players_wf(r@),
    {
        let r = Players { list: Vec::new() };
        proof {
            assert(r@ =~= Seq::<Player>::empty());
        }
        r
    }

    /// How many sessions are connected.
    pub fn count(&self) -> (r: usize)
        ensures
            r == self@.len(),
    {
        self.list.len()
    }

    /// The entry at a position, for iteration in registration order.
    pub fn player_at(&self, i: usize) -> (p: &Player)
        requires
            i < self@.len(),
        ensures
            *p == self@[i as int],
    {
        &self.list[i]
    }

    /// Decides whether a session id is in use.
    pub fn contains_id(&self, id: u32) -> (r: bool)
        ensures
            r == id_in(self@, id),
    {
        let ghost s = self@;
        let mut i: usize = 0;
        while i < self.list.len()
            invariant
                i <= s.len(),
                self@ == s,
                s.len() == self.list@.len(),
                forall|j: int| 0 <= j < i ==> s[j].id != id,
            decreases s.len() - i,
        {
            if self.list[i].id == id {
                assert(s[i as int].id == id);
                return true;
            }
            i = i + 1;
        }
        false
    }

    /// Decides whether a username is connected, case sensitively.
    pub fn contains_username(&self, username: &str) -> (r: bool)
        ensures
            r == username_in(self@, username@),
    {
        let ghost s = self@;
        let mut i: usize = 0;
        while i < self.list.len()
            invariant
                i <= s.len(),
                self@ == s,
                s.len() == self.list@.len(),
                forall|j: int| 0 <= j < i ==> s[j].username@ != username@,
            decreases s.len() - i,
        {
            if str_eq(self.list[i].username.as_str(), username) {
                assert(s[i as int].username@ == username@);
                return true;
            }
            i = i + 1;
        }
        false
    }

    /// Registers a new session: succeeds exactly when the username is free,
    /// allocating the lowest session id not in use (scanning from 1 upward)
    /// and appending the new player.  On refusal nothing changes.
    pub fn register(&mut self, username: String, starting_room: u32) -> (r: Result<
        Player,
        RegisterError,
    >)
        requires
            players_wf(old(self)@),
            old(self)@.len() < 0xFFFF_FFFEusize,
        ensures
            players_wf(final(self)@),
            match r {
                Result::Err(e) => {
                    &&& e == RegisterError::UsernameTaken
                    &&& username_in(old(self)@, username@)
                    &&& final(self)@ == old(self)@
                },
                Result::Ok(p) => {
                    &&& !username_in(old(self)@, username@)
                    &&& p.username@ == username@
                    &&& p.current_room == starting_room
                    &&& is_lowest_free_id(old(self)@, p.id)
                    &&& final(self)@ == old(self)@.push(p)
                },
            },
    {
        let ghost s = self@;
        if self.contains_username(username.as_str()) {
            return Err(RegisterError::UsernameTaken);
        }
        let mut id: u32 = 1;
        while self.contains_id(id)
            invariant
                self@ == s,
                players_wf(s),
                s.len() < 0xFFFF_FFFEusize,
                1 <= id,
                id <= s.len() + 1,
                forall|k: u32| 1 <= k < id ==> id_in(s, k),
            decreases s.len() + 1 - id,
        {
            proof {
                assert(forall|k: u32| 1 <= k < id + 1 ==> id_in(s, k));
                lemma_distinct_ids_bound(s, (id + 1) as u32);
            }
            id = id + 1;
        }
        let player = Player { id, username: username.clone(), current_room: starting_room };
        let handed_back = Player { id, username, current_room: starting_room };
        proof {
            lemma_wf_push(s, player);
        }
        self.list.push(player);
        Ok(handed_back)
    }

    /// Takes a ready-made entry into the directory, provided its session id
    /// and username are both free; otherwise the directory stays as it was.
    pub fn add_player(&mut self, p: Player)
        requires
            players_wf(old(self)@),
        ensures
            players_wf(final(self)@),
            if !id_in(old(self)@, p.id) && !username_in(old(self)@, p.username@) && p.id >= 1 {
                final(self)@ == old(self)@.push(p)
            } else {
                final(self)@ == old(self)@
            },
    {
        let ghost s = self@;
        if p.id >= 1 && !self.contains_id(p.id) && !self.contains_username(p.username.as_str()) {
            proof {
                lemma_wf_push(s, p);
            }
            self.list.push(p);
        }
    }

    /// Removes a session.  Afterwards the id is certainly absent; the entry
    /// comes back to the caller if it was there.
    #[verifier::loop_isolation(false)]
    pub fn remove(&mut self, session_id: u32) -> (r: Option<Player>)
        requires
            players_wf(old(self)@),
        ensures
            players_wf(final(self)@),
            !id_in(final(self)@, session_id),
            match r {
                Some(p) => {
                    &&& id_in(old(self)@, session_id)
                    &&& p == old(self)@[id_index(old(self)@, session_id)]
                    &&& p.id == session_id
                    &&& final(self)@ == old(self)@.remove(id_index(old(self)@, session_id))
                },
                None => {
                    &&& !id_in(old(self)@, session_id)
                    &&& final(self)@ == old(self)@
                },
            },
    {
        let ghost s = self@;
        let mut i: usize = 0;
        while i < self.list.len()
            invariant
                i <= s.len(),
                self@ == s,
                s.len() == self.list@.len(),
                forall|j: int| 0 <= j < i ==> s[j].id != session_id,
            decreases s.len() - i,
        {
            if self.list[i].id == session_id {
                proof {
                    lemma_id_index_at(s, session_id, i as int);
                    assert(s[i as int].id == session_id);
                }
                proof {
                    lemma_wf_remove(s, i as int);
                }
                let p = self.list.remove(i);
                return Some(p);
            }
            i = i + 1;
        }
        proof {
            lemma_id_index_negative(s, session_id);
        }
        None
    }

    /// A borrowed look at the entry for a session id.
    pub fn get(&self, session_id: u32) -> (r: Option<&Player>)
        ensures
            match r {
                Some(p) => id_in(self@, session_id) && *p == self@[id_index(self@, session_id)]
                    && p.id == session_id,
                None => !id_in(self@, session_id),
            },
    {
        let ghost s = self@;
        let mut i: usize = 0;
        while i < self.list.len()
            invariant
                i <= s.len(),
                self@ == s,
                s.len() == self.list@.len(),
                forall|j: int| 0 <= j < i ==> s[j].id != session_id,
            decreases s.len() - i,
        {
            if self.list[i].id == session_id {
                proof {
                    lemma_id_index_at(s, session_id, i as int);
                    assert(s[i as int].id == session_id);
                }
                return Some(&self.list[i]);
            }
            i = i + 1;
        }
        proof {
            lemma_id_index_negative(s, session_id);
        }
        None
    }

    /// Moves the player of a session into another room; anything else about
    /// the registry stays as it was.  An unknown session changes nothing.
    #[verifier::loop_isolation(false)]
    pub fn set_room(&mut self, session_id: u32, room_id: u32)
        requires
            players_wf(old(self)@),
        ensures
            players_wf(final(self)@),
            final(self)@.len() == old(self)@.len(),
            ({
                let i = id_index(old(self)@, session_id);
                if id_in(old(self)@, session_id) {
                    &&& forall|j: int|
                        0 <= j < old(self)@.len() && j != i ==> final(self)@[j] == old(self)@[j]
                    &&& final(self)@[i].id == old(self)@[i].id
                    &&& final(self)@[i].username == old(self)@[i].username
                    &&& final(self)@[i].current_room == room_id
                } else {
                    final(self)@ == old(self)@
                }
            }),
    {
        let ghost s = self@;
        let mut i: usize = 0;
        while i < self.list.len()
            invariant
                i <= s.len(),
                self@ == s,
                s.len() == self.list@.len(),
                players_wf(s),
                forall|j: int| 0 <= j < i ==> s[j].id != session_id,
            decreases s.len() - i,
        {
            if self.list[i].id == session_id {
                proof {
                    lemma_id_index_at(s, session_id, i as int);
                    assert(s[i as int].id == session_id);
                }
                let mut p = self.list.remove(i);
                proof {
                    assert(p == s[i as int]);
                }
                p.current_room = room_id;
                let ghost pm = p;
                self.list.insert(i, p);
                proof {
                    assert(self@ =~= s.update(i as int, pm));
                    lemma_wf_update(s, i as int, pm);
                    assert(id_index(s, session_id) == i as int);
                    assert(forall|j: int|
                        0 <= j < s.len() && j != i as int ==> self@[j] == s[j]);
                    assert(self@[i as int].id == s[i as int].id);
                    assert(self@[i as int].username == s[i as int].username);
                    assert(self@[i as int].current_room == room_id);
                }
                return ;
            }
            i = i + 1;
        }
        proof {
            lemma_id_index_negative(s, session_id);
        }
    }
}

} // verus!
