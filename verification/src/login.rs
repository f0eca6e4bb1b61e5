//! The login handshake's decisions: the prompt and reply lines, and the
//! one atomic step that checks the username and registers the player.
//!
//! The surrounding prompt/read loop is network I/O and lives outside the
//! crate; it asks `login_attempt` once per submitted name and sends back
//! whichever line comes out.

use vstd::prelude::*;

use crate::player::{
    is_lowest_free_id, players_wf, username_in, Player, Players, RegisterError,
};

verus! {

/// The username prompt, sent without a line terminator.
pub fn login_prompt_line() -> (r: String)
    ensures
        r@ == "Enter a username: "@,
{
    String::from_str("Enter a username: ")
}

/// The rejection a client hears when the username is connected already.
pub fn username_taken_line() -> (r: String)
    ensures
        r@ == "Username already taken. Try again."@,
{
    String::from_str("Username already taken. Try again.")
}

/// The greeting for a username that was accepted.
pub fn welcome_line(username: &str) -> (r: String)
    ensures
        r@ == "Welcome, "@ + username@,
{
    let mut r = String::from_str("Welcome, ");
    r.append(username);
    r
}

/// One login attempt: exactly when the username is not connected, the
/// player is registered under the lowest free session id and greeted;
/// otherwise nothing changes and the rejection line comes back for a
/// re-prompt.
pub fn login_attempt(players: &mut Players, username: String, starting_room: u32) -> (r: (
    Result<Player, RegisterError>,
    String,
))
    requires
        players_wf(old(players)@),
        old(players)@.len() < 0xFFFF_FFFEusize,
    ensures
        players_wf(final(players)@),
        match r.0 {
            Result::Err(e) => {
                &&& e == RegisterError::UsernameTaken
                &&& username_in(old(players)@, username@)
                &&& final(players)@ == old(players)@
                &&& r.1@ == "Username already taken. Try again."@
            },
            Result::Ok(p) => {
                &&& !username_in(old(players)@, username@)
                &&& p.username@ == username@
                &&& p.current_room == starting_room
                &&& is_lowest_free_id(old(players)@, p.id)
                &&& final(players)@ == old(players)@.push(p)
                &&& r.1@ == "Welcome, "@ + username@
            },
        },
{
    let name_copy = username.clone();
    match players.register(username, starting_room) {
        Err(e) => (Err(e), username_taken_line()),
        Ok(p) => {
            let greeting = welcome_line(name_copy.as_str());
            (Ok(p), greeting)
        },
    }
}

} // verus!
