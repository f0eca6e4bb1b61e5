//! Session layer for a multiplayer text game.
//!
//! The crate provides the pieces that sit between raw client byte streams and
//! a single authoritative game state: a resumable telnet-style frame codec, a
//! command interpreter, a player registry, a room/mobile world model, and the
//! action dispatcher that turns one command into outbound messages.  All I/O
//! (sockets, channels, configuration) lives outside the crate; every function
//! here is a pure state transition with a proved contract.

pub mod actions;
pub mod area;
pub mod game_loop;
pub mod login;
pub mod message;
pub mod mobiles;
pub mod player;
pub mod room;
pub mod telnet;
pub mod text;
pub mod world;
