//! Protocol, world and session logic of a Minecraft Classic server, with its contracts.

use vstd::prelude::*;

pub mod protocol;
pub mod text;
pub mod config;
pub mod player;
pub mod world;
pub mod level;
pub mod command;
pub mod session;
pub mod server;
pub mod extensions;
pub mod version;

verus! {

} // verus!
