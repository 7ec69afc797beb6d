use vstd::prelude::*;

verus! {

/// The whole server configuration: a `[server]` table and a `[world]` table.
#[derive(Clone, Debug)]
pub struct Config {
    pub server: ServerConfig,
    pub world: WorldConfig,
}

/// Settings of the server as the clients see it.
#[derive(Clone, Debug)]
pub struct ServerConfig {
    pub port: u16,
    /// How many player slots are handed out; 255 is the most the protocol allows.
    pub max_players: u8,
    pub name: String,
    pub motd: String,
}

/// Where the world is stored and the size a new world is generated with.
#[derive(Clone, Debug)]
pub struct WorldConfig {
    pub world: String,
    pub size_x: i16,
    pub size_y: i16,
    pub size_z: i16,
}

} // verus!
