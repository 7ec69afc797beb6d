use vstd::prelude::*;

use crate::config::ServerConfig;
use crate::player::{Player, PLAYER_SLOTS, SELF_PLAYER_ID};
use crate::protocol::{client_disconnect, disconnect_packet, identification_for, identification_packet};

verus! {

/// Where the search for a free slot ended, and after how many steps.
pub struct SlotChoice {
    pub slot: u8,
    pub attempts: u8,
}

/// The slot after `t` when slots `0..max_players - 1` are used in turn.
pub open spec fn next_slot(t: u8, max_players: u8) -> u8 {
    if t < max_players - 1 {
        (t + 1) as u8
    } else {
        0
    }
}

/// The search for a free slot from `t`: step to the next slot while `t` is taken and
/// fewer than `max_players` steps were made.
pub open spec fn slot_search(players: Seq<Player>, t: u8, attempts: u8, max_players: u8) -> (
    u8,
    u8,
)
    decreases max_players - attempts,
{
    if attempts < max_players && players[t as int].is_active() {
        slot_search(players, next_slot(t, max_players), (attempts + 1) as u8, max_players)
    } else {
        (t, attempts)
    }
}

proof fn lemma_slot_search(players: Seq<Player>, t: u8, attempts: u8, max_players: u8)
    requires
        players.len() == PLAYER_SLOTS,
        t < PLAYER_SLOTS,
        attempts <= max_players,
    ensures
        ({
            let (slot, n) = slot_search(players, t, attempts, max_players);
            &&& slot < PLAYER_SLOTS
            &&& n <= max_players
            &&& n < max_players ==> !players[slot as int].is_active()
        }),
    decreases max_players - attempts,
{
    if attempts < max_players && players[t as int].is_active() {
        lemma_slot_search(players, next_slot(t, max_players), (attempts + 1) as u8, max_players);
    }
}

/// Looks for a free slot for a new connection, starting at slot `start` and taking the
/// slots below `max_players - 1` in turn. The server is full when the search made
/// `max_players` steps; otherwise the slot it ends on is free.
pub fn choose_slot(players: &Vec<Player>, start: u8, max_players: u8) -> (r: SlotChoice)
    requires
        players.len() == PLAYER_SLOTS,
        start < PLAYER_SLOTS,
    ensures
        (r.slot, r.attempts) == slot_search(players@, start, 0, max_players),
        r.slot < PLAYER_SLOTS,
        r.attempts <= max_players,
        r.attempts < max_players ==> !players@[r.slot as int].is_active(),
{
    proof {
        lemma_slot_search(players@, start, 0, max_players);
    }
    let mut thread_number = start;
    let mut insertion_attempts: u8 = 0;
    while players[thread_number as usize].id != SELF_PLAYER_ID && insertion_attempts < max_players
        invariant
            players.len() == PLAYER_SLOTS,
            thread_number < PLAYER_SLOTS,
            insertion_attempts <= max_players,
            slot_search(players@, thread_number, insertion_attempts, max_players) == slot_search(
                players@,
                start,
                0,
                max_players,
            ),
        decreases max_players - insertion_attempts,
    {
        insertion_attempts += 1;
        if thread_number < max_players - 1 {
            thread_number += 1;
        } else {
            thread_number = 0;
        }
    }
    SlotChoice { slot: thread_number, attempts: insertion_attempts }
}

/// What a connection gets when the server is full: an identification, then a disconnect.
pub fn server_full_packets(config: &ServerConfig) -> (bytes: Vec<u8>)
    ensures
        bytes@ == identification_packet(config.name@, config.motd@, false) + disconnect_packet(
            "Server is full! Try again later"@,
        ),
{
    let mut bytes = identification_for(config, false);
    let mut bye = client_disconnect("Server is full! Try again later");
    bytes.append(&mut bye);
    bytes
}

} // verus!
