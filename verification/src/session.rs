use vstd::prelude::*;

use crate::config::ServerConfig;
use crate::extensions::{Event, Vec3};
use crate::level::{bomb_server_details, chunkable, gzip_fast, level_payload, server_details};
use crate::player::{
    broadcast, broadcast_to, same_but_outgoing, Player, PlayerStatus, PLAYER_SLOTS, SELF_PLAYER_ID,
};
use crate::protocol::{
    be_i16, block_update, block_update_packet, byte_char, chat_message_chars, chat_packet,
    chat_text, client_disconnect, despawn_packet, despawn_player, disconnect_packet,
    position_packet, read_short, set_position_and_orientation, spawn_packet, spawn_player,
};
use crate::text::{chars_of, push_str_chars, string_from_chars, trim_chars, trimmed};
use crate::world::{block_index, World};

verus! {

/// What one client connection knows of the other player slots.
pub struct Session {
    /// The slot of the connected client.
    pub client: u8,
    /// For each slot, whether the client has been shown that player.
    pub statuses: Vec<PlayerStatus>,
    /// The slots that were taken when the client connected; they are spawned for it as soon
    /// as it has identified itself.
    pub immediate_join: Vec<bool>,
}

/// What a packet handler sends back, and whether the connection ends.
pub struct Reply {
    pub bytes: Vec<u8>,
    pub disconnect: bool,
}

impl Session {
    /// A session whose tables cover every slot.
    pub open spec fn wf(&self) -> bool {
        &&& self.client < PLAYER_SLOTS
        &&& self.statuses.len() == PLAYER_SLOTS
        &&& self.immediate_join.len() == PLAYER_SLOTS
    }

    /// The session shows exactly the connected players: apart from the client's own slot,
    /// a slot is `Connected` when it holds a player and `Disconnected` when it is free.
    pub open spec fn agrees_with(&self, players: Seq<Player>) -> bool {
        forall|i: int|
            0 <= i < PLAYER_SLOTS && #[trigger] self.statuses@[i] != PlayerStatus::ConnectedSelf
                ==> (self.statuses@[i] == PlayerStatus::Connected <==> players[i].is_active())
    }
}

/// Status of a slot when a client connects.
pub open spec fn initial_status(players: Seq<Player>, client: u8, i: int) -> PlayerStatus {
    if i == client {
        PlayerStatus::ConnectedSelf
    } else if players[i].is_active() {
        PlayerStatus::Connected
    } else {
        PlayerStatus::Disconnected
    }
}

/// Chat line announcing a player.
pub open spec fn join_text(name: Seq<char>) -> Seq<char> {
    name + " has joined the game!"@
}

/// Chat line announcing that a player left.
pub open spec fn leave_text(name: Seq<char>) -> Seq<char> {
    name + " has left the game!"@
}

/// Status of slot after a sync: a newly taken slot becomes `Connected`, a newly freed one
/// `Disconnected`.
pub open spec fn synced_status(p: Player, s: PlayerStatus) -> PlayerStatus {
    if p.is_active() {
        if s == PlayerStatus::Disconnected {
            PlayerStatus::Connected
        } else {
            s
        }
    } else if s == PlayerStatus::Connected {
        PlayerStatus::Disconnected
    } else {
        s
    }
}

/// Packets a sync sends about slot `i`: a spawn and a join line for a newly seen player,
/// a despawn and a leave line for one that left, then the position of every connected one.
pub open spec fn sync_packets(p: Player, i: int, s: PlayerStatus) -> Seq<u8> {
    let change = if p.is_active() && s == PlayerStatus::Disconnected {
        spawn_packet(p.id, p.username@, p.position_x, p.position_y, p.position_z, p.yaw, p.pitch)
            + chat_packet(p.id, join_text(p.username@))
    } else if !p.is_active() && s == PlayerStatus::Connected {
        despawn_packet(i as u8) + chat_packet(i as u8, leave_text(p.username@))
    } else {
        Seq::empty()
    };
    change + if synced_status(p, s) == PlayerStatus::Connected {
        position_packet(p.id, p.position_x, p.position_y, p.position_z, p.yaw, p.pitch)
    } else {
        Seq::empty()
    }
}

/// Packets of a sync about the first `n` slots.
pub open spec fn sync_all(players: Seq<Player>, statuses: Seq<PlayerStatus>, n: int) -> Seq<u8>
    decreases n,
{
    if n <= 0 {
        Seq::empty()
    } else {
        sync_all(players, statuses, n - 1) + sync_packets(players[n - 1], n - 1, statuses[n - 1])
    }
}

/// Spawn packets for the first `n` slots marked to join at once.
pub open spec fn join_spawns(players: Seq<Player>, join: Seq<bool>, n: int) -> Seq<u8>
    decreases n,
{
    if n <= 0 {
        Seq::empty()
    } else {
        join_spawns(players, join, n - 1) + if join[n - 1] {
            let p = players[n - 1];
            spawn_packet(p.id, p.username@, p.position_x, p.position_y, p.position_z, p.yaw, p.pitch)
        } else {
            Seq::empty()
        }
    }
}

impl Session {
    /// The session of a client that has just taken slot `client_number`: every other taken
    /// slot is shown as connected and will be spawned once the client identifies.
    pub fn new(players: &Vec<Player>, client_number: u8) -> (s: Session)
        requires
            players.len() == PLAYER_SLOTS,
            client_number < PLAYER_SLOTS,
        ensures
            s.wf(),
            s.client == client_number,
            forall|i: int|
                0 <= i < PLAYER_SLOTS ==> #[trigger] s.statuses@[i] == initial_status(
                    players@,
                    client_number,
                    i,
                ),
            forall|i: int|
                0 <= i < PLAYER_SLOTS ==> #[trigger] s.immediate_join@[i] == players@[i].is_active(),
            s.agrees_with(players@),
    {
        let mut statuses: Vec<PlayerStatus> = Vec::new();
        let mut immediate_join: Vec<bool> = Vec::new();
        let mut i: usize = 0;
        while i < PLAYER_SLOTS
            invariant
                players.len() == PLAYER_SLOTS,
                client_number < PLAYER_SLOTS,
                i <= PLAYER_SLOTS,
                statuses.len() == i,
                immediate_join.len() == i,
                forall|j: int|
                    0 <= j < i ==> #[trigger] statuses@[j] == initial_status(
                        players@,
                        client_number,
                        j,
                    ),
                forall|j: int| 0 <= j < i ==> #[trigger] immediate_join@[j] == players@[j].is_active(),
            decreases PLAYER_SLOTS - i,
        {
            let active = players[i].id != SELF_PLAYER_ID;
            immediate_join.push(active);
            if i == client_number as usize {
                statuses.push(PlayerStatus::ConnectedSelf);
            } else if active {
                statuses.push(PlayerStatus::Connected);
            } else {
                statuses.push(PlayerStatus::Disconnected);
            }
            i += 1;
        }
        Session { client: client_number, statuses, immediate_join }
    }

    /// One sync of the connection: the client's queued bytes, then for every slot in order
    /// the packets that bring the client's view up to date. The queue is emptied.
    pub fn sync(&mut self, players: &mut Vec<Player>) -> (bytes: Vec<u8>)
        requires
            old(self).wf(),
            old(players).len() == PLAYER_SLOTS,
        ensures
            final(self).wf(),
            final(self).client == old(self).client,
            final(self).immediate_join == old(self).immediate_join,
            forall|i: int|
                0 <= i < PLAYER_SLOTS ==> #[trigger] final(self).statuses@[i] == synced_status(
                    old(players)@[i],
                    old(self).statuses@[i],
                ),
            bytes@ == old(players)@[old(self).client as int].outgoing_data@ + sync_all(
                old(players)@,
                old(self).statuses@,
                PLAYER_SLOTS as int,
            ),
            final(players).len() == PLAYER_SLOTS,
            final(players)@[old(self).client as int].outgoing_data@ == Seq::<u8>::empty(),
            forall|i: int|
                0 <= i < PLAYER_SLOTS ==> same_but_outgoing(
                    #[trigger] final(players)@[i],
                    old(players)@[i],
                ),
            forall|i: int|
                0 <= i < PLAYER_SLOTS && i != old(self).client ==> #[trigger] final(players)@[i]
                    == old(players)@[i],
            final(self).agrees_with(final(players)@),
    {
        let c = self.client as usize;
        let mut bytes: Vec<u8> = Vec::new();
        std::mem::swap(&mut bytes, &mut players[c].outgoing_data);
        let ghost start = players@;
        let ghost old_statuses = self.statuses@;
        let mut i: usize = 0;
        while i < PLAYER_SLOTS
            invariant
                self.wf(),
                self.client == c,
                self.immediate_join == old(self).immediate_join,
                players@ == start,
                start.len() == PLAYER_SLOTS,
                i <= PLAYER_SLOTS,
                bytes@ == old(players)@[c as int].outgoing_data@ + sync_all(
                    start,
                    old_statuses,
                    i as int,
                ),
                forall|j: int|
                    0 <= j < i ==> #[trigger] self.statuses@[j] == synced_status(
                        start[j],
                        old_statuses[j],
                    ),
                forall|j: int| i <= j < PLAYER_SLOTS ==> #[trigger] self.statuses@[j] == old_statuses[j],
                forall|j: int| 0 <= j < PLAYER_SLOTS ==> same_but_outgoing(#[trigger] start[j], old(players)@[j]),
            decreases PLAYER_SLOTS - i,
        {
            let ghost before = bytes@;
            let p = &players[i];
            let status = self.statuses[i];
            let mut new_status = status;
            if p.id != SELF_PLAYER_ID {
                if status == PlayerStatus::Disconnected {
                    let mut spawn = spawn_player(
                        p.id,
                        p.username.as_str(),
                        p.position_x,
                        p.position_y,
                        p.position_z,
                        p.yaw,
                        p.pitch,
                    );
                    bytes.append(&mut spawn);
                    new_status = PlayerStatus::Connected;
                    let mut text = chars_of(p.username.as_str());
                    push_str_chars(&mut text, " has joined the game!");
                    let empty: Vec<char> = Vec::new();
                    let mut line = chat_message_chars(p.id, &empty, &text);
                    bytes.append(&mut line);
                }
            } else if status == PlayerStatus::Connected {
                let slot = i as u8;
                let mut gone = despawn_player(slot);
                bytes.append(&mut gone);
                let mut text = chars_of(p.username.as_str());
                push_str_chars(&mut text, " has left the game!");
                let empty: Vec<char> = Vec::new();
                let mut line = chat_message_chars(slot, &empty, &text);
                bytes.append(&mut line);
                new_status = PlayerStatus::Disconnected;
            }
            if new_status == PlayerStatus::Connected {
                let mut pos = set_position_and_orientation(
                    p.id,
                    p.position_x,
                    p.position_y,
                    p.position_z,
                    p.yaw,
                    p.pitch,
                );
                bytes.append(&mut pos);
            }
            self.statuses.set(i, new_status);
            assert(bytes@ =~= before + sync_packets(start[i as int], i as int, old_statuses[i as int]));
            i += 1;
        }
        proof {
            lemma_sync_all_ignores_queues(start, old(players)@, old_statuses, PLAYER_SLOTS as int);
        }
        bytes
    }
}

proof fn lemma_sync_all_ignores_queues(
    a: Seq<Player>,
    b: Seq<Player>,
    statuses: Seq<PlayerStatus>,
    n: int,
)
    requires
        n <= a.len(),
        a.len() == b.len(),
        forall|j: int| 0 <= j < a.len() ==> same_but_outgoing(#[trigger] a[j], b[j]),
    ensures
        sync_all(a, statuses, n) == sync_all(b, statuses, n),
    decreases n,
{
    if n > 0 {
        lemma_sync_all_ignores_queues(a, b, statuses, n - 1);
        assert(same_but_outgoing(a[n - 1], b[n - 1]));
        assert(sync_packets(a[n - 1], n - 1, statuses[n - 1]) == sync_packets(
            b[n - 1],
            n - 1,
            statuses[n - 1],
        ));
    }
}

/// Reason given to a client that identifies with another protocol version.
pub open spec fn bad_version_reason() -> Seq<char> {
    "Something went wrong (Type 0x00 expected ver 7, something else was received, contact server admin)"@
}

/// Reason given to a client that claims to be another player.
pub open spec fn spoof_reason() -> Seq<char> {
    "Evil bit level hacking"@
}

/// Reason given to a client that places a block outside the world.
pub open spec fn out_of_world_reason() -> Seq<char> {
    "Block position was not within world bounds, naughty boy"@
}

/// Length of the payload that follows a packet id from a client, for the packets the
/// server understands.
pub fn payload_len(packet_id: u8) -> (r: Option<usize>)
    ensures
        r == (if packet_id == 0x00 {
            Some(130usize)
        } else if packet_id == 0x05 {
            Some(8usize)
        } else if packet_id == 0x08 {
            Some(9usize)
        } else if packet_id == 0x0D {
            Some(65usize)
        } else {
            None::<usize>
        }),
{
    if packet_id == 0x00 {
        Some(130)
    } else if packet_id == 0x05 {
        Some(8)
    } else if packet_id == 0x08 {
        Some(9)
    } else if packet_id == 0x0D {
        Some(65)
    } else {
        None
    }
}

/// The 64 characters of a protocol string that starts at `start` in a payload.
pub open spec fn payload_text(payload: Seq<u8>, start: int) -> Seq<char> {
    Seq::new(64, |i: int| byte_char(payload[start + i]))
}

/// Reads the 64 characters of a protocol string.
pub fn read_text(payload: &Vec<u8>, start: usize) -> (text: Vec<char>)
    requires
        start + 64 <= payload.len(),
    ensures
        text@ == payload_text(payload@, start as int),
{
    let mut text: Vec<char> = Vec::new();
    let mut i: usize = 0;
    while i < 64
        invariant
            start + 64 <= payload.len(),
            i <= 64,
            text@ == payload_text(payload@, start as int).take(i as int),
        decreases 64 - i,
    {
        text.push(payload[start + i] as char);
        i += 1;
    }
    text
}

/// The slot of a client that identified with `payload`: it takes the client's id, the
/// trimmed name, the verification key, and starts at (0, 128, 0) as an operator.
pub open spec fn identified(before: Player, after: Player, client: u8, payload: Seq<u8>) -> bool {
    &&& after.id == client
    &&& after.username@ == trimmed(payload_text(payload, 1))
    &&& after.verification_key@ == payload.subrange(65, 129)
    &&& after.unused == payload[129]
    &&& after.position_x == 0
    &&& after.position_y == 128
    &&& after.position_z == 0
    &&& after.yaw == 0
    &&& after.pitch == 0
    &&& after.operator
    &&& after.outgoing_data == before.outgoing_data
}

/// The slot after a position packet: the new position and orientation.
pub open spec fn moved(before: Player, after: Player, payload: Seq<u8>) -> bool {
    &&& after.position_x == be_i16(payload[1], payload[2])
    &&& after.position_y == be_i16(payload[3], payload[4])
    &&& after.position_z == be_i16(payload[5], payload[6])
    &&& after.yaw == payload[7]
    &&& after.pitch == payload[8]
    &&& after.id == before.id
    &&& after.username == before.username
    &&& after.verification_key == before.verification_key
    &&& after.unused == before.unused
    &&& after.operator == before.operator
    &&& after.outgoing_data == before.outgoing_data
}

/// What a chat packet asks of the connection.
pub enum ChatOutcome {
    /// Close the connection after sending these bytes.
    Disconnect(Vec<u8>),
    /// Run this command line (the message without its leading '/').
    Command(String),
    /// The message went to the other players; send these bytes back to the sender.
    Said(Vec<u8>),
}

/// A block change asked for by a client.
pub struct BlockChange {
    pub x: i16,
    pub y: i16,
    pub z: i16,
    /// 0 destroys the block, anything else places `block_type`.
    pub mode: u8,
    pub block_type: u8,
}

/// Reads a block change packet.
pub fn parse_block_change(payload: &Vec<u8>) -> (c: BlockChange)
    requires
        payload.len() == 8,
    ensures
        c.x == be_i16(payload@[0], payload@[1]),
        c.y == be_i16(payload@[2], payload@[3]),
        c.z == be_i16(payload@[4], payload@[5]),
        c.mode == payload@[6],
        c.block_type == payload@[7],
{
    BlockChange {
        x: read_short(payload[0], payload[1]),
        y: read_short(payload[2], payload[3]),
        z: read_short(payload[4], payload[5]),
        mode: payload[6],
        block_type: payload[7],
    }
}

/// Whether a block change lies beyond the world's sizes (the check the server makes).
pub open spec fn beyond_world(world: &World, c: &BlockChange) -> bool {
    c.x > world.size_x || c.y > world.size_y || c.z > world.size_z
}

impl Session {
    /// Handles the identification packet of the client.
    pub fn identify(
        &self,
        players: &mut Vec<Player>,
        config: &ServerConfig,
        world: &World,
        payload: &Vec<u8>,
    ) -> (r: Reply)
        requires
            self.wf(),
            old(players).len() == PLAYER_SLOTS,
            payload.len() == 130,
        ensures
            final(players).len() == PLAYER_SLOTS,
            payload@[0] != 7 ==> r.disconnect && r.bytes@ == disconnect_packet(bad_version_reason())
                && final(players)@ == old(players)@,
            payload@[0] == 7 ==> {
                let c = self.client as int;
                let after = final(players)@;
                let spawns = join_spawns(after, self.immediate_join@, PLAYER_SLOTS as int);
                &&& !r.disconnect
                &&& identified(old(players)@[c], after[c], self.client, payload@)
                &&& forall|j: int| 0 <= j < PLAYER_SLOTS && j != c ==> after[j] == old(players)@[j]
                &&& chunkable(gzip_fast(level_payload(world.data@)).len()) ==> r.bytes@
                    == server_details(config, &after[c], world) + spawns
                &&& !chunkable(gzip_fast(level_payload(world.data@)).len()) ==> r.bytes@
                    == spawns
            },
    {
        if payload[0] != 7 {
            return Reply { bytes: client_disconnect(
                "Something went wrong (Type 0x00 expected ver 7, something else was received, contact server admin)",
            ), disconnect: true };
        }
        let raw_name = read_text(payload, 1);
        let name = trim_chars(&raw_name);
        let mut key = [0u8; 64];
        let mut i: usize = 0;
        while i < 64
            invariant
                payload.len() == 130,
                i <= 64,
                key@.len() == 64,
                forall|j: int| 0 <= j < i ==> key@[j] == payload@[65 + j],
            decreases 64 - i,
        {
            key[i] = payload[65 + i];
            i += 1;
        }
        assert(key@ =~= payload@.subrange(65, 129));
        let c = self.client as usize;
        let ghost before = players@;
        players[c].id = self.client;
        players[c].username = string_from_chars(&name);
        players[c].verification_key = key;
        players[c].unused = payload[129];
        players[c].position_x = 0;
        players[c].position_y = 128;
        players[c].position_z = 0;
        players[c].yaw = 0;
        players[c].pitch = 0;
        players[c].operator = true;
        let mut bytes: Vec<u8> = match bomb_server_details(config, &players[c], world) {
            Some(b) => b,
            None => Vec::new(),
        };
        let ghost details = bytes@;
        let mut i: usize = 0;
        while i < PLAYER_SLOTS
            invariant
                self.wf(),
                players.len() == PLAYER_SLOTS,
                i <= PLAYER_SLOTS,
                bytes@ == details + join_spawns(players@, self.immediate_join@, i as int),
            decreases PLAYER_SLOTS - i,
        {
            if self.immediate_join[i] {
                let p = &players[i];
                let mut spawn = spawn_player(
                    p.id,
                    p.username.as_str(),
                    p.position_x,
                    p.position_y,
                    p.position_z,
                    p.yaw,
                    p.pitch,
                );
                bytes.append(&mut spawn);
            }
            i += 1;
        }
        Reply { bytes, disconnect: false }
    }

    /// Handles a position packet of the client; one that claims another player id ends
    /// the connection.
    pub fn update_position(&self, players: &mut Vec<Player>, payload: &Vec<u8>) -> (r: Reply)
        requires
            self.wf(),
            old(players).len() == PLAYER_SLOTS,
            payload.len() == 9,
        ensures
            final(players).len() == PLAYER_SLOTS,
            payload@[0] != SELF_PLAYER_ID ==> r.disconnect && r.bytes@ == disconnect_packet(
                spoof_reason(),
            ) && final(players)@ == old(players)@,
            payload@[0] == SELF_PLAYER_ID ==> {
                let c = self.client as int;
                &&& !r.disconnect
                &&& r.bytes@ == Seq::<u8>::empty()
                &&& moved(old(players)@[c], final(players)@[c], payload@)
                &&& forall|j: int|
                    0 <= j < PLAYER_SLOTS && j != c ==> final(players)@[j] == old(players)@[j]
            },
    {
        if payload[0] != SELF_PLAYER_ID {
            return Reply { bytes: client_disconnect(
                "Evil bit level hacking",
            ), disconnect: true };
        }
        let c = self.client as usize;
        players[c].position_x = read_short(payload[1], payload[2]);
        players[c].position_y = read_short(payload[3], payload[4]);
        players[c].position_z = read_short(payload[5], payload[6]);
        players[c].yaw = payload[7];
        players[c].pitch = payload[8];
        Reply { bytes: Vec::new(), disconnect: false }
    }

    /// Handles a chat packet of the client: a line starting with '/' is a command; any
    /// other goes to every other connected player under the sender's name and id, and back
    /// to the sender under the server's id.
    pub fn chat(&self, players: &mut Vec<Player>, payload: &Vec<u8>) -> (r: ChatOutcome)
        requires
            self.wf(),
            old(players).len() == PLAYER_SLOTS,
            payload.len() == 65,
        ensures
            ({
                let message = payload_text(payload@, 1);
                let sender = old(players)@[self.client as int];
                if payload@[0] != SELF_PLAYER_ID {
                    &&& r matches ChatOutcome::Disconnect(b) && b@ == disconnect_packet(spoof_reason())
                    &&& final(players)@ == old(players)@
                } else if message[0] == '/' {
                    &&& r matches ChatOutcome::Command(line) && line@ == message.subrange(1, 64)
                    &&& final(players)@ == old(players)@
                } else {
                    let text = chat_text(sender.username@, message);
                    &&& r matches ChatOutcome::Said(b) && b@ == chat_packet(SELF_PLAYER_ID, text)
                    &&& broadcast_to(
                        old(players)@,
                        final(players)@,
                        Some(self.client),
                        chat_packet(sender.id, text),
                    )
                }
            }),
    {
        if payload[0] != SELF_PLAYER_ID {
            return ChatOutcome::Disconnect(client_disconnect(
                "Evil bit level hacking",
            ));
        }
        let message = read_text(payload, 1);
        if message[0] == '/' {
            let mut rest: Vec<char> = Vec::new();
            let mut i: usize = 1;
            while i < 64
                invariant
                    message.len() == 64,
                    1 <= i <= 64,
                    rest@ == message@.subrange(1, i as int),
                decreases 64 - i,
            {
                rest.push(message[i]);
                i += 1;
            }
            return ChatOutcome::Command(string_from_chars(&rest));
        }
        let c = self.client as usize;
        let sender_id = players[c].id;
        let sender_name = chars_of(players[c].username.as_str());
        let line = chat_message_chars(sender_id, &sender_name, &message);
        broadcast(players, Some(self.client), &line);
        ChatOutcome::Said(chat_message_chars(SELF_PLAYER_ID, &sender_name, &message))
    }

    /// Applies a block change of the client, after the block-break listeners decided
    /// `cancelled` (which only counts when the change destroys a block). A change beyond
    /// the world ends the connection; a cancelled one sends the client the block that stays;
    /// any other sets the block (air when destroying) and tells every other connected
    /// player. `None` where the cell index leaves `u32` or the cells, which the server
    /// cannot handle.
    pub fn apply_block_change(
        &self,
        world: &mut World,
        players: &mut Vec<Player>,
        change: &BlockChange,
        cancelled: bool,
    ) -> (r: Option<Reply>)
        requires
            self.wf(),
            old(players).len() == PLAYER_SLOTS,
        ensures
            ({
                let is_cancelled = change.mode == 0 && cancelled;
                let block: u8 = if change.mode == 0 {
                    0
                } else {
                    change.block_type
                };
                if beyond_world(old(world), change) {
                    &&& r matches Some(reply) && reply.disconnect && reply.bytes@ == disconnect_packet(
                        out_of_world_reason(),
                    )
                    &&& final(world)@ == old(world)@
                    &&& final(players)@ == old(players)@
                } else {
                    match block_index(old(world)@, change.x, change.y, change.z) {
                        None => r is None && final(world)@ == old(world)@ && final(players)@ == old(
                            players,
                        )@,
                        Some(k) => if is_cancelled {
                            &&& r matches Some(reply) && !reply.disconnect && reply.bytes@
                                == block_update_packet(
                                change.x,
                                change.y,
                                change.z,
                                old(world)@.data[k],
                            )
                            &&& final(world)@ == old(world)@
                            &&& final(players)@ == old(players)@
                        } else {
                            &&& r matches Some(reply) && !reply.disconnect && reply.bytes@
                                == Seq::<u8>::empty()
                            &&& final(world).size_x == old(world).size_x
                            &&& final(world).size_y == old(world).size_y
                            &&& final(world).size_z == old(world).size_z
                            &&& final(world).data@ == old(world).data@.update(k, block)
                            &&& broadcast_to(
                                old(players)@,
                                final(players)@,
                                Some(self.client),
                                block_update_packet(change.x, change.y, change.z, block),
                            )
                        },
                    }
                }
            }),
    {
        let is_cancelled = change.mode == 0 && cancelled;
        let block: u8 = if change.mode == 0 {
            0
        } else {
            change.block_type
        };
        if change.x > world.size_x || change.y > world.size_y || change.z > world.size_z {
            return Some(Reply { bytes: client_disconnect(
                "Block position was not within world bounds, naughty boy",
            ), disconnect: true });
        }
        let offset = match world.block_offset(change.x, change.y, change.z) {
            Some(o) => o,
            None => return None,
        };
        if !is_cancelled {
            world.data.set(offset, block);
            let update = block_update(change.x, change.y, change.z, block);
            broadcast(players, Some(self.client), &update);
            Some(Reply { bytes: Vec::new(), disconnect: false })
        } else {
            let previous = world.data[offset];
            Some(
                Reply {
                    bytes: block_update(change.x, change.y, change.z, previous),
                    disconnect: false,
                },
            )
        }
    }
}

/// Frees the client's slot when its connection ends.
pub fn release_slot(players: &mut Vec<Player>, client_number: u8)
    requires
        client_number < old(players).len(),
    ensures
        final(players).len() == old(players).len(),
        final(players)@[client_number as int].id == SELF_PLAYER_ID,
        same_but_id(old(players)@[client_number as int], final(players)@[client_number as int]),
        forall|j: int|
            0 <= j < old(players).len() && j != client_number ==> final(players)@[j] == old(
                players,
            )@[j],
{
    players[client_number as usize].id = SELF_PLAYER_ID;
}

/// The event the listeners get when a client breaks a block (a change with mode 0); `None`
/// for a placed block, which raises no event.
pub fn block_break_event(client_number: u8, change: &BlockChange) -> (e: Option<Event>)
    ensures
        change.mode != 0 ==> e is None,
        change.mode == 0 ==> e == Some(
            Event {
                player: client_number,
                position: Vec3 { x: change.x, y: change.y, z: change.z },
                selected_block: change.block_type,
                is_cancelled: false,
            },
        ),
{
    if change.mode != 0 {
        return None;
    }
    let mut event = Event::new();
    event.player = client_number;
    event.position = Vec3 { x: change.x, y: change.y, z: change.z };
    event.selected_block = change.block_type;
    Some(event)
}

/// The event the listeners get when a client's connection ends.
pub fn leave_event(client_number: u8) -> (e: Event)
    ensures
        e == (Event {
            player: client_number,
            position: Vec3 { x: 0, y: 0, z: 0 },
            selected_block: 0,
            is_cancelled: false,
        }),
{
    let mut event = Event::new();
    event.player = client_number;
    event
}

/// All fields of a player but its id are the same.
pub open spec fn same_but_id(a: Player, b: Player) -> bool {
    &&& a.username == b.username
    &&& a.verification_key == b.verification_key
    &&& a.unused == b.unused
    &&& a.position_x == b.position_x
    &&& a.position_y == b.position_y
    &&& a.position_z == b.position_z
    &&& a.yaw == b.yaw
    &&& a.pitch == b.pitch
    &&& a.operator == b.operator
    &&& a.outgoing_data == b.outgoing_data
}

} // verus!
