use vstd::prelude::*;

verus! {

/// The player id that marks a free slot, and by which a client refers to itself.
pub const SELF_PLAYER_ID: u8 = 255;

/// Number of player slots the server keeps.
pub const PLAYER_SLOTS: usize = 255;

/// One player slot. A slot whose `id` is [`SELF_PLAYER_ID`] is free.
#[derive(Debug)]
pub struct Player {
    pub id: u8,
    pub username: String,
    pub verification_key: [u8; 64],
    pub unused: u8,
    pub position_x: i16,
    pub position_y: i16,
    pub position_z: i16,
    pub yaw: u8,
    pub pitch: u8,
    pub operator: bool,
    /// Bytes queued for this player's connection.
    pub outgoing_data: Vec<u8>,
}

impl Player {
    /// Whether the slot holds a connected player.
    pub open spec fn is_active(self) -> bool {
        self.id != SELF_PLAYER_ID
    }
}

/// Whether a slot is exactly the default player: free, with an empty name, a zeroed key,
/// at the origin, not an operator, and with nothing queued.
pub open spec fn is_default_player(p: Player) -> bool {
    &&& p.id == SELF_PLAYER_ID
    &&& p.username@ == Seq::<char>::empty()
    &&& p.verification_key@ == Seq::new(64, |i: int| 0u8)
    &&& p.unused == 0
    &&& p.position_x == 0
    &&& p.position_y == 0
    &&& p.position_z == 0
    &&& p.yaw == 0
    &&& p.pitch == 0
    &&& !p.operator
    &&& p.outgoing_data@ == Seq::<u8>::empty()
}

impl Default for Player {
    fn default() -> (p: Self)
        ensures
            p.id == SELF_PLAYER_ID,
            p.username@ == Seq::<char>::empty(),
            p.verification_key@ == Seq::new(64, |i: int| 0u8),
            p.unused == 0,
            p.position_x == 0,
            p.position_y == 0,
            p.position_z == 0,
            p.yaw == 0,
            p.pitch == 0,
            !p.operator,
            p.outgoing_data@ == Seq::<u8>::empty(),
    {
        let key = [0u8; 64];
        assert(key@ =~= Seq::new(64, |i: int| 0u8));
        Player {
            id: SELF_PLAYER_ID,
            username: String::new(),
            verification_key: key,
            unused: 0x00,
            position_x: 0,
            position_y: 0,
            position_z: 0,
            yaw: 0,
            pitch: 0,
            operator: false,
            outgoing_data: Vec::new(),
        }
    }
}

/// Player ids with a special meaning.
#[derive(Debug, Clone, Copy, PartialEq, Eq, Structural)]
pub enum SpecialPlayers {
    /// The id a client uses for itself, and the id of a free slot.
    SelfPlayer,
}

impl SpecialPlayers {
    /// The protocol id of the special player.
    pub fn id(self) -> (r: u8)
        ensures
            r == SELF_PLAYER_ID,
    {
        match self {
            SpecialPlayers::SelfPlayer => SELF_PLAYER_ID,
        }
    }
}

/// What a connection knows of another player slot.
#[derive(Debug, Clone, Copy, PartialEq, Eq, Structural)]
pub enum PlayerStatus {
    Disconnected,
    ConnectedSelf,
    Connected,
}

/// A full table of free player slots, as the server starts with.
pub fn new_player_table() -> (players: Vec<Player>)
    ensures
        players.len() == PLAYER_SLOTS,
        forall|i: int| 0 <= i < PLAYER_SLOTS ==> is_default_player(#[trigger] players@[i]),
{
    let mut players: Vec<Player> = Vec::new();
    while players.len() < PLAYER_SLOTS
        invariant
            players.len() <= PLAYER_SLOTS,
            forall|i: int| 0 <= i < players.len() ==> is_default_player(#[trigger] players@[i]),
        decreases PLAYER_SLOTS - players.len(),
    {
        players.push(Player::default());
    }
    players
}

/// All fields of a player but its queued bytes are the same.
pub open spec fn same_but_outgoing(a: Player, b: Player) -> bool {
    &&& a.id == b.id
    &&& a.username == b.username
    &&& a.verification_key == b.verification_key
    &&& a.unused == b.unused
    &&& a.position_x == b.position_x
    &&& a.position_y == b.position_y
    &&& a.position_z == b.position_z
    &&& a.yaw == b.yaw
    &&& a.pitch == b.pitch
    &&& a.operator == b.operator
}

/// Whether a broadcast that skips the player id `except` reaches a slot.
pub open spec fn receives(p: Player, except: Option<u8>) -> bool {
    p.is_active() && match except {
        Some(id) => p.id != id,
        None => true,
    }
}

/// `after` is `before` with `bytes` queued for every connected player whose id is not
/// `except`.
pub open spec fn broadcast_to(
    before: Seq<Player>,
    after: Seq<Player>,
    except: Option<u8>,
    bytes: Seq<u8>,
) -> bool {
    &&& after.len() == before.len()
    &&& forall|i: int|
        0 <= i < before.len() ==> if receives(#[trigger] before[i], except) {
            same_but_outgoing(after[i], before[i]) && after[i].outgoing_data@
                == before[i].outgoing_data@ + bytes
        } else {
            after[i] == before[i]
        }
}

/// Queues `bytes` for every connected player whose id is not `except`.
pub fn broadcast(players: &mut Vec<Player>, except: Option<u8>, bytes: &Vec<u8>)
    ensures
        broadcast_to(old(players)@, final(players)@, except, bytes@),
{
    let ghost start = players@;
    let mut i: usize = 0;
    while i < players.len()
        invariant
            players.len() == start.len(),
            i <= players.len(),
            forall|j: int|
                0 <= j < i ==> if receives(#[trigger] start[j], except) {
                    same_but_outgoing(players@[j], start[j]) && players@[j].outgoing_data@
                        == start[j].outgoing_data@ + bytes@
                } else {
                    players@[j] == start[j]
                },
            forall|j: int| i <= j < players.len() ==> #[trigger] players@[j] == start[j],
        decreases players.len() - i,
    {
        let skip = match except {
            Some(id) => players[i].id == id,
            None => false,
        };
        if players[i].id != SELF_PLAYER_ID && !skip {
            players[i].outgoing_data.extend_from_slice(bytes.as_slice());
        }
        i += 1;
    }
}

} // verus!
