use vstd::prelude::*;

use crate::config::ServerConfig;
use crate::player::SELF_PLAYER_ID;
use crate::text::chars_of;
use crate::world::World;

verus! {

/// Byte of a character on the wire: its code point truncated to eight bits.
pub open spec fn char_byte(c: char) -> u8 {
    ((c as u32) % 256) as u8
}

/// Fixed 64-byte protocol string: the first 64 characters, one byte each, padded with spaces.
pub open spec fn mc_string(text: Seq<char>) -> Seq<u8> {
    Seq::new(64, |i: int| if i < text.len() { char_byte(text[i]) } else { 0x20u8 })
}

/// The two's complement bit pattern of a signed 16-bit value, as a number.
pub open spec fn twos_complement(data: i16) -> int {
    if data < 0 {
        data + 0x1_0000
    } else {
        data as int
    }
}

/// The two bytes of a signed 16-bit value in network (big-endian) order.
pub open spec fn short_bytes(data: i16) -> Seq<u8> {
    seq![(twos_complement(data) / 256) as u8, (twos_complement(data) % 256) as u8]
}

/// The signed 16-bit value whose big-endian bytes are `hi` and `lo`.
pub open spec fn be_i16(hi: u8, lo: u8) -> i16 {
    let v = hi * 256 + lo;
    if v >= 0x8000 {
        (v - 0x1_0000) as i16
    } else {
        v as i16
    }
}

/// One character as a protocol byte.
pub fn char_to_byte(c: char) -> (b: u8)
    ensures
        b == char_byte(c),
{
    let u = c as u32;
    let b = (u & 0xff) as u8;
    assert(b == (u % 256) as u8) by (bit_vector)
        requires
            b == (u & 0xff) as u8,
    ;
    b
}

/// The protocol string of a sequence of characters.
pub fn mc_string_of(text: &Vec<char>) -> (out: [u8; 64])
    ensures
        out@ == mc_string(text@),
{
    let mut out = [0x20u8; 64];
    let n = if text.len() < 64 {
        text.len()
    } else {
        64
    };
    let mut i: usize = 0;
    while i < n
        invariant
            n <= 64,
            n <= text.len(),
            n == 64 || n == text.len(),
            i <= n,
            out@.len() == 64,
            forall|j: int| 0 <= j < i ==> out@[j] == char_byte(text@[j]),
            forall|j: int| i <= j < 64 ==> out@[j] == 0x20u8,
        decreases n - i,
    {
        out[i] = char_to_byte(text[i]);
        i += 1;
    }
    assert(out@ =~= mc_string(text@));
    out
}

/// Encodes text as a fixed 64-byte protocol string: at most 64 characters are kept, each
/// as the low byte of its code point, and the rest is padded with spaces.
pub fn to_mc_string(text: &str) -> (out: [u8; 64])
    ensures
        out@ == mc_string(text@),
{
    let chars = chars_of(text);
    mc_string_of(&chars)
}

/// Appends a 64-byte protocol string to a packet.
pub fn push_mc_string(buf: &mut Vec<u8>, text: &Vec<char>)
    ensures
        final(buf)@ == old(buf)@ + mc_string(text@),
{
    let s = mc_string_of(text);
    let mut i: usize = 0;
    let ghost start = buf@;
    while i < 64
        invariant
            s@ == mc_string(text@),
            i <= 64,
            buf@ == start + s@.take(i as int),
        decreases 64 - i,
    {
        buf.push(s[i]);
        i += 1;
    }
    assert(s@.take(64) =~= s@);
}

/// Encodes a signed 16-bit integer as two big-endian bytes.
pub fn stream_write_short(data: i16) -> (bytes: Vec<u8>)
    ensures
        bytes@ == short_bytes(data),
{
    let hi = (data >> 8u32) as u8;
    let lo = (data & 0x00FF) as u8;
    assert(data < 0 ==> hi == ((data + 0x1_0000) / 256) as u8 && lo == ((data + 0x1_0000) % 256) as u8)
        by (bit_vector)
        requires
            hi == (data >> 8u32) as u8,
            lo == (data & 0x00FF) as u8,
    ;
    assert(data >= 0 ==> hi == (data / 256) as u8 && lo == (data % 256) as u8) by (bit_vector)
        requires
            hi == (data >> 8u32) as u8,
            lo == (data & 0x00FF) as u8,
    ;
    let mut v: Vec<u8> = Vec::new();
    v.push(hi);
    v.push(lo);
    assert(v@ =~= short_bytes(data));
    v
}

/// Appends the big-endian bytes of a short to a packet.
pub fn push_short(buf: &mut Vec<u8>, data: i16)
    ensures
        final(buf)@ == old(buf)@ + short_bytes(data),
{
    let mut b = stream_write_short(data);
    buf.append(&mut b);
}

/// Reads a signed 16-bit integer from its two big-endian bytes.
pub fn read_short(hi: u8, lo: u8) -> (r: i16)
    ensures
        r == be_i16(hi, lo),
{
    let u: u16 = ((hi as u16) << 8u16) | (lo as u16);
    let r = u as i16;
    assert(u == hi as u16 * 256 + lo as u16) by (bit_vector)
        requires
            u == ((hi as u16) << 8u16) | (lo as u16),
    ;
    assert(u >= 0x8000 ==> r == u - 0x1_0000) by (bit_vector)
        requires
            r == u as i16,
    ;
    assert(u < 0x8000 ==> r == u) by (bit_vector)
        requires
            r == u as i16,
    ;
    r
}

/// Reading back the two bytes that encode a short gives the short.
pub proof fn lemma_short_roundtrip(data: i16)
    ensures
        be_i16(short_bytes(data)[0], short_bytes(data)[1]) == data,
{

}

/// A short in the protocol's fixed-point form: the value times 32, kept to 16 bits.
pub open spec fn fixed_point(v: i16) -> i16 {
    let w = (twos_complement(v) * 32) % 0x1_0000;
    if w >= 0x8000 {
        (w - 0x1_0000) as i16
    } else {
        w as i16
    }
}

/// Packet 0x0E: the server disconnects the client with a reason.
pub open spec fn disconnect_packet(text: Seq<char>) -> Seq<u8> {
    seq![0x0Eu8] + mc_string(text)
}

/// Packet 0x00: server identification (protocol version 7, name, motd, user type).
pub open spec fn identification_packet(name: Seq<char>, motd: Seq<char>, is_op: bool) -> Seq<u8> {
    seq![0x00u8, 0x07u8] + mc_string(name) + mc_string(motd) + seq![
        if is_op {
            0x64u8
        } else {
            0x00u8
        },
    ]
}

/// Packet 0x04: level finalize, with the world's three sizes.
pub open spec fn finalize_packet(size_x: i16, size_y: i16, size_z: i16) -> Seq<u8> {
    seq![0x04u8] + short_bytes(size_x) + short_bytes(size_y) + short_bytes(size_z)
}

/// Packet 0x07: spawn a player at a position given in whole blocks.
pub open spec fn spawn_packet(
    player_id: u8,
    name: Seq<char>,
    pos_x: i16,
    pos_y: i16,
    pos_z: i16,
    yaw: u8,
    pitch: u8,
) -> Seq<u8> {
    seq![0x07u8, player_id] + mc_string(name) + short_bytes(fixed_point(pos_x)) + short_bytes(
        fixed_point(pos_y),
    ) + short_bytes(fixed_point(pos_z)) + seq![yaw, pitch]
}

/// Packet 0x0C: despawn a player.
pub open spec fn despawn_packet(player_id: u8) -> Seq<u8> {
    seq![0x0Cu8, player_id]
}

/// The text of a chat line: `name: message`, or the message alone for an empty name.
pub open spec fn chat_text(source_username: Seq<char>, message: Seq<char>) -> Seq<char> {
    if source_username.len() == 0 {
        message
    } else {
        source_username + seq![':', ' '] + message
    }
}

/// Packet 0x0D: a chat message from a player id.
pub open spec fn chat_packet(source_id: u8, text: Seq<char>) -> Seq<u8> {
    seq![0x0Du8, source_id] + mc_string(text)
}

/// Packet 0x08: set a player's position and orientation.
pub open spec fn position_packet(
    player_id: u8,
    pos_x: i16,
    pos_y: i16,
    pos_z: i16,
    yaw: u8,
    pitch: u8,
) -> Seq<u8> {
    seq![0x08u8, player_id] + short_bytes(pos_x) + short_bytes(pos_y) + short_bytes(pos_z) + seq![
        yaw,
        pitch,
    ]
}

/// Packet 0x06: set a block.
pub open spec fn block_update_packet(x: i16, y: i16, z: i16, block: u8) -> Seq<u8> {
    seq![0x06u8] + short_bytes(x) + short_bytes(y) + short_bytes(z) + seq![block]
}

/// Disconnect packet with a reason.
pub fn client_disconnect(text: &str) -> (packet: Vec<u8>)
    ensures
        packet@ == disconnect_packet(text@),
{
    let chars = chars_of(text);
    let mut ret_val: Vec<u8> = Vec::new();
    ret_val.push(0x0E);
    push_mc_string(&mut ret_val, &chars);
    ret_val
}

/// Server identification packet; an operator gets user type 0x64.
pub fn server_identification(config: ServerConfig, is_op: bool) -> (packet: Vec<u8>)
    ensures
        packet@ == identification_packet(config.name@, config.motd@, is_op),
{
    identification_for(&config, is_op)
}

/// Server identification packet for a borrowed configuration.
pub fn identification_for(config: &ServerConfig, is_op: bool) -> (packet: Vec<u8>)
    ensures
        packet@ == identification_packet(config.name@, config.motd@, is_op),
{
    let name = chars_of(config.name.as_str());
    let motd = chars_of(config.motd.as_str());
    let mut ret_val: Vec<u8> = Vec::new();
    ret_val.push(0x00);
    ret_val.push(0x07);
    push_mc_string(&mut ret_val, &name);
    push_mc_string(&mut ret_val, &motd);
    if is_op {
        ret_val.push(0x64);
    } else {
        ret_val.push(0x00);
    }
    ret_val
}

/// Byte `b` read as the character with that code point.
pub open spec fn byte_char(b: u8) -> char {
    b as char
}

/// Ping packet.
pub fn ping() -> (packet: Vec<u8>)
    ensures
        packet@ == seq![0x01u8],
{
    let mut v: Vec<u8> = Vec::new();
    v.push(0x01);
    v
}

/// Level initialize packet.
pub fn init_level() -> (packet: Vec<u8>)
    ensures
        packet@ == seq![0x02u8],
{
    let mut v: Vec<u8> = Vec::new();
    v.push(0x02);
    v
}

/// Level finalize packet for a world.
pub fn finalize_level(world: &World) -> (packet: Vec<u8>)
    ensures
        packet@ == finalize_packet(world.size_x, world.size_y, world.size_z),
{
    let mut ret_val: Vec<u8> = Vec::new();
    ret_val.push(0x04);
    push_short(&mut ret_val, world.size_x);
    push_short(&mut ret_val, world.size_y);
    push_short(&mut ret_val, world.size_z);
    ret_val
}

/// The fixed-point form of a block coordinate.
pub fn to_fixed_point(v: i16) -> (r: i16)
    ensures
        r == fixed_point(v),
{
    let t: u16 = v as u16;
    let u: u16 = t << 5u16;
    let r = u as i16;
    assert(t as int == twos_complement(v)) by {
        assert(v < 0 ==> t == v + 0x1_0000) by (bit_vector)
            requires
                t == v as u16,
        ;
        assert(v >= 0 ==> t == v) by (bit_vector)
            requires
                t == v as u16,
        ;
    }
    assert(u == (t * 32) % 0x1_0000) by (bit_vector)
        requires
            u == t << 5u16,
    ;
    assert(u >= 0x8000 ==> r == u - 0x1_0000) by (bit_vector)
        requires
            r == u as i16,
    ;
    assert(u < 0x8000 ==> r == u) by (bit_vector)
        requires
            r == u as i16,
    ;
    r
}

/// Spawn packet for a player with a name.
pub fn spawn_player(
    player_id: u8,
    name: &str,
    pos_x: i16,
    pos_y: i16,
    pos_z: i16,
    yaw: u8,
    pitch: u8,
) -> (packet: Vec<u8>)
    ensures
        packet@ == spawn_packet(player_id, name@, pos_x, pos_y, pos_z, yaw, pitch),
{
    let chars = chars_of(name);
    let mut ret_val: Vec<u8> = Vec::new();
    ret_val.push(0x07);
    ret_val.push(player_id);
    push_mc_string(&mut ret_val, &chars);
    push_short(&mut ret_val, to_fixed_point(pos_x));
    push_short(&mut ret_val, to_fixed_point(pos_y));
    push_short(&mut ret_val, to_fixed_point(pos_z));
    ret_val.push(yaw);
    ret_val.push(pitch);
    ret_val
}

/// Despawn packet.
pub fn despawn_player(player_id: u8) -> (packet: Vec<u8>)
    ensures
        packet@ == despawn_packet(player_id),
{
    let mut v: Vec<u8> = Vec::new();
    v.push(0x0C);
    v.push(player_id);
    v
}

/// Chat packet from character sequences.
pub fn chat_message_chars(source_id: u8, source_username: &Vec<char>, message: &Vec<char>) -> (packet:
    Vec<u8>)
    ensures
        packet@ == chat_packet(source_id, chat_text(source_username@, message@)),
{
    let mut text: Vec<char> = Vec::new();
    if source_username.len() > 0 {
        let mut i: usize = 0;
        while i < source_username.len()
            invariant
                i <= source_username.len(),
                text@ == source_username@.take(i as int),
            decreases source_username.len() - i,
        {
            text.push(source_username[i]);
            i += 1;
        }
        text.push(':');
        text.push(' ');
        assert(source_username@.take(source_username.len() as int) =~= source_username@);
    }
    let mut i: usize = 0;
    let ghost prefix = text@;
    while i < message.len()
        invariant
            i <= message.len(),
            text@ == prefix + message@.take(i as int),
        decreases message.len() - i,
    {
        text.push(message[i]);
        i += 1;
    }
    assert(message@.take(message.len() as int) =~= message@);
    assert(text@ =~= chat_text(source_username@, message@));
    let mut ret_val: Vec<u8> = Vec::new();
    ret_val.push(0x0D);
    ret_val.push(source_id);
    push_mc_string(&mut ret_val, &text);
    ret_val
}

/// Chat packet: the message, after `name: ` when the name is not empty.
pub fn send_chat_message(source_id: u8, source_username: String, message: String) -> (packet: Vec<
    u8,
>)
    ensures
        packet@ == chat_packet(source_id, chat_text(source_username@, message@)),
{
    let name = chars_of(source_username.as_str());
    let text = chars_of(message.as_str());
    chat_message_chars(source_id, &name, &text)
}

/// Chat packet from the server itself.
pub fn write_chat_stream(message: String) -> (packet: Vec<u8>)
    ensures
        packet@ == chat_packet(SELF_PLAYER_ID, message@),
{
    let empty: Vec<char> = Vec::new();
    let text = chars_of(message.as_str());
    chat_message_chars(SELF_PLAYER_ID, &empty, &text)
}

/// Chat packet from the server with text given as characters.
pub fn server_chat_chars(message: &Vec<char>) -> (packet: Vec<u8>)
    ensures
        packet@ == chat_packet(SELF_PLAYER_ID, message@),
{
    let empty: Vec<char> = Vec::new();
    chat_message_chars(SELF_PLAYER_ID, &empty, message)
}

/// Chat packet from the server with text given as a literal.
pub fn server_chat_str(message: &str) -> (packet: Vec<u8>)
    ensures
        packet@ == chat_packet(SELF_PLAYER_ID, message@),
{
    let text = chars_of(message);
    server_chat_chars(&text)
}

/// Position and orientation packet.
pub fn set_position_and_orientation(
    player_id: u8,
    pos_x: i16,
    pos_y: i16,
    pos_z: i16,
    yaw: u8,
    pitch: u8,
) -> (packet: Vec<u8>)
    ensures
        packet@ == position_packet(player_id, pos_x, pos_y, pos_z, yaw, pitch),
{
    let mut ret_val: Vec<u8> = Vec::new();
    ret_val.push(0x08);
    ret_val.push(player_id);
    push_short(&mut ret_val, pos_x);
    push_short(&mut ret_val, pos_y);
    push_short(&mut ret_val, pos_z);
    ret_val.push(yaw);
    ret_val.push(pitch);
    ret_val
}

/// Block update packet.
pub fn block_update(x: i16, y: i16, z: i16, block: u8) -> (packet: Vec<u8>)
    ensures
        packet@ == block_update_packet(x, y, z, block),
{
    let mut v: Vec<u8> = Vec::new();
    v.push(0x06);
    push_short(&mut v, x);
    push_short(&mut v, y);
    push_short(&mut v, z);
    v.push(block);
    v
}

/// Writing back a short read from two bytes gives the same two bytes.
pub proof fn lemma_bytes_roundtrip(hi: u8, lo: u8)
    ensures
        short_bytes(be_i16(hi, lo)) == seq![hi, lo],
{
    assert(short_bytes(be_i16(hi, lo)) =~= seq![hi, lo]);
}

/// A protocol string is always 64 bytes, padded with spaces, and nothing past the 64th
/// character of a text reaches it.
pub proof fn lemma_mc_string_truncates(text: Seq<char>)
    ensures
        mc_string(text).len() == 64,
        forall|i: int| text.len() <= i < 64 ==> #[trigger] mc_string(text)[i] == 0x20u8,
        text.len() >= 64 ==> mc_string(text) == mc_string(text.take(64)),
{
    if text.len() >= 64 {
        assert(mc_string(text) =~= mc_string(text.take(64)));
    }
}

/// Sending the server's own chat line is sending a chat message from the server's id with
/// an empty name.
pub proof fn lemma_server_chat_is_anonymous(message: Seq<char>)
    ensures
        chat_packet(SELF_PLAYER_ID, message) == chat_packet(
            SELF_PLAYER_ID,
            chat_text(Seq::empty(), message),
        ),
{
}

} // verus!
