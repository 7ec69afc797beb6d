use vstd::prelude::*;

use crate::config::ServerConfig;
use crate::player::{Player, SELF_PLAYER_ID};
use crate::protocol::{
    be_i16, fixed_point, lemma_short_roundtrip, mc_string,
    finalize_level, finalize_packet, identification_packet, identification_for, init_level,
    short_bytes, spawn_packet, spawn_player, stream_write_short,
};
use crate::world::World;
use flate2::write::GzEncoder;
use flate2::Compression;
use std::io::Write;

verus! {

/// What flate2's gzip encoder at its fast level writes for `data`, header and trailer
/// included.
pub uninterp spec fn gzip_fast(data: Seq<u8>) -> Seq<u8>;

/// What flate2's gzip decoder (`read::GzDecoder`, read to the end) gives back for a stream:
/// the bytes it decodes, or `None` where it reports an error.
pub uninterp spec fn gunzip(stream: Seq<u8>) -> Option<Seq<u8>>;

/// Compresses bytes into a gzip stream.
///
/// Trusted: writes `data` into flate2's `write::GzEncoder` over a `Vec<u8>` at
/// `Compression::fast()` and calls `finish`. The contract claims that this succeeds (writing
/// into a `Vec` cannot fail, and the miniz_oxide backend reports errors only for a broken
/// stream state), that the result is the named encoding of `data` (flate2 fixes the
/// header's time and system fields, so the stream depends on the input alone), and that it
/// holds at least the 10-byte header and the 8-byte trailer that `finish` writes. It also
/// claims the one fact of gzip that callers need: flate2's decoder gives `data` back from
/// the stream, as a single gzip member whose trailer checks the CRC and length of `data`.
#[verifier::external_body]
fn gzip(data: &Vec<u8>) -> (z: Vec<u8>)
    ensures
        z@ == gzip_fast(data@),
        z@.len() >= 18,
        gunzip(z@) == Some(data@),
{
    let mut encoder = GzEncoder::new(Vec::new(), Compression::fast());
    encoder.write_all(data).expect("writing into a Vec does not fail");
    encoder.finish().expect("writing into a Vec does not fail")
}

/// Size of one level chunk.
pub const CHUNK_SIZE: usize = 1024;

/// Spacing of the integers that a single-precision float holds around `n`: 1 below 2^24,
/// doubling with each further binary digit.
pub open spec fn single_precision_step(n: nat) -> nat
    decreases n,
{
    if n < 0x100_0000 {
        1
    } else {
        2 * single_precision_step(n / 2)
    }
}

/// `n` rounded to single precision, to nearest with ties to even: what an integer becomes
/// when it is converted to a 32-bit float.
pub open spec fn single_precision(n: nat) -> nat {
    let u = single_precision_step(n);
    let q = n / u;
    let r = n % u;
    if 2 * r > u || (2 * r == u && q % 2 == 1) {
        (q + 1) * u
    } else {
        q * u
    }
}

/// The chunk count a compressed level of `len` bytes is sent with: the length taken as a
/// single-precision float, divided by 1024 and rounded up.
pub open spec fn sent_chunk_count(len: nat) -> nat {
    (single_precision(len) + 1023) / 1024
}

/// Whether a compressed level of `len` bytes fits its sent chunk count: every chunk but
/// the last one full, and at most one chunk left for the last.
pub open spec fn chunkable(len: nat) -> bool {
    let n = sent_chunk_count(len);
    0 < len && 1024 * (n - 1) <= len <= 1024 * n
}

/// The four bytes put before the cells: byte `k` (from the low end) is taken from the length
/// of what it is put in front of, that is the cell count plus the `k` bytes already put.
pub open spec fn level_prefix(n: nat) -> Seq<u8> {
    seq![
        (((n + 3) / 0x100_0000) % 256) as u8,
        (((n + 2) / 0x1_0000) % 256) as u8,
        (((n + 1) / 0x100) % 256) as u8,
        (n % 256) as u8,
    ]
}

/// The bytes that are compressed for a level.
pub open spec fn level_payload(cells: Seq<u8>) -> Seq<u8> {
    level_prefix(cells.len()) + cells
}

/// Number of chunks that `len` bytes fill: the length divided by 1024, rounded up.
pub open spec fn chunk_count(len: nat) -> nat {
    ((len + 1023) / 1024) as nat
}

/// Packet 0x03 carrying the full chunk `c` of `z`, with progress byte 0.
pub open spec fn full_chunk_packet(z: Seq<u8>, c: int) -> Seq<u8> {
    seq![0x03u8, 0x04u8, 0x00u8] + z.subrange(c * 1024, c * 1024 + 1024) + seq![0x00u8]
}

/// The packets of the first `k` full chunks of `z`.
pub open spec fn full_chunks(z: Seq<u8>, k: nat) -> Seq<u8>
    decreases k,
{
    if k == 0 {
        Seq::empty()
    } else {
        full_chunks(z, (k - 1) as nat) + full_chunk_packet(z, k - 1)
    }
}

/// Packet 0x03 carrying the rest of `z` from `start`, zero-padded to a chunk, with progress
/// byte 100.
pub open spec fn last_chunk_packet(z: Seq<u8>, start: int) -> Seq<u8> {
    let rem = z.len() - start;
    seq![0x03u8] + short_bytes(rem as i16) + z.subrange(start, z.len() as int) + Seq::new(
        (1024 - rem) as nat,
        |i: int| 0u8,
    ) + seq![100u8]
}

/// The level data packets for a compressed level `z`: with `n` its sent chunk count, `n - 1`
/// full chunks, then the rest of `z` if any is left.
pub open spec fn level_chunks(z: Seq<u8>) -> Seq<u8> {
    let n = sent_chunk_count(z.len());
    let start = 1024 * (n - 1);
    full_chunks(z, (n - 1) as nat) + if start < z.len() {
        last_chunk_packet(z, start)
    } else {
        Seq::empty()
    }
}

/// How many level data packets a compressed level of `len` bytes is sent in.
pub open spec fn level_packet_count(len: nat) -> nat {
    let n = sent_chunk_count(len);
    if 1024 * (n - 1) < len {
        n
    } else {
        (n - 1) as nat
    }
}

/// The byte `(v / d) % 256` for a power-of-two divisor given by its shift.
fn byte_at(v: u128, shift: u128) -> (b: u8)
    requires
        shift == 0 || shift == 8 || shift == 16 || shift == 24,
    ensures
        shift == 0 ==> b == v % 256,
        shift == 8 ==> b == (v / 0x100) % 256,
        shift == 16 ==> b == (v / 0x1_0000) % 256,
        shift == 24 ==> b == (v / 0x100_0000) % 256,
{
    let r = ((v >> shift) & 0xFF) as u8;
    assert(shift == 0 ==> r == v % 256) by (bit_vector)
        requires
            r == ((v >> shift) & 0xFF) as u8,
    ;
    assert(shift == 8 ==> r == (v / 0x100) % 256) by (bit_vector)
        requires
            r == ((v >> shift) & 0xFF) as u8,
    ;
    assert(shift == 16 ==> r == (v / 0x1_0000) % 256) by (bit_vector)
        requires
            r == ((v >> shift) & 0xFF) as u8,
    ;
    assert(shift == 24 ==> r == (v / 0x100_0000) % 256) by (bit_vector)
        requires
            r == ((v >> shift) & 0xFF) as u8,
    ;
    r
}

/// The data field of one level data packet: as many bytes after the three-byte header as
/// its size field says.
pub open spec fn chunk_data(packet: Seq<u8>) -> Seq<u8> {
    packet.subrange(3, 3 + be_i16(packet[1], packet[2]) as int)
}

/// What a client collects from the first `n` level data packets of 1028 bytes each.
pub open spec fn reassembled(packets: Seq<u8>, n: int) -> Seq<u8>
    decreases n,
{
    if n <= 0 {
        Seq::empty()
    } else {
        reassembled(packets, n - 1) + chunk_data(packets.subrange(1028 * (n - 1), 1028 * n))
    }
}

proof fn lemma_full_chunks(z: Seq<u8>, k: int)
    requires
        0 <= k,
        1024 * k <= z.len(),
    ensures
        full_chunks(z, k as nat).len() == 1028 * k,
        forall|c: int|
            0 <= c < k ==> #[trigger] full_chunks(z, k as nat).subrange(1028 * c, 1028 * c + 1028)
                == full_chunk_packet(z, c),
    decreases k,
{
    if k > 0 {
        lemma_full_chunks(z, k - 1);
        let prev = full_chunks(z, (k - 1) as nat);
        let all = full_chunks(z, k as nat);
        assert(all == prev + full_chunk_packet(z, k - 1));
        assert forall|c: int| 0 <= c < k implies #[trigger] all.subrange(1028 * c, 1028 * c + 1028)
            == full_chunk_packet(z, c) by {
            if c < k - 1 {
                assert(all.subrange(1028 * c, 1028 * c + 1028) =~= prev.subrange(
                    1028 * c,
                    1028 * c + 1028,
                ));
            } else {
                assert(all.subrange(1028 * c, 1028 * c + 1028) =~= full_chunk_packet(z, c));
            }
        }
    }
}

proof fn lemma_reassembled_prefix(z: Seq<u8>, k: int)
    requires
        chunkable(z.len()),
        0 <= k <= sent_chunk_count(z.len()) - 1,
    ensures
        reassembled(level_chunks(z), k) == z.take(1024 * k),
    decreases k,
{
    let n = sent_chunk_count(z.len());
    let packets = level_chunks(z);
    lemma_full_chunks(z, n - 1);
    if k > 0 {
        lemma_reassembled_prefix(z, k - 1);
        let full = full_chunks(z, (n - 1) as nat);
        let c = k - 1;
        assert(packets.subrange(1028 * c, 1028 * c + 1028) =~= full.subrange(
            1028 * c,
            1028 * c + 1028,
        ));
        let p = full_chunk_packet(z, c);
        assert(p[1] == 4u8 && p[2] == 0u8);
        assert(be_i16(4u8, 0u8) == 1024) by (bit_vector);
        assert(chunk_data(p) =~= z.subrange(1024 * c, 1024 * c + 1024));
        assert(z.take(1024 * (k - 1)) + z.subrange(1024 * c, 1024 * c + 1024) =~= z.take(1024 * k));
    } else {
        assert(z.take(0) =~= Seq::<u8>::empty());
    }
}

/// A client that takes from each level data packet as many bytes as its size field says
/// gets back exactly the compressed level; every packet is 1028 bytes long.
pub proof fn lemma_level_chunks_reassemble(z: Seq<u8>)
    requires
        chunkable(z.len()),
    ensures
        level_chunks(z).len() == 1028 * level_packet_count(z.len()),
        reassembled(level_chunks(z), level_packet_count(z.len()) as int) == z,
{
    let n = sent_chunk_count(z.len()) as int;
    let packets = level_chunks(z);
    lemma_full_chunks(z, n - 1);
    lemma_reassembled_prefix(z, n - 1);
    let start = 1024 * (n - 1);
    if start < z.len() {
        let rem = z.len() - start;
        let last = last_chunk_packet(z, start);
        assert(0 < rem <= 1024);
        assert(last.len() == 1028);
        assert(packets.subrange(1028 * (n - 1), 1028 * n) =~= last);
        lemma_short_roundtrip(rem as i16);
        assert(last[1] == short_bytes(rem as i16)[0]);
        assert(last[2] == short_bytes(rem as i16)[1]);
        assert(chunk_data(last) =~= z.subrange(start, z.len() as int));
        assert(z.take(start) + z.subrange(start, z.len() as int) =~= z);
    } else {
        assert(packets =~= full_chunks(z, (n - 1) as nat));
        assert(z.take(start) =~= z);
    }
}

/// Up to 16 MiB a compressed length converts to single precision exactly, so a level that
/// compresses to at most that much is sent in `chunk_count` chunks, always chunkable.
pub proof fn lemma_small_levels_chunkable(len: nat)
    requires
        0 < len <= 0x100_0000,
    ensures
        sent_chunk_count(len) == chunk_count(len),
        chunkable(len),
{
    if len < 0x100_0000 {
        assert(single_precision_step(len) == 1);
        assert(len / 1 == len && len % 1 == 0) by (nonlinear_arith);
    } else {
        assert(single_precision_step(0x80_0000) == 1);
        assert(single_precision_step(len) == 2);
    }
    assert(single_precision(len) == len);
}

/// The level payload is four length bytes followed by the cells. The length bytes count the
/// cells in big-endian order: byte `k` from the low end is byte `k` of the cell count plus
/// `k`, so wherever adding up to 3 to the count carries into no higher byte (the low byte of
/// the count below 253), they read back as the cell count itself.
pub proof fn lemma_level_payload_counts_cells(cells: Seq<u8>)
    ensures
        level_payload(cells).len() == cells.len() + 4,
        level_payload(cells).subrange(4, cells.len() + 4int) == cells,
        cells.len() < 0x1_0000_0000 && cells.len() % 256 < 253 ==> {
            let p = level_payload(cells);
            p[0] * 0x100_0000 + p[1] * 0x1_0000 + p[2] * 0x100 + p[3] == cells.len()
        },
{
    let p = level_payload(cells);
    assert(p.subrange(4, cells.len() + 4int) =~= cells);
    let n = cells.len();
    if n < 0x1_0000_0000 && n % 256 < 253 {
        let v: u64 = n as u64;
        lemma_prefix_bits(v);
        assert((v + 3) as u64 == v + 3 && (v + 2) as u64 == v + 2 && (v + 1) as u64 == v + 1);
    }
}

proof fn lemma_prefix_bits(v: u64)
    by (bit_vector)
    requires
        v < 0x1_0000_0000,
        v % 256 < 253,
    ensures
        (((v + 3) as u64) / 0x100_0000) % 256 * 0x100_0000 + (((v + 2) as u64) / 0x1_0000) % 256
            * 0x1_0000 + (((v + 1) as u64) / 0x100) % 256 * 0x100 + v % 256 == v,
{
}

/// The bytes compressed for the level: the cells behind a four-byte length prefix.
pub fn level_data_payload(cells: &Vec<u8>) -> (payload: Vec<u8>)
    ensures
        payload@ == level_payload(cells@),
{
    let n = cells.len() as u128;
    let mut payload: Vec<u8> = Vec::new();
    payload.push(byte_at(n + 3, 24));
    payload.push(byte_at(n + 2, 16));
    payload.push(byte_at(n + 1, 8));
    payload.push(byte_at(n, 0));
    let mut i: usize = 0;
    while i < cells.len()
        invariant
            i <= cells.len(),
            payload@ == level_prefix(cells@.len()) + cells@.take(i as int),
        decreases cells.len() - i,
    {
        payload.push(cells[i]);
        i += 1;
    }
    assert(cells@.take(cells.len() as int) =~= cells@);
    payload
}

fn single_precision_step_of(n: u64) -> (u: u64)
    ensures
        u == single_precision_step(n as nat),
        1 <= u,
        n >= 1 ==> u <= n,
    decreases n,
{
    if n < 0x100_0000 {
        1
    } else {
        let h = single_precision_step_of(n / 2);
        2 * h
    }
}

/// The chunk count a compressed level of `len` bytes is sent with.
pub fn sent_chunk_count_of(len: usize) -> (n: usize)
    ensures
        n == sent_chunk_count(len as nat),
{
    let v: u64 = len as u64;
    if v == 0 {
        assert(single_precision_step(0) == 1);
        assert(0nat / 1 == 0 && 0nat % 1 == 0);
        return 0;
    }
    let u: u64 = single_precision_step_of(v);
    let q: u64 = v / u;
    let r: u64 = v % u;
    proof {
        vstd::arithmetic::div_mod::lemma_fundamental_div_mod(v as int, u as int);
    }
    let wide_q: u128 = q as u128;
    let wide_u: u128 = u as u128;
    let wide_r: u128 = r as u128;
    assert(wide_q * wide_u + wide_u <= 2 * (v as int)) by (nonlinear_arith)
        requires
            v == wide_u * wide_q + wide_r,
            1 <= wide_u <= v,
            0 <= wide_r,
    ;
    let base: u128 = wide_q * wide_u;
    assert((wide_q + 1) * wide_u == base + wide_u) by (nonlinear_arith)
        requires
            base == wide_q * wide_u,
    ;
    let rounded: u128 = if 2 * wide_r > wide_u || (2 * wide_r == wide_u && wide_q % 2 == 1) {
        base + wide_u
    } else {
        base
    };
    assert(rounded == single_precision(len as nat));
    let n: u128 = (rounded + 1023) / 1024;
    assert(n <= v);
    n as usize
}

/// Whether a compressed level of `len` bytes can be split with its sent chunk count.
pub fn is_chunkable(len: usize) -> (b: bool)
    ensures
        b == chunkable(len as nat),
{
    let n = sent_chunk_count_of(len);
    if len == 0 || n == 0 {
        return false;
    }
    let wide_len: u128 = len as u128;
    let wide_n: u128 = n as u128;
    1024 * (wide_n - 1) <= wide_len && wide_len <= 1024 * wide_n
}

/// Splits a compressed level into level data packets: with `n` its sent chunk count, `n - 1`
/// full chunks of 1024 bytes with progress 0, then what is left, zero-padded to a chunk,
/// with progress 100.
pub fn level_chunk_packets(z: &Vec<u8>) -> (packets: Vec<u8>)
    requires
        chunkable(z.len() as nat),
    ensures
        packets@ == level_chunks(z@),
{
    let len = z.len();
    let number_of_chunks: usize = sent_chunk_count_of(len);
    let mut ret_val: Vec<u8> = Vec::new();
    let mut current_chunk: usize = 0;
    while current_chunk + 1 != number_of_chunks
        invariant
            len == z.len(),
            chunkable(len as nat),
            number_of_chunks == sent_chunk_count(len as nat),
            current_chunk < number_of_chunks,
            ret_val@ == full_chunks(z@, current_chunk as nat),
        decreases number_of_chunks - current_chunk,
    {
        ret_val.push(0x03);
        let mut size = stream_write_short(0x400);
        assert(size@ == seq![0x04u8, 0x00u8]);
        ret_val.append(&mut size);
        let start = current_chunk * 1024;
        assert(start + 1024 <= len);
        let ghost before = ret_val@;
        let mut i: usize = 0;
        while i < 1024
            invariant
                start + 1024 <= len == z.len(),
                i <= 1024,
                ret_val@ == before + z@.subrange(start as int, start + i),
            decreases 1024 - i,
        {
            ret_val.push(z[start + i]);
            i += 1;
        }
        let percentage: usize = current_chunk / number_of_chunks * 100;
        assert(current_chunk / number_of_chunks == 0) by (nonlinear_arith)
            requires
                current_chunk < number_of_chunks,
        ;
        ret_val.push(percentage as u8);
        assert(ret_val@ =~= full_chunks(z@, (current_chunk + 1) as nat));
        current_chunk += 1;
    }
    let start = current_chunk * 1024;
    let remaining = len - start;
    assert(remaining <= 1024);
    if remaining > 0 {
        ret_val.push(0x03);
        let mut size = stream_write_short(remaining as i16);
        ret_val.append(&mut size);
        let ghost before = ret_val@;
        let mut i: usize = 0;
        while i < 1024
            invariant
                start + remaining == len == z.len(),
                0 < remaining <= 1024,
                i <= 1024,
                i <= remaining ==> ret_val@ == before + z@.subrange(start as int, start + i),
                i > remaining ==> ret_val@ == before + z@.subrange(start as int, len as int)
                    + Seq::new((i - remaining) as nat, |k: int| 0u8),
            decreases 1024 - i,
        {
            if i < remaining {
                ret_val.push(z[start + i]);
            } else {
                ret_val.push(0);
            }
            i += 1;
            assert(i > remaining ==> ret_val@ =~= before + z@.subrange(start as int, len as int)
                + Seq::new((i - remaining) as nat, |k: int| 0u8));
        }
        ret_val.push(100);
    }
    assert(ret_val@ =~= level_chunks(z@));
    ret_val
}

/// The level data packets for a world: its cells with their length prefix, gzip-compressed
/// and split into chunks. `None` where the compressed length does not fit its sent chunk
/// count, as then the level cannot be split.
pub fn send_level_data(world: &World) -> (r: Option<Vec<u8>>)
    ensures
        r is Some <==> chunkable(gzip_fast(level_payload(world.data@)).len()),
        r matches Some(packets) ==> packets@ == level_chunks(gzip_fast(level_payload(world.data@))),
        r matches Some(packets) ==> gunzip(
            reassembled(
                packets@,
                level_packet_count(gzip_fast(level_payload(world.data@)).len()) as int,
            ),
        ) == Some(level_payload(world.data@)),
{
    let payload = level_data_payload(&world.data);
    let compressed = gzip(&payload);
    if !is_chunkable(compressed.len()) {
        return None;
    }
    proof {
        lemma_level_chunks_reassemble(compressed@);
    }
    Some(level_chunk_packets(&compressed))
}

/// The bytes a joining client gets: identification, level initialize, the level data,
/// level finalize, and its own spawn at (32, 17, 32).
pub open spec fn server_details(config: &ServerConfig, current_player: &Player, world: &World) -> Seq<u8> {
    identification_packet(config.name@, config.motd@, current_player.operator) + seq![0x02u8]
        + level_chunks(gzip_fast(level_payload(world.data@))) + finalize_packet(
        world.size_x,
        world.size_y,
        world.size_z,
    ) + spawn_packet(SELF_PLAYER_ID, current_player.username@, 32, 17, 32, 0, 0)
}

/// How the join bundle is laid out, byte by byte: the 131-byte identification (packet 0x00,
/// protocol 7), level initialize (0x02), the level data packets, then the 7-byte level
/// finalize packet (0x04 and the world's x, y and z sizes as big-endian shorts), and last
/// the client's own 74-byte spawn (packet 0x07 for id 255) at (32, 17, 32) in fixed point.
pub proof fn lemma_join_bundle_layout(config: &ServerConfig, current_player: &Player, world: &World)
    ensures
        ({
            let b = server_details(config, current_player, world);
            let level = level_chunks(gzip_fast(level_payload(world.data@)));
            let c = level.len() as int;
            &&& b.len() == 131 + 1 + c + 7 + 74
            &&& b[0] == 0x00 && b[1] == 7
            &&& b.subrange(2, 66) == mc_string(config.name@)
            &&& b.subrange(66, 130) == mc_string(config.motd@)
            &&& b[130] == (if current_player.operator { 0x64u8 } else { 0x00u8 })
            &&& b[131] == 0x02
            &&& b.subrange(132, 132 + c) == level
            &&& b[132 + c] == 0x04
            &&& be_i16(b[133 + c], b[134 + c]) == world.size_x
            &&& be_i16(b[135 + c], b[136 + c]) == world.size_y
            &&& be_i16(b[137 + c], b[138 + c]) == world.size_z
            &&& b[139 + c] == 0x07 && b[140 + c] == SELF_PLAYER_ID
            &&& b.subrange(141 + c, 205 + c) == mc_string(current_player.username@)
            &&& be_i16(b[205 + c], b[206 + c]) == 32 * 32
            &&& be_i16(b[207 + c], b[208 + c]) == 17 * 32
            &&& be_i16(b[209 + c], b[210 + c]) == 32 * 32
        }),
{
    let b = server_details(config, current_player, world);
    let level = level_chunks(gzip_fast(level_payload(world.data@)));
    let c = level.len() as int;
    let ident = identification_packet(config.name@, config.motd@, current_player.operator);
    let fin = finalize_packet(world.size_x, world.size_y, world.size_z);
    let spawn = spawn_packet(SELF_PLAYER_ID, current_player.username@, 32, 17, 32, 0, 0);
    assert(ident.len() == 131);
    assert(fin.len() == 7);
    assert(spawn.len() == 74);
    assert(b =~= ident + seq![0x02u8] + level + fin + spawn);
    assert(b.subrange(132, 132 + c) =~= level);
    assert(b.subrange(2, 66) =~= mc_string(config.name@));
    assert(b.subrange(66, 130) =~= mc_string(config.motd@));
    assert(b.subrange(141 + c, 205 + c) =~= mc_string(current_player.username@));
    lemma_short_roundtrip(world.size_x);
    lemma_short_roundtrip(world.size_y);
    lemma_short_roundtrip(world.size_z);
    assert(b[133 + c] == fin[1] && b[134 + c] == fin[2]);
    assert(b[135 + c] == fin[3] && b[136 + c] == fin[4]);
    assert(b[137 + c] == fin[5] && b[138 + c] == fin[6]);
    assert(fixed_point(32) == 1024 && fixed_point(17) == 544);
    lemma_short_roundtrip(1024);
    lemma_short_roundtrip(544);
    assert(b[205 + c] == spawn[66] && b[206 + c] == spawn[67]);
    assert(b[207 + c] == spawn[68] && b[208 + c] == spawn[69]);
    assert(b[209 + c] == spawn[70] && b[210 + c] == spawn[71]);
}

/// Everything a client gets on joining: identification, level initialize, the level data,
/// level finalize, and its own spawn at (32, 17, 32). `None` where the level data cannot
/// be produced, as then nothing is sent.
pub fn bomb_server_details(config: &ServerConfig, current_player: &Player, world: &World) -> (r:
    Option<Vec<u8>>)
    ensures
        r is Some <==> chunkable(gzip_fast(level_payload(world.data@)).len()),
        r matches Some(bytes) ==> bytes@ == server_details(config, current_player, world),
{
    let mut compound_data: Vec<u8> = Vec::new();
    let mut ident = identification_for(config, current_player.operator);
    compound_data.append(&mut ident);
    let mut init = init_level();
    compound_data.append(&mut init);
    let mut level = match send_level_data(world) {
        Some(l) => l,
        None => return None,
    };
    let ghost level_bytes = level@;
    compound_data.append(&mut level);
    let mut fin = finalize_level(world);
    compound_data.append(&mut fin);
    let mut spawn = spawn_player(
        SELF_PLAYER_ID,
        current_player.username.as_str(),
        32,
        17,
        32,
        0,
        0,
    );
    compound_data.append(&mut spawn);
    Some(compound_data)
}

} // verus!
