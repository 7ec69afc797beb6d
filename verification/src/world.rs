use vstd::prelude::*;

use crate::config::WorldConfig;
use crate::protocol::{
    be_i16, lemma_bytes_roundtrip, lemma_short_roundtrip, push_short, read_short, short_bytes,
};

verus! {

/// The block world: its size along each axis and one block id per cell, stored layer by
/// layer (`y`), then row by row (`z`), then along `x`.
#[derive(Debug)]
pub struct World {
    pub size_x: i16,
    pub size_y: i16,
    pub size_z: i16,
    pub data: Vec<u8>,
}

/// The mathematical content of a [`World`].
pub struct WorldView {
    pub size_x: i16,
    pub size_y: i16,
    pub size_z: i16,
    pub data: Seq<u8>,
}

impl View for World {
    type V = WorldView;

    open spec fn view(&self) -> WorldView {
        WorldView { size_x: self.size_x, size_y: self.size_y, size_z: self.size_z, data: self.data@ }
    }
}

/// Why a world file was refused.
#[derive(Debug, Clone, Copy, PartialEq, Eq, Structural)]
pub enum WorldError {
    InvalidWorldFile,
}

/// Largest sizes a world file may declare.
pub const MAX_SIZE_X: i16 = 512;

pub const MAX_SIZE_Y: i16 = 256;

pub const MAX_SIZE_Z: i16 = 512;

/// Block of a freshly generated layer: dirt below 15, grass at 15, air above.
pub open spec fn layer_block(y: int) -> u8 {
    if 0 <= y < 15 {
        3
    } else if y == 15 {
        2
    } else {
        0
    }
}

/// Cells of a freshly generated world of the given size.
pub open spec fn generated_blocks(size_x: i16, size_y: i16, size_z: i16) -> Seq<u8> {
    if size_x <= 0 || size_y <= 0 || size_z <= 0 {
        Seq::empty()
    } else {
        Seq::new(
            (size_x * size_y * size_z) as nat,
            |i: int| layer_block(i / (size_x * size_z)),
        )
    }
}

/// The product of the three sizes.
pub open spec fn volume(size_x: i16, size_y: i16, size_z: i16) -> int {
    size_x * size_y * size_z
}

/// Whether the header's sizes lie within the limits of a world file.
pub open spec fn sizes_in_limits(size_x: i16, size_y: i16, size_z: i16) -> bool {
    size_x <= MAX_SIZE_X && size_y <= MAX_SIZE_Y && size_z <= MAX_SIZE_Z
}

/// Whether the expected file length, computed in `i32`, stays in range.
pub open spec fn volume_fits_i32(size_x: i16, size_y: i16, size_z: i16) -> bool {
    i32::MIN <= volume(size_x, size_y, size_z) && volume(size_x, size_y, size_z) + 6 <= i32::MAX
}

/// The header sizes of a world file.
pub open spec fn header_sizes(raw: Seq<u8>) -> (i16, i16, i16) {
    (be_i16(raw[0], raw[1]), be_i16(raw[2], raw[3]), be_i16(raw[4], raw[5]))
}

/// Whether checking this file's length would leave `i32`: the file passes the size
/// limits, but the length it declares does not fit.
pub open spec fn header_overflows(raw: Seq<u8>) -> bool {
    let (sx, sy, sz) = header_sizes(raw);
    raw.len() >= 6 && sizes_in_limits(sx, sy, sz) && !volume_fits_i32(sx, sy, sz)
}

/// The world a file holds, if it is a valid world file: a six-byte header of three
/// big-endian sizes within the limits, then exactly one byte per cell.
pub open spec fn decoded_world(raw: Seq<u8>) -> Option<WorldView> {
    if raw.len() < 6 {
        None
    } else {
        let (sx, sy, sz) = header_sizes(raw);
        if !sizes_in_limits(sx, sy, sz) || raw.len() != volume(sx, sy, sz) + 6 {
            None
        } else {
            Some(WorldView { size_x: sx, size_y: sy, size_z: sz, data: raw.subrange(6, raw.len() as int) })
        }
    }
}

/// The bytes of a world file for a world.
pub open spec fn encoded_world(w: WorldView) -> Seq<u8> {
    short_bytes(w.size_x) + short_bytes(w.size_y) + short_bytes(w.size_z) + w.data
}

/// A world that a world file can hold and read back.
pub open spec fn storable(w: WorldView) -> bool {
    &&& sizes_in_limits(w.size_x, w.size_y, w.size_z)
    &&& volume_fits_i32(w.size_x, w.size_y, w.size_z)
    &&& w.data.len() == volume(w.size_x, w.size_y, w.size_z)
}

/// Sign-extending an `i16` into `u32`, as `as u32` does.
pub open spec fn wrap_u32(v: i16) -> int {
    if v >= 0 {
        v as int
    } else {
        v + 0x1_0000_0000
    }
}

/// Cell index of a position, computed as `x + z * size_x + y * size_x * size_z` in `u32`
/// arithmetic with the coordinates cast to `u32`; `None` where a step leaves `u32`.
pub open spec fn cell_index(size_x: i16, size_z: i16, x: i16, y: i16, z: i16) -> Option<int> {
    let a = wrap_u32(z) * wrap_u32(size_x);
    let s1 = wrap_u32(x) + a;
    let b = wrap_u32(y) * wrap_u32(size_x);
    let c = b * wrap_u32(size_z);
    let s2 = s1 + c;
    if a <= u32::MAX && s1 <= u32::MAX && b <= u32::MAX && c <= u32::MAX && s2 <= u32::MAX {
        Some(s2)
    } else {
        None
    }
}

/// Index into the cells of `w` for a position, where it is computed without leaving `u32`
/// and lies inside the cells.
pub open spec fn block_index(w: WorldView, x: i16, y: i16, z: i16) -> Option<int> {
    match cell_index(w.size_x, w.size_z, x, y, z) {
        Some(i) => if i < w.data.len() {
            Some(i)
        } else {
            None
        },
        None => None,
    }
}

fn to_u64_wrapped(v: i16) -> (r: u64)
    ensures
        r == wrap_u32(v),
{
    if v >= 0 {
        v as u64
    } else {
        (v as i64 + 0x1_0000_0000i64) as u64
    }
}

impl World {
    /// Generates the cells of a new world: dirt up to layer 14, grass on layer 15, air above.
    pub fn build(size_x: i16, size_y: i16, size_z: i16) -> (data: Vec<u8>)
        ensures
            data@ == generated_blocks(size_x, size_y, size_z),
    {
        let mut world_dat: Vec<u8> = Vec::new();
        let ghost a: int = size_x * size_z;
        let ghost pos: bool = size_x > 0 && size_z > 0;
        let mut y: i16 = 0;
        while y < size_y
            invariant
                a == size_x * size_z,
                pos == (size_x > 0 && size_z > 0),
                0 <= y,
                y <= size_y || y == 0,
                pos ==> world_dat@.len() == y * a,
                pos ==> forall|i: int|
                    0 <= i < world_dat@.len() ==> #[trigger] world_dat@[i] == layer_block(i / a),
                !pos ==> world_dat@.len() == 0,
            decreases size_y - y,
        {
            let mut z: i16 = 0;
            while z < size_z
                invariant
                    a == size_x * size_z,
                    pos == (size_x > 0 && size_z > 0),
                    0 <= y < size_y,
                    0 <= z,
                    z <= size_z || z == 0,
                    pos ==> world_dat@.len() == y * a + z * size_x,
                    pos ==> forall|i: int|
                        0 <= i < world_dat@.len() ==> #[trigger] world_dat@[i] == layer_block(
                            i / a,
                        ),
                    !pos ==> world_dat@.len() == 0,
                decreases size_z - z,
            {
                let mut x: i16 = 0;
                while x < size_x
                    invariant
                        a == size_x * size_z,
                        pos == (size_x > 0 && size_z > 0),
                        0 <= y < size_y,
                        0 <= z < size_z,
                        0 <= x,
                        x <= size_x || x == 0,
                        pos ==> world_dat@.len() == y * a + z * size_x + x,
                        pos ==> forall|i: int|
                            0 <= i < world_dat@.len() ==> #[trigger] world_dat@[i] == layer_block(
                                i / a,
                            ),
                        !pos ==> world_dat@.len() == 0,
                    decreases size_x - x,
                {
                    let block: u8 = if y < 15 {
                        3
                    } else if y == 15 {
                        2
                    } else {
                        0
                    };
                    proof {
                        let r = z * size_x + x;
                        assert(0 <= r < a) by (nonlinear_arith)
                            requires
                                0 <= z < size_z,
                                0 <= x < size_x,
                                a == size_x * size_z,
                                r == z * size_x + x,
                        ;
                        vstd::arithmetic::div_mod::lemma_fundamental_div_mod_converse(
                            world_dat@.len() as int,
                            a,
                            y as int,
                            r,
                        );
                    }
                    world_dat.push(block);
                    x += 1;
                }
                proof {
                    if pos {
                        assert(y * a + z * size_x + size_x == y * a + (z + 1) * size_x)
                            by (nonlinear_arith);
                    }
                }
                z += 1;
            }
            proof {
                if pos {
                    assert(y * a + size_z * size_x == (y + 1) * a) by (nonlinear_arith)
                        requires
                            a == size_x * size_z,
                    ;
                }
            }
            y += 1;
        }
        proof {
            if size_x > 0 && size_y > 0 && size_z > 0 {
                assert(size_y * a == size_x * size_y * size_z) by (nonlinear_arith)
                    requires
                        a == size_x * size_z,
                ;
            }
            if !(size_x > 0 && size_y > 0 && size_z > 0) && pos {
                assert(y == 0);
            }
        }
        assert(world_dat@ =~= generated_blocks(size_x, size_y, size_z));
        world_dat
    }

    /// A new world of the configured size, as generated when no world file exists.
    pub fn generate(config: &WorldConfig) -> (w: World)
        ensures
            w.size_x == config.size_x,
            w.size_y == config.size_y,
            w.size_z == config.size_z,
            w.data@ == generated_blocks(config.size_x, config.size_y, config.size_z),
    {
        World {
            size_x: config.size_x,
            size_y: config.size_y,
            size_z: config.size_z,
            data: World::build(config.size_x, config.size_y, config.size_z),
        }
    }

    /// Whether checking a world file's length would leave `i32` (where the length check
    /// overflows).
    pub fn header_overflows(raw: &[u8]) -> (r: bool)
        ensures
            r == header_overflows(raw@),
    {
        if raw.len() < 6 {
            return false;
        }
        let sx = read_short(raw[0], raw[1]);
        let sy = read_short(raw[2], raw[3]);
        let sz = read_short(raw[4], raw[5]);
        if sx > MAX_SIZE_X || sy > MAX_SIZE_Y || sz > MAX_SIZE_Z {
            return false;
        }
        assert(-0x4000_0000 <= sx * sy <= 0x4000_0000) by (nonlinear_arith)
            requires
                -0x8000 <= sx <= 0x7fff,
                -0x8000 <= sy <= 0x7fff,
        ;
        let sxy: i64 = sx as i64 * sy as i64;
        assert(-0x40_0000_0000_0000 <= sxy * sz <= 0x40_0000_0000_0000) by (nonlinear_arith)
            requires
                -0x4000_0000 <= sxy <= 0x4000_0000,
                -0x8000 <= sz <= 0x7fff,
        ;
        let v: i64 = sxy * sz as i64;
        assert(v == volume(sx, sy, sz));
        !(i32::MIN as i64 <= v && v + 6 <= i32::MAX as i64)
    }

    /// Reads a world file.
    pub fn decode(raw: &[u8]) -> (r: Result<World, WorldError>)
        requires
            !header_overflows(raw@),
        ensures
            match decoded_world(raw@) {
                Some(w) => r matches Ok(world) && world@ == w,
                None => r == Err::<World, WorldError>(WorldError::InvalidWorldFile),
            },
    {
        if raw.len() < 6 {
            return Err(WorldError::InvalidWorldFile);
        }
        let size_x = read_short(raw[0], raw[1]);
        let size_y = read_short(raw[2], raw[3]);
        let size_z = read_short(raw[4], raw[5]);
        if size_x > MAX_SIZE_X || size_y > MAX_SIZE_Y || size_z > MAX_SIZE_Z {
            return Err(WorldError::InvalidWorldFile);
        }
        assert(volume_fits_i32(size_x, size_y, size_z));
        assert(-0x4000_0000 <= size_x * size_y <= 0x4000_0000) by (nonlinear_arith)
            requires
                -0x8000 <= size_x <= 0x7fff,
                -0x8000 <= size_y <= 0x7fff,
        ;
        let sxy: i32 = size_x as i32 * size_y as i32;
        assert(sxy == size_x * size_y);
        assert(volume(size_x, size_y, size_z) == sxy * size_z);
        let expected: i32 = sxy * size_z as i32 + 6;
        if expected < 0 || raw.len() != expected as usize {
            return Err(WorldError::InvalidWorldFile);
        }
        let mut data: Vec<u8> = Vec::new();
        let mut i: usize = 6;
        while i < raw.len()
            invariant
                6 <= i <= raw@.len(),
                data@ == raw@.subrange(6, i as int),
            decreases raw.len() - i,
        {
            data.push(raw[i]);
            i += 1;
        }
        Ok(World { size_x, size_y, size_z, data })
    }

    /// Loads the world: from the bytes of the world file where one exists, else a new world
    /// of the configured size.
    pub fn load(config: &WorldConfig, file: Option<Vec<u8>>) -> (r: Result<World, WorldError>)
        requires
            file matches Some(raw) ==> !header_overflows(raw@),
        ensures
            match file {
                Some(raw) => match decoded_world(raw@) {
                    Some(w) => r matches Ok(world) && world@ == w,
                    None => r == Err::<World, WorldError>(WorldError::InvalidWorldFile),
                },
                None => r matches Ok(world) && world.size_x == config.size_x && world.size_y
                    == config.size_y && world.size_z == config.size_z && world.data@
                    == generated_blocks(config.size_x, config.size_y, config.size_z),
            },
    {
        match file {
            Some(raw) => World::decode(raw.as_slice()),
            None => Ok(World::generate(config)),
        }
    }

    /// The bytes of the world file that saving this world writes; the cells are moved out into
    /// them.
    pub fn save(&mut self) -> (bytes: Vec<u8>)
        ensures
            bytes@ == encoded_world(old(self)@),
            final(self).size_x == old(self).size_x,
            final(self).size_y == old(self).size_y,
            final(self).size_z == old(self).size_z,
            final(self).data@ == Seq::<u8>::empty(),
    {
        let mut to_write: Vec<u8> = Vec::new();
        push_short(&mut to_write, self.size_x);
        push_short(&mut to_write, self.size_y);
        push_short(&mut to_write, self.size_z);
        to_write.append(&mut self.data);
        to_write
    }

    /// Index of the cell at a position, as the server computes it; `None` where that
    /// computation overflows `u32` or falls outside the cells.
    pub fn block_offset(&self, x: i16, y: i16, z: i16) -> (r: Option<usize>)
        ensures
            match block_index(self@, x, y, z) {
                Some(i) => r == Some(i as usize),
                None => r is None,
            },
    {
        let xu = to_u64_wrapped(x);
        let yu = to_u64_wrapped(y);
        let zu = to_u64_wrapped(z);
        let sxu = to_u64_wrapped(self.size_x);
        let szu = to_u64_wrapped(self.size_z);
        let max: u64 = 0xFFFF_FFFF;
        assert(zu * sxu <= u64::MAX) by (nonlinear_arith)
            requires
                zu <= max,
                sxu <= max,
                max == 0xFFFF_FFFFu64,
        ;
        let a = zu * sxu;
        if a > max {
            return None;
        }
        let s1 = xu + a;
        if s1 > max {
            return None;
        }
        assert(yu * sxu <= u64::MAX) by (nonlinear_arith)
            requires
                yu <= max,
                sxu <= max,
                max == 0xFFFF_FFFFu64,
        ;
        let b = yu * sxu;
        if b > max {
            return None;
        }
        assert(b * szu <= u64::MAX) by (nonlinear_arith)
            requires
                b <= max,
                szu <= max,
                max == 0xFFFF_FFFFu64,
        ;
        let c = b * szu;
        if c > max {
            return None;
        }
        let s2 = s1 + c;
        if s2 > max {
            return None;
        }
        if (s2 as usize) < self.data.len() && s2 < usize::MAX as u64 {
            Some(s2 as usize)
        } else {
            None
        }
    }
}

/// A world file read back gives the world that was written, for every world a file can
/// hold.
pub proof fn lemma_world_file_roundtrip(w: WorldView)
    requires
        storable(w),
    ensures
        !header_overflows(encoded_world(w)),
        decoded_world(encoded_world(w)) == Some(w),
{
    let raw = encoded_world(w);
    lemma_short_roundtrip(w.size_x);
    lemma_short_roundtrip(w.size_y);
    lemma_short_roundtrip(w.size_z);
    assert(raw[0] == short_bytes(w.size_x)[0]);
    assert(raw[1] == short_bytes(w.size_x)[1]);
    assert(raw[2] == short_bytes(w.size_y)[0]);
    assert(raw[3] == short_bytes(w.size_y)[1]);
    assert(raw[4] == short_bytes(w.size_z)[0]);
    assert(raw[5] == short_bytes(w.size_z)[1]);
    assert(raw.subrange(6, raw.len() as int) =~= w.data);
}

/// Saving a world that was read from a file writes that file back byte for byte.
pub proof fn lemma_world_file_rewrite(raw: Seq<u8>)
    requires
        decoded_world(raw) is Some,
    ensures
        encoded_world(decoded_world(raw)->0) == raw,
{
    lemma_bytes_roundtrip(raw[0], raw[1]);
    lemma_bytes_roundtrip(raw[2], raw[3]);
    lemma_bytes_roundtrip(raw[4], raw[5]);
    assert(encoded_world(decoded_world(raw)->0) =~= raw);
}

/// A newly generated world whose sizes are non-negative and within the file limits can be
/// stored, and so reads back unchanged after a save.
pub proof fn lemma_generated_world_storable(size_x: i16, size_y: i16, size_z: i16)
    requires
        0 <= size_x <= MAX_SIZE_X,
        0 <= size_y <= MAX_SIZE_Y,
        0 <= size_z <= MAX_SIZE_Z,
    ensures
        storable(
            WorldView {
                size_x,
                size_y,
                size_z,
                data: generated_blocks(size_x, size_y, size_z),
            },
        ),
{
    assert(0 <= size_x * size_y * size_z <= 512 * 256 * 512) by (nonlinear_arith)
        requires
            0 <= size_x <= 512,
            0 <= size_y <= 256,
            0 <= size_z <= 512,
    ;
    if size_x == 0 || size_y == 0 || size_z == 0 {
        assert(size_x * size_y * size_z == 0) by (nonlinear_arith)
            requires
                size_x == 0 || size_y == 0 || size_z == 0,
        ;
    }
}

} // verus!
