use vstd::prelude::*;

verus! {

/// Width and depth of a chunk, in blocks.
pub const CHUNK_SIZE: i32 = 16;

/// Height of a chunk, in blocks.
pub const CHUNK_HEIGHT: i32 = 256;

/// Number of blocks held by one chunk.
pub const BLOCK_NUM_PER_CHUNK: usize = 65536;

/// The position of a chunk in the grid of chunks.
#[derive(Clone, Copy, Debug, Hash, PartialEq, Eq, Structural, PartialOrd, Ord)]
pub struct ChunkCoord {
    pub x: i32,
    pub z: i32,
}

/// The absolute position of a block in the world.
#[derive(Clone, Copy, Debug, Hash, PartialEq, Eq, Structural)]
pub struct BlockPos {
    pub x: i32,
    pub y: i32,
    pub z: i32,
}

/// Floor of `a / CHUNK_SIZE` (spec division by a positive constant rounds down).
pub open spec fn chunk_of(a: int) -> int {
    a / 16
}

/// `a` modulo `CHUNK_SIZE`, always in `0..CHUNK_SIZE`.
pub open spec fn local_of(a: int) -> int {
    a % 16
}

/// The index of local block `(x, y, z)` in a chunk's block array.
pub open spec fn block_index(x: int, y: int, z: int) -> int {
    x * 4096 + y * 16 + z
}

/// Whether `(x, y, z)` lies inside a chunk.
pub open spec fn in_chunk(x: int, y: int, z: int) -> bool {
    0 <= x < 16 && 0 <= y < 256 && 0 <= z < 16
}

/// A chunk whose blocks all have coordinates that fit in an `i32`.
pub open spec fn valid_chunk_coord(c: ChunkCoord) -> bool {
    -134217728 <= c.x < 134217728 && -134217728 <= c.z < 134217728
}

/// A chunk whose blocks, and the neighbours of its blocks, all have
/// coordinates that fit in an `i32`.
pub open spec fn interior_chunk_coord(c: ChunkCoord) -> bool {
    -134217728 < c.x < 134217727 && -134217728 < c.z < 134217727
}

/// The local `x` of the block with index `i`.
pub open spec fn index_x(i: int) -> int {
    i / 4096
}

/// The local `y` of the block with index `i`.
pub open spec fn index_y(i: int) -> int {
    (i % 4096) / 16
}

/// The local `z` of the block with index `i`.
pub open spec fn index_z(i: int) -> int {
    i % 16
}

/// The absolute position of the block with index `i` in chunk `c`.
pub open spec fn index_pos(c: ChunkCoord, i: int) -> BlockPos {
    BlockPos { x: (c.x * 16 + index_x(i)) as i32, y: index_y(i) as i32, z: (c.z * 16 + index_z(i)) as i32 }
}

/// An index names the block whose coordinates it decodes to.
pub proof fn lemma_index_decode(i: int)
    requires
        0 <= i < 65536,
    ensures
        in_chunk(index_x(i), index_y(i), index_z(i)),
        block_index(index_x(i), index_y(i), index_z(i)) == i,
{
    vstd::arithmetic::div_mod::lemma_fundamental_div_mod(i, 4096);
    vstd::arithmetic::div_mod::lemma_fundamental_div_mod(i % 4096, 16);
    vstd::arithmetic::div_mod::lemma_mod_bound(i, 4096);
    vstd::arithmetic::div_mod::lemma_mod_bound(i % 4096, 16);
    vstd::arithmetic::div_mod::lemma_mod_mod(i, 16, 256);
    assert(i % 16 == (i % 4096) % 16) by {
        vstd::arithmetic::div_mod::lemma_mod_mod(i, 16, 256);
    }
}

/// Coordinates inside a chunk are decoded from their index.
pub proof fn lemma_index_encode(x: int, y: int, z: int)
    requires
        in_chunk(x, y, z),
    ensures
        index_x(block_index(x, y, z)) == x,
        index_y(block_index(x, y, z)) == y,
        index_z(block_index(x, y, z)) == z,
{
    let i = block_index(x, y, z);
    vstd::arithmetic::div_mod::lemma_fundamental_div_mod_converse(i, 4096, x, y * 16 + z);
    vstd::arithmetic::div_mod::lemma_fundamental_div_mod_converse(y * 16 + z, 16, y, z);
    vstd::arithmetic::div_mod::lemma_fundamental_div_mod_converse(i, 16, x * 256 + y, z);
}

/// The chunk and local coordinates of a block of chunk `c` are `c` and its local coordinates.
pub proof fn lemma_local_in_chunk(c: int, l: int)
    requires
        0 <= l < 16,
    ensures
        chunk_of(c * 16 + l) == c,
        local_of(c * 16 + l) == l,
{
    vstd::arithmetic::div_mod::lemma_fundamental_div_mod_converse(c * 16 + l, 16, c, l);
}

/// Every coordinate is the origin of its chunk plus its local coordinate,
/// and the local coordinate lies inside the chunk.
pub proof fn lemma_chunk_split(a: int)
    ensures
        chunk_of(a) * 16 + local_of(a) == a,
        0 <= local_of(a) < 16,
{
    vstd::arithmetic::div_mod::lemma_fundamental_div_mod(a, 16);
}

/// The key under which a chunk is stored in the chunk map.
pub open spec fn chunk_key_of(c: ChunkCoord) -> int {
    c.x * 4294967296 + c.z + 2147483648
}

impl ChunkCoord {
    pub fn new(x: i32, z: i32) -> (c: Self)
        ensures
            c.x == x,
            c.z == z,
    {
        Self { x, z }
    }

    /// The key of this chunk in the chunk map; distinct chunks have distinct keys.
    pub fn key(&self) -> (k: i64)
        ensures
            k == chunk_key_of(*self),
    {
        (self.x as i64) * 4294967296 + ((self.z as i64) + 2147483648)
    }

    /// The chunk whose key is `k`.
    pub fn from_key(k: i64) -> (c: Self)
        requires
            chunk_key_of(coord_of_key(k as int)) == k,
        ensures
            c == coord_of_key(k as int),
    {
        proof {
            lemma_key_parts(coord_of_key(k as int));
        }
        let x = floor_div(k, 4294967296);
        let z = k - x * 4294967296 - 2147483648;
        Self { x: x as i32, z: z as i32 }
    }
}

/// The chunk whose key is `k`, for a key of some chunk.
pub open spec fn coord_of_key(k: int) -> ChunkCoord {
    ChunkCoord { x: (k / 4294967296) as i32, z: (k % 4294967296 - 2147483648) as i32 }
}

/// The key of a chunk determines it.
pub proof fn lemma_key_injective(a: ChunkCoord, b: ChunkCoord)
    ensures
        chunk_key_of(a) == chunk_key_of(b) <==> a == b,
        coord_of_key(chunk_key_of(a)) == a,
        i64::MIN <= chunk_key_of(a) <= i64::MAX,
{
    lemma_key_parts(a);
    lemma_key_parts(b);
}

proof fn lemma_key_parts(c: ChunkCoord)
    ensures
        chunk_key_of(c) / 4294967296 == c.x,
        chunk_key_of(c) % 4294967296 == c.z + 2147483648,
{
    let k = chunk_key_of(c);
    let r = c.z + 2147483648;
    assert(0 <= r < 4294967296);
    vstd::arithmetic::div_mod::lemma_fundamental_div_mod_converse(k, 4294967296, c.x as int, r);
}

/// Floor division of `a` by a positive `d`.
fn floor_div(a: i64, d: i64) -> (q: i64)
    requires
        d > 0,
    ensures
        q == a / d,
{
    if a >= 0 {
        a / d
    } else {
        let p = -(a + 1);
        let q0 = p / d;
        proof {
            let r0 = p % d;
            assert(p == d * q0 + r0) by {
                vstd::arithmetic::div_mod::lemma_fundamental_div_mod(p as int, d as int);
            }
            assert(0 <= r0 < d) by {
                vstd::arithmetic::div_mod::lemma_mod_bound(p as int, d as int);
            }
            assert(a == (-q0 - 1) * d + (d - 1 - r0)) by (nonlinear_arith)
                requires
                    p == d * q0 + r0,
                    a == -(p + 1),
            ;
            vstd::arithmetic::div_mod::lemma_fundamental_div_mod_converse(
                a as int,
                d as int,
                -q0 - 1,
                d - 1 - r0,
            );
        }
        -q0 - 1
    }
}

/// The chunk that holds the block column at absolute `(x, z)`.
pub fn get_chunk_coord(x: i32, z: i32) -> (c: ChunkCoord)
    ensures
        c.x == chunk_of(x as int),
        c.z == chunk_of(z as int),
        valid_chunk_coord(c),
{
    let cx = floor_div(x as i64, 16);
    let cz = floor_div(z as i64, 16);
    ChunkCoord { x: cx as i32, z: cz as i32 }
}

/// The position of a block inside its chunk; `y` is kept as it is.
pub fn get_local_coord(coord: BlockPos) -> (l: BlockPos)
    ensures
        l.x == local_of(coord.x as int),
        l.y == coord.y,
        l.z == local_of(coord.z as int),
        coord.x == chunk_of(coord.x as int) * 16 + l.x,
        coord.z == chunk_of(coord.z as int) * 16 + l.z,
{
    let cx = floor_div(coord.x as i64, 16);
    let cz = floor_div(coord.z as i64, 16);
    let lx = (coord.x as i64) - cx * 16;
    let lz = (coord.z as i64) - cz * 16;
    proof {
        vstd::arithmetic::div_mod::lemma_fundamental_div_mod(coord.x as int, 16);
        vstd::arithmetic::div_mod::lemma_fundamental_div_mod(coord.z as int, 16);
    }
    BlockPos { x: lx as i32, y: coord.y, z: lz as i32 }
}

/// Whether computing the index of `(x, y, z)` stays inside the `i32` range
/// at every step (`x * 16 * 256`, `y * 16`, and the sums).
pub open spec fn index_fits(x: int, y: int, z: int) -> bool {
    &&& i32::MIN <= x * 4096 <= i32::MAX
    &&& i32::MIN <= y * 16 <= i32::MAX
    &&& i32::MIN <= x * 4096 + y * 16 <= i32::MAX
    &&& i32::MIN <= block_index(x, y, z) <= i32::MAX
}

/// The index of local block `(x, y, z)` in a chunk's arrays.
pub fn relative_to_index(x: i32, y: i32, z: i32) -> (i: usize)
    requires
        index_fits(x as int, y as int, z as int),
    ensures
        i == block_index(x as int, y as int, z as int) as usize,
        0 <= block_index(x as int, y as int, z as int) < 65536 ==> i == block_index(x as int, y as int, z as int),
{
    ((x as i64) * 4096 + (y as i64) * 16 + (z as i64)) as usize
}

/// The absolute position of local block `(x, y, z)` of chunk `c`.
pub fn relative_to_absolute(c: ChunkCoord, x: i32, y: i32, z: i32) -> (p: BlockPos)
    requires
        valid_chunk_coord(c),
        0 <= x < 16,
        0 <= z < 16,
    ensures
        p.x == c.x * 16 + x,
        p.y == y,
        p.z == c.z * 16 + z,
{
    BlockPos { x: c.x * 16 + x, y, z: c.z * 16 + z }
}

impl BlockPos {
    pub fn new(x: i32, y: i32, z: i32) -> (p: Self)
        ensures
            p.x == x,
            p.y == y,
            p.z == z,
    {
        Self { x, y, z }
    }
}

} // verus!
