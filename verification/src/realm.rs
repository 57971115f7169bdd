use std::collections::HashMap;

use vstd::prelude::*;

use vstd::std_specs::iter::IteratorSpec;
use crate::block::{create_all_block, type_id, Block, BlockInfo, BlockType, Instance};
use crate::coord::{
    block_index, chunk_key_of, chunk_of, coord_of_key, index_pos, index_x, index_z, interior_chunk_coord,
    lemma_index_decode, lemma_index_encode, lemma_key_injective, lemma_local_in_chunk, get_chunk_coord, get_local_coord, in_chunk, local_of,
    relative_to_absolute, relative_to_index, valid_chunk_coord, index_fits, BlockPos, ChunkCoord,
    BLOCK_NUM_PER_CHUNK, CHUNK_HEIGHT, CHUNK_SIZE,
};

verus! {

broadcast use vstd::std_specs::hash::group_hash_axioms;

/// The slot value of a block that has no instance.
pub const NO_OFFSET: u64 = 0xffff_ffff_ffff_ffff;

/// The blocks of one chunk, as they are stored on disk.
#[derive(Clone, Debug)]
pub struct ChunkData {
    pub blocks: Vec<Block>,
}

/// Why stored chunk data was refused.
#[derive(Clone, Copy, Debug, PartialEq, Eq, Structural)]
pub enum ChunkDataError {
    /// The data does not hold one block for every position of a chunk.
    WrongBlockCount,
}

impl ChunkData {
    /// The block at local `(x, y, z)`.
    pub fn get_block(&self, x: i32, y: i32, z: i32) -> (b: Block)
        requires
            0 <= block_index(x as int, y as int, z as int) < self.blocks.len(),
            index_fits(x as int, y as int, z as int),
            self.blocks.len() == 65536,
        ensures
            b == self.blocks@[block_index(x as int, y as int, z as int)],
    {
        self.blocks[relative_to_index(x, y, z)]
    }

    /// Accepts loaded blocks as chunk data only when there is one for every
    /// position of a chunk.
    pub fn from_blocks(blocks: Vec<Block>) -> (r: Result<ChunkData, ChunkDataError>)
        ensures
            blocks.len() == 65536 <==> r is Ok,
            r matches Ok(d) ==> d.blocks@ == blocks@,
            r matches Err(e) ==> e == ChunkDataError::WrongBlockCount,
    {
        if blocks.len() != BLOCK_NUM_PER_CHUNK {
            Err(ChunkDataError::WrongBlockCount)
        } else {
            Ok(ChunkData { blocks })
        }
    }

    /// Chunk data made of empty blocks only.
    pub fn empty() -> (d: ChunkData)
        ensures
            d.blocks.len() == 65536,
            forall|i: int| 0 <= i < 65536 ==> (#[trigger] d.blocks@[i]).tp == BlockType::Empty,
    {
        ChunkData { blocks: vec![Block::empty(); BLOCK_NUM_PER_CHUNK] }
    }
}

/// A loaded chunk: its blocks, and the instances the renderer draws for it.
///
/// `instance[0..offset_top]` are the drawn instances; `coord_to_offset[i]` is
/// the slot of the instance of the block with index `i`, or `NO_OFFSET`.
#[derive(Clone, Debug)]
pub struct Chunk {
    data: ChunkData,
    coord_to_offset: Vec<u64>,
    pub instance: Vec<Instance>,
    pub offset_top: u64,
}

/// The index, in its chunk, of the block that an instance draws.
pub open spec fn inst_index(inst: Instance) -> int {
    block_index(local_of(inst.position.x as int), inst.position.y as int, local_of(inst.position.z as int))
}

/// Whether absolute position `p` lies in chunk `c`.
pub open spec fn pos_in_chunk(c: ChunkCoord, p: BlockPos) -> bool {
    &&& chunk_of(p.x as int) == c.x
    &&& chunk_of(p.z as int) == c.z
    &&& 0 <= p.y < 256
}

impl Chunk {
    /// The blocks of this chunk, by index.
    pub closed spec fn blocks(&self) -> Seq<Block> {
        self.data.blocks@
    }

    /// The instance slot of each block, by index.
    pub closed spec fn offsets(&self) -> Seq<u64> {
        self.coord_to_offset@
    }

    /// The drawn instances' array.
    pub closed spec fn instances(&self) -> Seq<Instance> {
        self.instance@
    }

    /// The number of drawn instances.
    pub closed spec fn top(&self) -> u64 {
        self.offset_top
    }

    /// The block at local `(x, y, z)`.
    pub open spec fn block_at(&self, x: int, y: int, z: int) -> Block {
        self.blocks()[block_index(x, y, z)]
    }

    /// All arrays hold one entry per block position.
    pub open spec fn wf(&self) -> bool {
        &&& self.blocks().len() == 65536
        &&& self.offsets().len() == 65536
        &&& self.instances().len() == 65536
    }

    /// The instances `instance[0..offset_top]` are exactly the instances that
    /// `coord_to_offset` points at, each drawing a non-empty block of chunk `c`
    /// with that block's kind.
    pub open spec fn render_consistent(&self, c: ChunkCoord) -> bool {
        &&& self.top() <= 65536
        &&& forall|o: int|
            0 <= o < self.top() ==> {
                let inst = #[trigger] self.instances()[o];
                &&& pos_in_chunk(c, inst.position)
                &&& self.offsets()[inst_index(inst)] == o
                &&& self.blocks()[inst_index(inst)].tp != BlockType::Empty
                &&& inst.block_type == type_id(self.blocks()[inst_index(inst)].tp)
            }
        &&& forall|i: int|
            0 <= i < 65536 && #[trigger] self.offsets()[i] != NO_OFFSET ==> {
                &&& self.offsets()[i] < self.top()
                &&& inst_index(self.instances()[self.offsets()[i] as int]) == i
            }
    }

    /// A chunk with no instances.
    pub open spec fn fresh(&self) -> bool {
        &&& self.top() == 0
        &&& forall|i: int| 0 <= i < 65536 ==> #[trigger] self.offsets()[i] == NO_OFFSET
    }

    /// A loaded chunk with the given blocks and no instances yet.
    pub fn new(data: ChunkData) -> (c: Self)
        ensures
            c.blocks() == data.blocks@,
            data.blocks.len() == 65536 ==> c.wf(),
            c.fresh(),
            c.top() == 0,
            c.offsets().len() == 65536,
            forall|i: int| 0 <= i < 65536 ==> #[trigger] c.offsets()[i] == NO_OFFSET,
            c.instances().len() == 65536,
            forall|o: int| 0 <= o < 65536 ==> #[trigger] c.instances()[o] == crate::block::empty_instance(),
    {
        let coord_to_offset = vec![NO_OFFSET; BLOCK_NUM_PER_CHUNK];
        let instance = vec![Instance::empty(); BLOCK_NUM_PER_CHUNK];
        Self { data, instance, coord_to_offset, offset_top: 0 }
    }

    /// Whether this chunk has no instances (see `fresh`).
    pub fn is_fresh(&self) -> (r: bool)
        requires
            self.wf(),
        ensures
            r == self.fresh(),
    {
        if self.offset_top != 0 {
            return false;
        }
        let mut i: usize = 0;
        while i < BLOCK_NUM_PER_CHUNK
            invariant
                i <= 65536,
                self.wf(),
                self.offset_top == 0,
                forall|j: int| 0 <= j < i ==> #[trigger] self.offsets()[j] == NO_OFFSET,
            decreases 65536 - i,
        {
            if self.coord_to_offset[i] != NO_OFFSET {
                return false;
            }
            i = i + 1;
        }
        true
    }

    /// The block at local `(x, y, z)`.
    pub fn get_block(&self, x: i32, y: i32, z: i32) -> (b: Block)
        requires
            self.wf(),
            0 <= block_index(x as int, y as int, z as int) < 65536,
            index_fits(x as int, y as int, z as int),
        ensures
            b == self.block_at(x as int, y as int, z as int),
    {
        self.data.blocks[relative_to_index(x, y, z)]
    }

    /// Writes the block at local `(x, y, z)`.
    pub fn set_block(&mut self, x: i32, y: i32, z: i32, block: Block)
        requires
            old(self).wf(),
            0 <= block_index(x as int, y as int, z as int) < 65536,
            index_fits(x as int, y as int, z as int),
        ensures
            final(self).wf(),
            final(self).blocks() == old(self).blocks().update(block_index(x as int, y as int, z as int), block),
            final(self).offsets() == old(self).offsets(),
            final(self).instances() == old(self).instances(),
            final(self).top() == old(self).top(),
    {
        self.data.blocks.set(relative_to_index(x, y, z), block);
    }

    /// The stored part of this chunk.
    pub fn data(&self) -> (d: &ChunkData)
        ensures
            d.blocks@ == self.blocks(),
    {
        &self.data
    }

    /// The instance slot of the block with index `i`.
    pub fn offset_of(&self, i: usize) -> (o: u64)
        requires
            self.wf(),
            i < 65536,
        ensures
            o == self.offsets()[i as int],
    {
        self.coord_to_offset[i]
    }

    /// Forgets every drawn instance: no block has a slot and `offset_top` is 0.
    /// The blocks and the instance array are kept.
    fn clear_instances(&mut self)
        requires
            old(self).wf(),
        ensures
            final(self).wf(),
            final(self).fresh(),
            final(self).blocks() == old(self).blocks(),
            final(self).instances() == old(self).instances(),
    {
        self.offset_top = 0;
        let mut i: usize = 0;
        while i < BLOCK_NUM_PER_CHUNK
            invariant
                i <= 65536,
                self.wf(),
                self.offset_top == 0,
                self.blocks() == old(self).blocks(),
                self.instances() == old(self).instances(),
                forall|j: int| 0 <= j < i ==> #[trigger] self.offsets()[j] == NO_OFFSET,
            decreases 65536 - i,
        {
            self.coord_to_offset.set(i, NO_OFFSET);
            i = i + 1;
        }
    }

    /// Writes `found[j].1` into instance slot `j` and points block `found[j].0`
    /// at it, for each `j`, counting each written instance in `offset_top`.
    fn install_instances(&mut self, found: &Vec<(usize, Instance)>)
        requires
            old(self).wf(),
            old(self).offset_top <= 0x7fff_ffff_ffff_ffff,
            found.len() <= 65536,
            forall|j: int| 0 <= j < found.len() ==> (#[trigger] found@[j]).0 < 65536,
            forall|j1: int, j2: int|
                0 <= j1 < found.len() && 0 <= j2 < found.len() && j1 != j2 ==> (#[trigger] found@[j1]).0
                    != (#[trigger] found@[j2]).0,
        ensures
            final(self).wf(),
            final(self).blocks() == old(self).blocks(),
            final(self).offset_top == old(self).offset_top + found.len(),
            forall|j: int|
                0 <= j < found.len() ==> {
                    &&& final(self).instances()[j] == (#[trigger] found@[j]).1
                    &&& final(self).offsets()[found@[j].0 as int] == j
                },
            forall|j: int|
                found.len() <= j < 65536 ==> #[trigger] final(self).instances()[j] == old(self).instances()[j],
            forall|i: int|
                0 <= i < 65536 && (forall|j: int| 0 <= j < found.len() ==> (#[trigger] found@[j]).0 != i)
                    ==> #[trigger] final(self).offsets()[i] == old(self).offsets()[i],
    {
        let mut j: usize = 0;
        while j < found.len()
            invariant
                j <= found.len() <= 65536,
                self.wf(),
                self.blocks() == old(self).blocks(),
                self.offset_top == old(self).offset_top + j,
                old(self).offset_top <= 0x7fff_ffff_ffff_ffff,
                forall|j2: int| 0 <= j2 < found.len() ==> (#[trigger] found@[j2]).0 < 65536,
                forall|j1: int, j2: int|
                    0 <= j1 < found.len() && 0 <= j2 < found.len() && j1 != j2 ==> (#[trigger] found@[j1]).0
                        != (#[trigger] found@[j2]).0,
                forall|j2: int|
                    0 <= j2 < j ==> {
                        &&& self.instances()[j2] == (#[trigger] found@[j2]).1
                        &&& self.offsets()[found@[j2].0 as int] == j2
                    },
                forall|j2: int| j <= j2 < 65536 ==> #[trigger] self.instances()[j2] == old(self).instances()[j2],
                forall|i: int|
                    0 <= i < 65536 && (forall|j2: int| 0 <= j2 < j ==> (#[trigger] found@[j2]).0 != i)
                        ==> #[trigger] self.offsets()[i] == old(self).offsets()[i],
            decreases found.len() - j,
        {
            let (i, inst) = found[j];
            let ghost prev = *self;
            self.instance.set(j, inst);
            self.coord_to_offset.set(i, j as u64);
            self.offset_top = self.offset_top + 1;
            proof {
                assert forall|j2: int| j + 1 <= j2 < 65536 implies #[trigger] self.instances()[j2]
                    == old(self).instances()[j2] by {
                    assert(prev.instances()[j2] == old(self).instances()[j2]);
                }
                assert forall|i2: int|
                    0 <= i2 < 65536 && (forall|j2: int| 0 <= j2 < j + 1 ==> (#[trigger] found@[j2]).0 != i2)
                        implies #[trigger] self.offsets()[i2] == old(self).offsets()[i2] by {
                    assert(found@[j as int].0 != i2);
                    assert(prev.offsets()[i2] == old(self).offsets()[i2]);
                }
            }
            j = j + 1;
        }
    }
}

impl Chunk {
    /// Makes `inst` the next drawn instance, drawing the block with index `i`.
    fn push_instance(&mut self, i: usize, inst: Instance) -> (offset: u64)
        requires
            old(self).wf(),
            i < 65536,
            old(self).offset_top < 65536,
        ensures
            final(self).wf(),
            offset == old(self).offset_top,
            final(self).offset_top == old(self).offset_top + 1,
            final(self).blocks() == old(self).blocks(),
            final(self).instances() == old(self).instances().update(offset as int, inst),
            final(self).offsets() == old(self).offsets().update(i as int, offset),
    {
        let offset = self.offset_top;
        self.offset_top = self.offset_top + 1;
        self.coord_to_offset.set(i, offset);
        self.instance.set(offset as usize, inst);
        offset
    }

    /// Stops drawing the block with index `i`: the last drawn instance moves
    /// into its slot. Returns the slot and the instance now in it.
    fn swap_remove_instance(&mut self, i: usize) -> (r: (u64, Instance))
        requires
            old(self).wf(),
            i < 65536,
            1 <= old(self).offset_top <= 65536,
            old(self).offsets()[i as int] < 65536,
            0 <= inst_index(old(self).instances()[old(self).offset_top - 1]) < 65536,
        ensures
            final(self).wf(),
            r.0 == old(self).offsets()[i as int],
            r.1 == old(self).instances()[old(self).offset_top - 1],
            final(self).offset_top == old(self).offset_top - 1,
            final(self).blocks() == old(self).blocks(),
            final(self).instances() == old(self).instances().update(r.0 as int, r.1),
            final(self).offsets() == old(self).offsets().update(inst_index(r.1), r.0).update(
                i as int,
                NO_OFFSET,
            ),
    {
        let offset = self.coord_to_offset[i];
        let instance = self.instance[(self.offset_top - 1) as usize];
        self.offset_top = self.offset_top - 1;
        self.instance.set(offset as usize, instance);
        let move_instance = self.instance[self.offset_top as usize];
        assert(move_instance == instance);
        let move_coor = get_local_coord(move_instance.position);
        self.coord_to_offset.set(relative_to_index(move_coor.x, move_coor.y, move_coor.z), offset);
        self.coord_to_offset.set(i, NO_OFFSET);
        (offset, instance)
    }

    /// A chunk whose drawn instances all draw distinct blocks has fewer than
    /// 65536 of them while some block is not drawn.
    proof fn lemma_room_for_instance(&self, c: ChunkCoord, i: int)
        requires
            self.wf(),
            self.render_consistent(c),
            0 <= i < 65536,
            self.offsets()[i] == NO_OFFSET,
        ensures
            self.offset_top < 65536,
    {
        let top = self.offset_top as int;
        let x = vstd::set_lib::set_int_range(0, top);
        let f = |o: int| inst_index(self.instance@[o]);
        let y = x.map(f);
        let z = vstd::set_lib::set_int_range(0, 65536).remove(i);
        vstd::set_lib::lemma_int_range(0, top);
        vstd::set_lib::lemma_int_range(0, 65536);
        assert(vstd::relations::injective_on(f, x)) by {
            assert forall|a: int, b: int| x.contains(a) && x.contains(b) && #[trigger] f(a) == #[trigger] f(b) implies a == b by {
                assert(self.instance@[a] == self.instance@[a]);
                assert(self.instance@[b] == self.instance@[b]);
            }
        }
        vstd::set_lib::lemma_map_size(x, y, f);
        assert(y.subset_of(z)) by {
            assert forall|v: int| y.contains(v) implies z.contains(v) by {
                let o = choose|o: int| x.contains(o) && f(o) == v;
                assert(self.instance@[o] == self.instance@[o]);
            }
        }
        vstd::set_lib::lemma_len_subset(y, z);
    }

    /// Drawing a non-empty block that was not drawn keeps the instances consistent.
    proof fn lemma_push_consistent(&self, next: &Chunk, c: ChunkCoord, i: int, inst: Instance, b: Block)
        requires
            self.wf(),
            next.wf(),
            self.render_consistent(c),
            0 <= i < 65536,
            self.offsets()[i] == NO_OFFSET,
            self.offset_top < 65536,
            b.tp != BlockType::Empty,
            inst_index(inst) == i,
            pos_in_chunk(c, inst.position),
            inst.block_type == type_id(b.tp),
            next.blocks() == self.blocks().update(i, b),
            next.offset_top == self.offset_top + 1,
            next.instances() == self.instances().update(self.offset_top as int, inst),
            next.offsets() == self.offsets().update(i, self.offset_top),
        ensures
            next.render_consistent(c),
    {
        assert forall|o: int| 0 <= o < next.offset_top implies {
            let inst2 = #[trigger] next.instance@[o];
            &&& pos_in_chunk(c, inst2.position)
            &&& next.offsets()[inst_index(inst2)] == o
            &&& next.blocks()[inst_index(inst2)].tp != BlockType::Empty
            &&& inst2.block_type == type_id(next.blocks()[inst_index(inst2)].tp)
        } by {
            if o < self.offset_top {
                assert(self.instance@[o] == next.instance@[o]);
                assert(inst_index(self.instance@[o]) != i);
            }
        }
        assert forall|k: int| 0 <= k < 65536 && #[trigger] next.offsets()[k] != NO_OFFSET implies {
            &&& next.offsets()[k] < next.offset_top
            &&& inst_index(next.instance@[next.offsets()[k] as int]) == k
        } by {
            if k != i {
                assert(self.offsets()[k] != NO_OFFSET);
            }
        }
    }

    /// Emptying a drawn block and moving the last instance into its slot keeps
    /// the instances consistent.
    proof fn lemma_remove_consistent(&self, next: &Chunk, c: ChunkCoord, i: int)
        requires
            self.wf(),
            next.wf(),
            self.render_consistent(c),
            0 <= i < 65536,
            self.offsets()[i] != NO_OFFSET,
            next.blocks() == self.blocks().update(i, Block { tp: BlockType::Empty }),
            next.offset_top == self.offset_top - 1,
            next.instances() == self.instances().update(
                self.offsets()[i] as int,
                self.instances()[self.offset_top - 1],
            ),
            next.offsets() == self.offsets().update(
                inst_index(self.instances()[self.offset_top - 1]),
                self.offsets()[i],
            ).update(i, NO_OFFSET),
        ensures
            next.render_consistent(c),
    {
        let off = self.offsets()[i] as int;
        let top = self.offset_top as int;
        let last = self.instances()[top - 1];
        let j = inst_index(last);
        assert(self.instance@[off] == self.instance@[off]);
        assert(self.instance@[top - 1] == last);
        assert(inst_index(self.instance@[off]) == i);
        assert(off == top - 1 ==> j == i);
        assert forall|o: int| 0 <= o < next.offset_top implies {
            let inst2 = #[trigger] next.instance@[o];
            &&& pos_in_chunk(c, inst2.position)
            &&& next.offsets()[inst_index(inst2)] == o
            &&& next.blocks()[inst_index(inst2)].tp != BlockType::Empty
            &&& inst2.block_type == type_id(next.blocks()[inst_index(inst2)].tp)
        } by {
            assert(self.instance@[o] == self.instance@[o]);
            if o != off {
                assert(next.instance@[o] == self.instance@[o]);
                assert(inst_index(self.instance@[o]) != i);
                assert(inst_index(self.instance@[o]) != j);
            }
        }
        assert forall|k: int| 0 <= k < 65536 && #[trigger] next.offsets()[k] != NO_OFFSET implies {
            &&& next.offsets()[k] < next.offset_top
            &&& inst_index(next.instance@[next.offsets()[k] as int]) == k
        } by {
            if k != j {
                assert(self.offsets()[k] != NO_OFFSET);
                let o = self.offsets()[k] as int;
                assert(inst_index(self.instance@[o]) == k);
            }
        }
    }
}

/// One write of an instance into the GPU copy of a chunk's instance array.
#[derive(Clone, Copy, Debug, PartialEq, Eq, Structural)]
pub struct InstanceWrite {
    pub chunk: ChunkCoord,
    pub offset: u64,
    pub instance: Instance,
}

/// The instance array of chunk `c` after `writes` are made to `insts`, in order.
pub open spec fn apply_writes(insts: Seq<Instance>, c: ChunkCoord, writes: Seq<InstanceWrite>) -> Seq<Instance>
    decreases writes.len(),
{
    if writes.len() == 0 {
        insts
    } else {
        let prev = apply_writes(insts, c, writes.drop_last());
        let w = writes.last();
        if w.chunk == c && w.offset < prev.len() {
            prev.update(w.offset as int, w.instance)
        } else {
            prev
        }
    }
}

/// Writing `w1` then `w2` is writing `w1 + w2`.
pub proof fn lemma_apply_writes_append(
    insts: Seq<Instance>,
    c: ChunkCoord,
    w1: Seq<InstanceWrite>,
    w2: Seq<InstanceWrite>,
)
    ensures
        apply_writes(apply_writes(insts, c, w1), c, w2) == apply_writes(insts, c, w1 + w2),
        apply_writes(insts, c, w1).len() == insts.len(),
    decreases w2.len(),
{
    if w2.len() == 0 {
        assert(w1 + w2 =~= w1);
        lemma_apply_writes_len(insts, c, w1);
    } else {
        lemma_apply_writes_append(insts, c, w1, w2.drop_last());
        assert((w1 + w2).drop_last() =~= w1 + w2.drop_last());
        lemma_apply_writes_len(insts, c, w1 + w2.drop_last());
    }
}

proof fn lemma_apply_writes_len(insts: Seq<Instance>, c: ChunkCoord, w: Seq<InstanceWrite>)
    ensures
        apply_writes(insts, c, w).len() == insts.len(),
    decreases w.len(),
{
    if w.len() > 0 {
        lemma_apply_writes_len(insts, c, w.drop_last());
    }
}

/// The key of chunk `c` in the chunk map.
pub open spec fn key_of(c: ChunkCoord) -> i64 {
    chunk_key_of(c) as i64
}

/// The chunk that holds the block column at `p`.
pub open spec fn chunk_coord_of(p: BlockPos) -> ChunkCoord {
    ChunkCoord { x: chunk_of(p.x as int) as i32, z: chunk_of(p.z as int) as i32 }
}

/// The six positions next to `(x, y, z)`, in the order +x, -x, +y, -y, +z, -z.
pub open spec fn neighbour(x: int, y: int, z: int, n: int) -> BlockPos {
    if n == 0 {
        BlockPos { x: (x + 1) as i32, y: y as i32, z: z as i32 }
    } else if n == 1 {
        BlockPos { x: (x - 1) as i32, y: y as i32, z: z as i32 }
    } else if n == 2 {
        BlockPos { x: x as i32, y: (y + 1) as i32, z: z as i32 }
    } else if n == 3 {
        BlockPos { x: x as i32, y: (y - 1) as i32, z: z as i32 }
    } else if n == 4 {
        BlockPos { x: x as i32, y: y as i32, z: (z + 1) as i32 }
    } else {
        BlockPos { x: x as i32, y: y as i32, z: (z - 1) as i32 }
    }
}

/// Whether none of the coordinates of `p` sits at the end of the `i32` range,
/// so that all six neighbours of `p` exist.
/// Whether `p` is one of the six blocks next to `a`.
pub open spec fn adjacent(a: BlockPos, p: BlockPos) -> bool {
    exists|n: int| 0 <= n < 6 && p == #[trigger] neighbour(a.x as int, a.y as int, a.z as int, n)
}

pub open spec fn has_neighbours(p: BlockPos) -> bool {
    &&& i32::MIN < p.x < i32::MAX
    &&& i32::MIN < p.y < i32::MAX
    &&& i32::MIN < p.z < i32::MAX
}

/// The world as the game holds it: the loaded chunks and the state of the
/// block selection frame.
pub struct RealmData {
    pub chunk_map: HashMap<i64, Chunk>,
    pub all_block: Vec<BlockInfo>,
    /// How many blocks far the selection ray reaches.
    pub wf_max_len: u32,
    /// Where the selection frame is drawn.
    pub wf_position: BlockPos,
    pub is_wf_visible: bool,
    pub center_chunk_pos: ChunkCoord,
    pub chunk_rad: i32,
    pub name: &'static str,
    pub seed: u32,
}

impl RealmData {
    /// The loaded chunks, by key.
    pub open spec fn chunks(&self) -> Map<i64, Chunk> {
        self.chunk_map@
    }

    /// How many chunks around the centre chunk are kept loaded in each direction.
    pub open spec fn radius(&self) -> int {
        self.chunk_rad as int
    }

    /// Every loaded chunk is stored under the key of a chunk whose blocks have
    /// `i32` coordinates, and holds one entry per block position.
    pub open spec fn wf(&self) -> bool {
        forall|k: i64|
            #[trigger] self.chunk_map@.contains_key(k) ==> {
                &&& key_of(coord_of_key(k as int)) == k
                &&& valid_chunk_coord(coord_of_key(k as int))
                &&& self.chunk_map@[k].wf()
            }
    }

    /// Every loaded chunk's instances agree with its blocks (see `Chunk::render_consistent`).
    pub open spec fn render_consistent(&self) -> bool {
        forall|k: i64|
            #[trigger] self.chunk_map@.contains_key(k) ==> self.chunk_map@[k].render_consistent(
                coord_of_key(k as int),
            )
    }

    /// Whether chunk `c` is loaded.
    pub open spec fn is_loaded(&self, c: ChunkCoord) -> bool {
        self.chunks().contains_key(key_of(c))
    }

    /// The block at `p`; empty outside the loaded chunks and outside `0..CHUNK_HEIGHT`.
    pub open spec fn world_block(&self, p: BlockPos) -> Block {
        let c = chunk_coord_of(p);
        if self.is_loaded(c) && 0 <= p.y < 256 {
            self.chunks()[key_of(c)].block_at(local_of(p.x as int), p.y as int, local_of(p.z as int))
        } else {
            Block { tp: BlockType::Empty }
        }
    }

    /// Whether some face of the block at `p` shows, that is, some neighbour is empty.
    pub open spec fn visible(&self, p: BlockPos) -> bool {
        exists|n: int|
            0 <= n < 6 && #[trigger] self.world_block(neighbour(p.x as int, p.y as int, p.z as int, n)).tp
                == BlockType::Empty
    }

    /// Replacing a loaded chunk by a well-formed one keeps the world
    /// well-formed, and keeps it render-consistent when the new chunk is.
    proof fn lemma_replace_chunk(&self, before: &RealmData, key: i64)
        requires
            before.wf(),
            before.chunks().contains_key(key),
            self.chunks() =~= before.chunks().insert(key, self.chunks()[key]),
            self.chunks()[key].wf(),
        ensures
            self.wf(),
            self.chunks().dom() == before.chunks().dom(),
            before.render_consistent() && self.chunks()[key].render_consistent(coord_of_key(key as int))
                ==> self.render_consistent(),
    {
        assert(self.chunks().dom() =~= before.chunks().dom());
        assert forall|k: i64| #[trigger] self.chunk_map@.contains_key(k) implies {
            &&& key_of(coord_of_key(k as int)) == k
            &&& valid_chunk_coord(coord_of_key(k as int))
            &&& self.chunk_map@[k].wf()
        } by {
            assert(before.chunk_map@.contains_key(k));
        }
        if before.render_consistent() && self.chunks()[key].render_consistent(coord_of_key(key as int)) {
            assert forall|k: i64| #[trigger] self.chunk_map@.contains_key(k) implies self.chunk_map@[k].render_consistent(
                coord_of_key(k as int),
            ) by {
                assert(before.chunk_map@.contains_key(k));
            }
        }
    }

    /// A world with no chunk loaded, centred on chunk (0, 0).
    pub fn empty() -> (r: Self)
        ensures
            r.wf(),
            r.render_consistent(),
            r.chunks() == Map::<i64, Chunk>::empty(),
            r.center_chunk_pos == (ChunkCoord { x: 0, z: 0 }),
            r.radius() == 1,
            r.wf_max_len == 6,
            r.is_wf_visible,
            r.chunk_rad == 1,
            r.wf_position == (BlockPos { x: 0, y: 0, z: 0 }),
            r.name@ == "./data/worlds/default_name_1"@,
            r.seed == 2025318,
            r.all_block.len() == 7,
            forall|i: int|
                0 <= i < 7 ==> {
                    &&& (#[trigger] r.all_block[i]).block_type == crate::block::type_of_id(i)
                    &&& r.all_block[i].tex_offset@ == crate::block::block_textures(crate::block::type_of_id(i))
                },
    {
        Self {
            all_block: create_all_block(),
            chunk_map: HashMap::new(),
            wf_position: BlockPos { x: 0, y: 0, z: 0 },
            wf_max_len: 6,
            is_wf_visible: true,
            center_chunk_pos: ChunkCoord { x: 0, z: 0 },
            name: "./data/worlds/default_name_1",
            chunk_rad: 1,
            seed: 2025318,
        }
    }

    /// The block at `absolute_coord`; empty outside the loaded chunks and
    /// outside `0..CHUNK_HEIGHT`.
    pub fn get_block(&self, absolute_coord: BlockPos) -> (b: Block)
        requires
            self.wf(),
        ensures
            b == self.world_block(absolute_coord),
    {
        let coord = get_chunk_coord(absolute_coord.x, absolute_coord.z);
        match self.chunk_map.get(&coord.key()) {
            None => Block::empty(),
            Some(chunk) => {
                if absolute_coord.y < 0 || absolute_coord.y >= CHUNK_HEIGHT {
                    Block::empty()
                } else {
                    let local = get_local_coord(absolute_coord);
                    proof {
                        assert(chunk.wf());
                    }
                    chunk.get_block(local.x, local.y, local.z)
                }
            }
        }
    }

    /// Whether the block at `(x, y, z)` has a face that shows.
    pub fn has_any_visible_face(&self, x: i32, y: i32, z: i32) -> (r: bool)
        requires
            self.wf(),
            has_neighbours(BlockPos { x, y, z }),
        ensures
            r == self.visible(BlockPos { x, y, z }),
    {
        let ghost p = BlockPos { x, y, z };
        let b0 = self.get_block(BlockPos { x: x + 1, y, z }).tp.is_transparent();
        let b1 = self.get_block(BlockPos { x: x - 1, y, z }).tp.is_transparent();
        let b2 = self.get_block(BlockPos { x, y: y + 1, z }).tp.is_transparent();
        let b3 = self.get_block(BlockPos { x, y: y - 1, z }).tp.is_transparent();
        let b4 = self.get_block(BlockPos { x, y, z: z + 1 }).tp.is_transparent();
        let b5 = self.get_block(BlockPos { x, y, z: z - 1 }).tp.is_transparent();
        proof {
            assert(neighbour(x as int, y as int, z as int, 0) == BlockPos { x: (x + 1) as i32, y, z });
            assert(neighbour(x as int, y as int, z as int, 1) == BlockPos { x: (x - 1) as i32, y, z });
            assert(neighbour(x as int, y as int, z as int, 2) == BlockPos { x, y: (y + 1) as i32, z });
            assert(neighbour(x as int, y as int, z as int, 3) == BlockPos { x, y: (y - 1) as i32, z });
            assert(neighbour(x as int, y as int, z as int, 4) == BlockPos { x, y, z: (z + 1) as i32 });
            assert(neighbour(x as int, y as int, z as int, 5) == BlockPos { x, y, z: (z - 1) as i32 });
        }
        b0 || b1 || b2 || b3 || b4 || b5
    }
}

impl RealmData {
    /// Whether the block with index `i` of loaded chunk `c` is drawn: it is not
    /// empty and one of its faces shows.
    pub open spec fn shows(&self, c: ChunkCoord, i: int) -> bool {
        &&& self.chunks()[key_of(c)].blocks()[i].tp != BlockType::Empty
        &&& self.visible(index_pos(c, i))
    }

    /// How many blocks with an index below `i` of chunk `c` are drawn.
    pub open spec fn shown_before(&self, c: ChunkCoord, i: int) -> nat
        decreases i,
    {
        if i <= 0 {
            0
        } else {
            self.shown_before(c, i - 1) + if self.shows(c, i - 1) {
                1nat
            } else {
                0nat
            }
        }
    }

    /// Drawn blocks are counted in index order.
    proof fn lemma_shown_before_grows(&self, c: ChunkCoord, a: int, b: int)
        requires
            0 <= a <= b,
        ensures
            self.shown_before(c, a) <= self.shown_before(c, b),
            a < b && self.shows(c, a) ==> self.shown_before(c, a) < self.shown_before(c, b),
            self.shown_before(c, b) <= b,
        decreases b,
    {
        if a < b {
            self.lemma_shown_before_grows(c, a, b - 1);
        } else if b > 0 {
            self.lemma_shown_before_grows(c, 0, b - 1);
        }
    }

    /// The instance that draws the block with index `i` of chunk `c`.
    pub open spec fn instance_for(&self, c: ChunkCoord, i: int) -> Instance {
        Instance {
            position: index_pos(c, i),
            block_type: type_id(self.chunks()[key_of(c)].blocks()[i].tp),
        }
    }

    /// `after` is `before` with exactly the blocks of chunk `c` that show in
    /// this world drawn, each once: the `j`-th shown block, in index order, in
    /// slot `j`, and `offset_top` the number of shown blocks; other blocks have
    /// no slot, and slots past the shown ones keep their instances.
    pub open spec fn instanced(&self, c: ChunkCoord, before: Chunk, after: Chunk) -> bool {
        let n = self.shown_before(c, 65536);
        &&& after.blocks() == before.blocks()
        &&& after.top() == n
        &&& forall|i: int|
            0 <= i < 65536 && self.shows(c, i) ==> {
                &&& #[trigger] after.offsets()[i] == self.shown_before(c, i)
                &&& after.instances()[self.shown_before(c, i) as int] == self.instance_for(c, i)
            }
        &&& forall|i: int| 0 <= i < 65536 && !self.shows(c, i) ==> #[trigger] after.offsets()[i] == NO_OFFSET
        &&& forall|j: int| n <= j < 65536 ==> #[trigger] after.instances()[j] == before.instances()[j]
        &&& forall|j: int|
            0 <= j < n ==> {
                let i = inst_index(#[trigger] after.instances()[j]);
                &&& 0 <= i < 65536
                &&& self.shows(c, i)
                &&& self.shown_before(c, i) == j
                &&& after.instances()[j] == self.instance_for(c, i)
            }
    }

    /// The blocks of chunk `c` that are drawn, in index order, each with its instance.
    fn visible_instances(&self, c: ChunkCoord) -> (found: Vec<(usize, Instance)>)
        requires
            self.wf(),
            self.is_loaded(c),
            interior_chunk_coord(c),
        ensures
            found.len() == self.shown_before(c, 65536),
            found.len() <= 65536,
            forall|j: int|
                0 <= j < found.len() ==> {
                    let (i, inst) = #[trigger] found@[j];
                    &&& i < 65536
                    &&& self.shows(c, i as int)
                    &&& self.shown_before(c, i as int) == j
                    &&& inst == self.instance_for(c, i as int)
                },
            forall|i: int|
                0 <= i < 65536 && self.shows(c, i) ==> (#[trigger] found@[self.shown_before(c, i) as int]).0
                    == i,
    {
        let key = c.key();
        let chunk = self.chunk_map.get(&key).unwrap();
        proof {
            assert(chunk.wf());
        }
        let mut found: Vec<(usize, Instance)> = Vec::new();
        let mut i: usize = 0;
        while i < BLOCK_NUM_PER_CHUNK
            invariant
                i <= 65536,
                self.wf(),
                self.is_loaded(c),
                interior_chunk_coord(c),
                key == key_of(c),
                *chunk == self.chunks()[key],
                chunk.wf(),
                found.len() == self.shown_before(c, i as int),
                found.len() <= i,
                forall|j: int|
                    0 <= j < found.len() ==> {
                        let (i2, inst) = #[trigger] found@[j];
                        &&& i2 < i
                        &&& self.shows(c, i2 as int)
                        &&& self.shown_before(c, i2 as int) == j
                        &&& inst == self.instance_for(c, i2 as int)
                    },
                forall|i2: int|
                    0 <= i2 < i && self.shows(c, i2) ==> (#[trigger] found@[self.shown_before(c, i2) as int]).0
                        == i2,
            decreases 65536 - i,
        {
            proof {
                lemma_index_decode(i as int);
            }
            let x = (i / 4096) as i32;
            let y = ((i % 4096) / 16) as i32;
            let z = (i % 16) as i32;
            let block = chunk.get_block(x, y, z);
            let ghost before = found@;
            let shown = if block.tp != BlockType::Empty {
                let abs = relative_to_absolute(c, x, y, z);
                assert(abs == index_pos(c, i as int));
                self.has_any_visible_face(abs.x, abs.y, abs.z)
            } else {
                false
            };
            proof {
                assert(shown == self.shows(c, i as int));
                assert(self.shown_before(c, i + 1) == self.shown_before(c, i as int) + if shown {
                    1nat
                } else {
                    0nat
                });
            }
            if shown {
                let abs = relative_to_absolute(c, x, y, z);
                found.push((i, Instance { position: abs, block_type: block.tp.id() }));
            }
            proof {
                assert(forall|j: int| 0 <= j < before.len() ==> found@[j] == before[j]);
                assert forall|i2: int|
                    0 <= i2 < i + 1 && self.shows(c, i2) implies (#[trigger] found@[self.shown_before(c, i2) as int]).0
                        == i2 by {
                    if i2 < i {
                        self.lemma_shown_before_grows(c, i2, i as int);
                        assert(before[self.shown_before(c, i2) as int].0 == i2);
                    }
                }
            }
            i = i + 1;
        }
        found
    }

    /// Draws exactly the shown blocks of loaded chunk `chunk_coord`, each once:
    /// the instances it had are dropped first, then the `j`-th shown block, in
    /// index order, gets instance slot `j`, and `offset_top` is the number of
    /// shown blocks. Other blocks have no slot.
    pub fn create_instance(&mut self, chunk_coord: &ChunkCoord)
        requires
            old(self).wf(),
            old(self).is_loaded(*chunk_coord),
            interior_chunk_coord(*chunk_coord),
        ensures
            final(self).wf(),
            final(self).same_blocks(old(self)),
            final(self).chunks().dom() == old(self).chunks().dom(),
            forall|k: i64|
                k != key_of(*chunk_coord) ==> #[trigger] final(self).chunks()[k] == old(self).chunks()[k],
            old(self).instanced(
                *chunk_coord,
                old(self).chunks()[key_of(*chunk_coord)],
                final(self).chunks()[key_of(*chunk_coord)],
            ),
            final(self).chunks()[key_of(*chunk_coord)].render_consistent(*chunk_coord),
            old(self).render_consistent() ==> final(self).render_consistent(),
            final(self).all_block == old(self).all_block,
            final(self).center_chunk_pos == old(self).center_chunk_pos,
            final(self).chunk_rad == old(self).chunk_rad,
    {
        let c = *chunk_coord;
        let key = c.key();
        let found = self.visible_instances(c);
        let ghost old_self = *self;
        let mut chunk = self.chunk_map.remove(&key).unwrap();
        proof {
            assert(chunk.wf());
        }
        chunk.clear_instances();
        let ghost cleared = chunk;
        proof {
            assert(found.len() == old_self.shown_before(c, 65536));
            assert forall|j1: int, j2: int|
                0 <= j1 < found.len() && 0 <= j2 < found.len() && j1 != j2 implies (#[trigger] found@[j1]).0
                    != (#[trigger] found@[j2]).0 by {}
        }
        chunk.install_instances(&found);
        self.chunk_map.insert(key, chunk);
        proof {
            let after = self.chunks()[key];
            assert forall|j: int| 0 <= j < found.len() implies {
                let i = inst_index(#[trigger] after.instances()[j]);
                &&& 0 <= i < 65536
                &&& old_self.shows(c, i)
                &&& old_self.shown_before(c, i) == j
                &&& after.instances()[j] == old_self.instance_for(c, i)
            } by {
                let i = found@[j].0 as int;
                lemma_index_decode(i);
                lemma_local_in_chunk(c.x as int, index_x(i));
                lemma_local_in_chunk(c.z as int, index_z(i));
            }
            self.lemma_replace_chunk(&old_self, key);
            let before = old_self.chunks()[key];
            assert forall|i: int| 0 <= i < 65536 && old_self.shows(c, i) implies {
                &&& #[trigger] after.offsets()[i] == old_self.shown_before(c, i)
                &&& after.instances()[old_self.shown_before(c, i) as int] == old_self.instance_for(c, i)
            } by {
                old_self.lemma_shown_before_grows(c, i, 65536);
                let j = old_self.shown_before(c, i) as int;
                assert(found@[j].0 == i);
            }
            assert forall|i: int| 0 <= i < 65536 && !old_self.shows(c, i) implies #[trigger] after.offsets()[i]
                == NO_OFFSET by {
                assert forall|j: int| 0 <= j < found.len() implies (#[trigger] found@[j]).0 != i by {}
                assert(cleared.offsets()[i] == NO_OFFSET);
            }
            {
                old_self.lemma_shown_before_grows(c, 0, 65536);
                assert forall|o: int| 0 <= o < after.offset_top implies {
                    let inst = #[trigger] after.instance@[o];
                    &&& pos_in_chunk(c, inst.position)
                    &&& after.offsets()[inst_index(inst)] == o
                    &&& after.blocks()[inst_index(inst)].tp != BlockType::Empty
                    &&& inst.block_type == type_id(after.blocks()[inst_index(inst)].tp)
                } by {
                    let i = found@[o].0 as int;
                    lemma_index_decode(i);
                    lemma_local_in_chunk(c.x as int, index_x(i));
                    lemma_local_in_chunk(c.z as int, index_z(i));
                }
                assert forall|i: int| 0 <= i < 65536 && #[trigger] after.offsets()[i] != NO_OFFSET implies {
                    &&& after.offsets()[i] < after.offset_top
                    &&& inst_index(after.instance@[after.offsets()[i] as int]) == i
                } by {
                    if !old_self.shows(c, i) {
                        assert(after.offsets()[i] == NO_OFFSET);
                    } else {
                        old_self.lemma_shown_before_grows(c, i, 65536);
                        let j = old_self.shown_before(c, i) as int;
                        assert(found@[j].0 == i);
                        lemma_index_decode(i);
                        lemma_local_in_chunk(c.x as int, index_x(i));
                        lemma_local_in_chunk(c.z as int, index_z(i));
                    }
                }
                assert(after.render_consistent(c));
                lemma_key_injective(c, c);
                if old_self.render_consistent() {
                    assert forall|k: i64| #[trigger] self.chunk_map@.contains_key(k) implies self.chunk_map@[k].render_consistent(
                        coord_of_key(k as int),
                    ) by {
                        if k != key {
                            assert(old_self.chunk_map@.contains_key(k));
                        }
                    }
                }
            }
        }
    }
}

/// The index, in its chunk, of the block at `p`.
pub open spec fn pos_index(p: BlockPos) -> int {
    block_index(local_of(p.x as int), p.y as int, local_of(p.z as int))
}

/// Two positions in the same chunk, inside the height range, with the same
/// index are the same position.
proof fn lemma_pos_index_injective(p: BlockPos, q: BlockPos)
    requires
        chunk_coord_of(p) == chunk_coord_of(q),
        0 <= p.y < 256,
        0 <= q.y < 256,
        pos_index(p) == pos_index(q),
    ensures
        p == q,
{
    vstd::arithmetic::div_mod::lemma_fundamental_div_mod(p.x as int, 16);
    vstd::arithmetic::div_mod::lemma_fundamental_div_mod(q.x as int, 16);
    vstd::arithmetic::div_mod::lemma_fundamental_div_mod(p.z as int, 16);
    vstd::arithmetic::div_mod::lemma_fundamental_div_mod(q.z as int, 16);
    vstd::arithmetic::div_mod::lemma_mod_bound(p.x as int, 16);
    vstd::arithmetic::div_mod::lemma_mod_bound(q.x as int, 16);
    vstd::arithmetic::div_mod::lemma_mod_bound(p.z as int, 16);
    vstd::arithmetic::div_mod::lemma_mod_bound(q.z as int, 16);
    lemma_index_encode(local_of(p.x as int), p.y as int, local_of(p.z as int));
    lemma_index_encode(local_of(q.x as int), q.y as int, local_of(q.z as int));
}

/// Worlds with the same blocks have the same block at every position.
proof fn lemma_same_world(a: &RealmData, b: &RealmData)
    requires
        b.same_blocks(a),
    ensures
        forall|p: BlockPos| #[trigger] b.world_block(p) == a.world_block(p),
{
    assert forall|p: BlockPos| #[trigger] b.world_block(p) == a.world_block(p) by {
        let c = chunk_coord_of(p);
        if b.is_loaded(c) {
            assert(b.chunks()[key_of(c)].blocks() == a.chunks()[key_of(c)].blocks());
        }
    }
}

/// When only the chunk of `bc` changes, and in it only whether the block of
/// `bc` has an instance slot (it gains one when `add`, loses it otherwise),
/// only `bc` changes whether it is drawn.
proof fn lemma_drawn_after_change(a: &RealmData, b: &RealmData, bc: BlockPos, add: bool)
    requires
        a.placeable(bc),
        b.chunks().dom() == a.chunks().dom(),
        forall|k: i64|
            k != key_of(chunk_coord_of(bc)) && #[trigger] b.chunks().contains_key(k) ==> b.chunks()[k] == a.chunks()[k],
        forall|j: int|
            0 <= j < 65536 ==> ((#[trigger] b.chunks()[key_of(chunk_coord_of(bc))].offsets()[j] != NO_OFFSET)
                <==> if add {
                a.chunks()[key_of(chunk_coord_of(bc))].offsets()[j] != NO_OFFSET || j == pos_index(bc)
            } else {
                a.chunks()[key_of(chunk_coord_of(bc))].offsets()[j] != NO_OFFSET && j != pos_index(bc)
            }),
    ensures
        forall|p: BlockPos|
            #[trigger] b.drawn(p) <==> if add {
                a.drawn(p) || p == bc
            } else {
                a.drawn(p) && p != bc
            },
{
    lemma_chunk_of_pos(bc);
    assert forall|p: BlockPos| #[trigger] b.drawn(p) <==> if add {
        a.drawn(p) || p == bc
    } else {
        a.drawn(p) && p != bc
    } by {
        lemma_chunk_of_pos(p);
        let cp = chunk_coord_of(p);
        let c = chunk_coord_of(bc);
        if key_of(cp) == key_of(c) {
            lemma_key_injective(cp, c);
            if 0 <= p.y < 256 && pos_index(p) == pos_index(bc) {
                lemma_pos_index_injective(p, bc);
            }
        }
    }
}

/// Breaking the block at `bc` (the step to `mid`) and then drawing its
/// non-empty neighbours (the step to `fin`) leaves drawn exactly the blocks
/// drawn before other than `bc`, and the non-empty neighbours of `bc`.
proof fn lemma_break_drawn(old: &RealmData, mid: &RealmData, fin: &RealmData, bc: BlockPos)
    requires
        forall|p: BlockPos| #[trigger] mid.drawn(p) <==> (old.drawn(p) && p != bc),
        forall|p: BlockPos|
            #[trigger] mid.world_block(p) == if p == bc {
                Block { tp: BlockType::Empty }
            } else {
                old.world_block(p)
            },
        forall|p: BlockPos| mid.drawn(p) ==> #[trigger] fin.drawn(p),
        forall|p: BlockPos|
            #[trigger] fin.drawn(p) ==> mid.drawn(p) || (mid.world_block(p).tp != BlockType::Empty && adjacent(
                bc,
                p,
            )),
        forall|n: int|
            0 <= n < 6 ==> {
                let q = #[trigger] neighbour(bc.x as int, bc.y as int, bc.z as int, n);
                mid.world_block(q).tp != BlockType::Empty ==> fin.drawn(q)
            },
    ensures
        forall|p: BlockPos|
            #[trigger] fin.drawn(p) <==> (p != bc && (old.drawn(p) || (old.world_block(p).tp != BlockType::Empty
                && adjacent(bc, p)))),
{
    assert forall|p: BlockPos| #[trigger] fin.drawn(p) <==> (p != bc && (old.drawn(p) || (old.world_block(p).tp
        != BlockType::Empty && adjacent(bc, p)))) by {
        assert(mid.world_block(p) == if p == bc {
            Block { tp: BlockType::Empty }
        } else {
            old.world_block(p)
        });
        assert(mid.drawn(p) <==> (old.drawn(p) && p != bc));
        if p != bc && adjacent(bc, p) && old.world_block(p).tp != BlockType::Empty {
            let n = choose|n: int| 0 <= n < 6 && p == #[trigger] neighbour(bc.x as int, bc.y as int, bc.z as int, n);
            assert(fin.drawn(neighbour(bc.x as int, bc.y as int, bc.z as int, n)));
        }
    }
}

/// The chunk of any block position can be stored in the chunk map.
proof fn lemma_chunk_of_pos(p: BlockPos)
    ensures
        valid_chunk_coord(chunk_coord_of(p)),
        coord_of_key(key_of(chunk_coord_of(p)) as int) == chunk_coord_of(p),
        pos_in_chunk(chunk_coord_of(p), p) <==> 0 <= p.y < 256,
        0 <= p.y < 256 ==> 0 <= pos_index(p) < 65536,
{
    vstd::arithmetic::div_mod::lemma_fundamental_div_mod(p.x as int, 16);
    vstd::arithmetic::div_mod::lemma_fundamental_div_mod(p.z as int, 16);
    vstd::arithmetic::div_mod::lemma_mod_bound(p.x as int, 16);
    vstd::arithmetic::div_mod::lemma_mod_bound(p.z as int, 16);
    lemma_key_injective(chunk_coord_of(p), chunk_coord_of(p));
}

/// The `n`-th neighbour of `p` (see `neighbour`).
fn neighbour_of(p: BlockPos, n: usize) -> (q: BlockPos)
    requires
        has_neighbours(p),
        n < 6,
    ensures
        q == neighbour(p.x as int, p.y as int, p.z as int, n as int),
{
    if n == 0 {
        BlockPos { x: p.x + 1, y: p.y, z: p.z }
    } else if n == 1 {
        BlockPos { x: p.x - 1, y: p.y, z: p.z }
    } else if n == 2 {
        BlockPos { x: p.x, y: p.y + 1, z: p.z }
    } else if n == 3 {
        BlockPos { x: p.x, y: p.y - 1, z: p.z }
    } else if n == 4 {
        BlockPos { x: p.x, y: p.y, z: p.z + 1 }
    } else {
        BlockPos { x: p.x, y: p.y, z: p.z - 1 }
    }
}

impl RealmData {
    /// Whether the block at `p` has an instance.
    pub open spec fn drawn(&self, p: BlockPos) -> bool {
        &&& self.is_loaded(chunk_coord_of(p))
        &&& 0 <= p.y < 256
        &&& self.chunks()[key_of(chunk_coord_of(p))].offsets()[pos_index(p)] != NO_OFFSET
    }

    /// Whether looking up the instance slot of `p` stays inside the chunk's
    /// slot array (it does not for some heights outside `0..CHUNK_HEIGHT`).
    pub open spec fn lookup_ok(&self, p: BlockPos) -> bool {
        self.is_loaded(chunk_coord_of(p)) ==> 0 <= pos_index(p) < 65536
    }

    /// Every loaded chunk keeps its blocks.
    pub open spec fn same_blocks(&self, other: &RealmData) -> bool {
        &&& self.chunks().dom() == other.chunks().dom()
        &&& forall|k: i64|
            #[trigger] self.chunks().contains_key(k) ==> self.chunks()[k].blocks() == other.chunks()[k].blocks()
    }

    /// The instance arrays of `self` are those of `other` after `writes`.
    pub open spec fn instances_after(&self, other: &RealmData, writes: Seq<InstanceWrite>) -> bool {
        forall|k: i64|
            #[trigger] self.chunks().contains_key(k) ==> self.chunks()[k].instances() == apply_writes(
                other.chunks()[k].instances(),
                coord_of_key(k as int),
                writes,
            )
    }

    /// Writes `block` at `abs_coord` when its chunk is loaded and the height is
    /// inside the chunk; returns whether it did.
    fn set_block_data(&mut self, abs_coord: BlockPos, block: Block) -> (r: bool)
        requires
            old(self).wf(),
        ensures
            final(self).wf(),
            r == (old(self).is_loaded(chunk_coord_of(abs_coord)) && 0 <= abs_coord.y < 256),
            !r ==> *final(self) == *old(self),
            r ==> {
                let key = key_of(chunk_coord_of(abs_coord));
                let before = old(self).chunks()[key];
                let after = final(self).chunks()[key];
                &&& final(self).chunks().dom() == old(self).chunks().dom()
                &&& forall|k: i64| k != key ==> #[trigger] final(self).chunks()[k] == old(self).chunks()[k]
                &&& after.wf()
                &&& after.blocks() == before.blocks().update(pos_index(abs_coord), block)
                &&& after.offsets() == before.offsets()
                &&& after.instances() == before.instances()
                &&& after.offset_top == before.offset_top
            },
            final(self).all_block == old(self).all_block,
            final(self).center_chunk_pos == old(self).center_chunk_pos,
            final(self).chunk_rad == old(self).chunk_rad,
    {
        let chunk_coord = get_chunk_coord(abs_coord.x, abs_coord.z);
        let key = chunk_coord.key();
        if self.chunk_map.contains_key(&key) && abs_coord.y >= 0 && abs_coord.y < CHUNK_HEIGHT {
            let ghost old_self = *self;
            let mut chunk = self.chunk_map.remove(&key).unwrap();
            proof {
                lemma_chunk_of_pos(abs_coord);
            }
            let local = get_local_coord(abs_coord);
            chunk.set_block(local.x, local.y, local.z, block);
            self.chunk_map.insert(key, chunk);
            proof {
                self.lemma_replace_chunk(&old_self, key);
            }
            true
        } else {
            false
        }
    }

    /// The instance slot of the block at `abs_coord`, when its chunk is loaded.
    fn get_offset(&self, abs_coord: BlockPos) -> (r: Option<u64>)
        requires
            self.wf(),
            self.lookup_ok(abs_coord),
        ensures
            self.is_loaded(chunk_coord_of(abs_coord)) ==> r == Some(
                self.chunks()[key_of(chunk_coord_of(abs_coord))].offsets()[pos_index(abs_coord)],
            ),
            !self.is_loaded(chunk_coord_of(abs_coord)) ==> r is None,
    {
        let chunk_coord = get_chunk_coord(abs_coord.x, abs_coord.z);
        let local = get_local_coord(abs_coord);
        match self.chunk_map.get(&chunk_coord.key()) {
            Some(chunk) => {
                proof {
                    assert(chunk.wf());
                }
                Some(chunk.offset_of(relative_to_index(local.x, local.y, local.z)))
            },
            None => None,
        }
    }

    /// Draws the block at `abs_coord`: its instance becomes the next drawn one
    /// of its chunk. Returns the matching write for the GPU copy.
    pub fn update_single_block_buffer(&mut self, abs_coord: BlockPos) -> (w: InstanceWrite)
        requires
            old(self).wf(),
            old(self).is_loaded(chunk_coord_of(abs_coord)),
            0 <= pos_index(abs_coord) < 65536,
            old(self).chunks()[key_of(chunk_coord_of(abs_coord))].top() < 65536,
        ensures
            final(self).wf(),
            final(self).same_blocks(old(self)),
            final(self).instances_after(old(self), seq![w]),
            ({
                let key = key_of(chunk_coord_of(abs_coord));
                let before = old(self).chunks()[key];
                let after = final(self).chunks()[key];
                let inst = Instance {
                    position: abs_coord,
                    block_type: type_id(before.blocks()[pos_index(abs_coord)].tp),
                };
                &&& forall|k: i64| k != key ==> #[trigger] final(self).chunks()[k] == old(self).chunks()[k]
                &&& after.top() == before.top() + 1
                &&& after.offsets() == before.offsets().update(pos_index(abs_coord), before.top())
                &&& after.instances() == before.instances().update(before.top() as int, inst)
                &&& w == InstanceWrite { chunk: chunk_coord_of(abs_coord), offset: before.top(), instance: inst }
            }),
            final(self).all_block == old(self).all_block,
            final(self).center_chunk_pos == old(self).center_chunk_pos,
            final(self).chunk_rad == old(self).chunk_rad,
    {
        let chunk_coord = get_chunk_coord(abs_coord.x, abs_coord.z);
        let block_offset = get_local_coord(abs_coord);
        let key = chunk_coord.key();
        let ghost old_self = *self;
        let mut chunk = self.chunk_map.remove(&key).unwrap();
        let block = chunk.get_block(block_offset.x, block_offset.y, block_offset.z);
        let instance = Instance { position: abs_coord, block_type: block.tp.id() };
        let offset = chunk.push_instance(relative_to_index(block_offset.x, block_offset.y, block_offset.z), instance);
        self.chunk_map.insert(key, chunk);
        let w = InstanceWrite { chunk: chunk_coord, offset, instance };
        proof {
            lemma_chunk_of_pos(abs_coord);
            self.lemma_replace_chunk(&old_self, key);
            assert forall|k: i64| #[trigger] self.chunks().contains_key(k) implies self.chunks()[k].instances()
                == apply_writes(old_self.chunks()[k].instances(), coord_of_key(k as int), seq![w]) by {
                assert(old_self.chunk_map@.contains_key(k));
                assert(seq![w].drop_last() =~= Seq::<InstanceWrite>::empty());
                assert(seq![w].last() == w);
                let insts = old_self.chunks()[k].instances();
                assert(apply_writes(insts, coord_of_key(k as int), Seq::<InstanceWrite>::empty()) == insts);
                assert(old_self.chunks()[k].wf());
                if k != key {
                    assert(coord_of_key(k as int) != chunk_coord);
                } else {
                    assert(chunk_coord == chunk_coord_of(abs_coord));
                    assert(coord_of_key(k as int) == chunk_coord);
                }
            }
        }
        w
    }
}

/// How many of `writes` go to chunk `c`.
pub open spec fn writes_to(writes: Seq<InstanceWrite>, c: ChunkCoord) -> nat
    decreases writes.len(),
{
    if writes.len() == 0 {
        0
    } else {
        writes_to(writes.drop_last(), c) + if writes.last().chunk == c {
            1nat
        } else {
            0nat
        }
    }
}

/// Whether `p` is one of the neighbours `0..n` of `a` (see `neighbour`).
pub open spec fn neighbour_before(a: BlockPos, p: BlockPos, n: int) -> bool {
    exists|m: int| 0 <= m < n && p == #[trigger] neighbour(a.x as int, a.y as int, a.z as int, m)
}

/// The writes that drawing the neighbours `0..n` of `a` makes, in order, in a
/// world whose blocks are `block_of`, whose drawn blocks are those where
/// `is_drawn` holds and whose chunks have `top_of` instances: each non-empty
/// neighbour without an instance gets the next free slot of its chunk.
pub open spec fn draw_writes(
    a: BlockPos,
    n: int,
    block_of: spec_fn(BlockPos) -> Block,
    is_drawn: spec_fn(BlockPos) -> bool,
    top_of: spec_fn(ChunkCoord) -> int,
) -> Seq<InstanceWrite>
    decreases n,
{
    if n <= 0 {
        Seq::empty()
    } else {
        let prev = draw_writes(a, n - 1, block_of, is_drawn, top_of);
        let q = neighbour(a.x as int, a.y as int, a.z as int, n - 1);
        let c = chunk_coord_of(q);
        if block_of(q).tp != BlockType::Empty && !is_drawn(q) {
            prev.push(
                InstanceWrite {
                    chunk: c,
                    offset: (top_of(c) + writes_to(prev, c)) as u64,
                    instance: Instance { position: q, block_type: type_id(block_of(q).tp) },
                },
            )
        } else {
            prev
        }
    }
}

/// The writes that drawing the neighbours `0..n` of `a` in world `w` makes
/// (see `draw_writes`).
pub open spec fn adjacent_writes(w: RealmData, a: BlockPos, n: int) -> Seq<InstanceWrite> {
    draw_writes(
        a,
        n,
        |p: BlockPos| w.world_block(p),
        |p: BlockPos| w.drawn(p),
        |c: ChunkCoord| w.chunks()[key_of(c)].top() as int,
    )
}

/// The blocks of world `w` once the block at `bc` is broken.
pub open spec fn broken_block_of(w: RealmData, bc: BlockPos) -> spec_fn(BlockPos) -> Block {
    |p: BlockPos|
        if p == bc {
            Block { tp: BlockType::Empty }
        } else {
            w.world_block(p)
        }
}

/// The drawn blocks of world `w` once the block at `bc` is no longer drawn.
pub open spec fn broken_drawn(w: RealmData, bc: BlockPos) -> spec_fn(BlockPos) -> bool {
    |p: BlockPos| w.drawn(p) && p != bc
}

/// The instance counts of the chunks of world `w` once the chunk of `bc` has
/// one instance less.
pub open spec fn broken_top(w: RealmData, bc: BlockPos) -> spec_fn(ChunkCoord) -> int {
    |c: ChunkCoord|
        w.chunks()[key_of(c)].top() - if c == chunk_coord_of(bc) {
            1int
        } else {
            0int
        }
}

/// The writes that breaking the block at `bc` in world `w` makes after
/// moving the last instance of its chunk into its slot: its non-empty,
/// undrawn neighbours get the next free slots (see `draw_writes`).
pub open spec fn break_writes(w: RealmData, bc: BlockPos) -> Seq<InstanceWrite> {
    draw_writes(bc, 6, broken_block_of(w, bc), broken_drawn(w, bc), broken_top(w, bc))
}

/// Worlds that agree on the blocks, on what is drawn, and on the instance
/// counts of the chunks of the non-empty neighbours of `a` make the same writes.
proof fn lemma_draw_writes_agree(
    a: BlockPos,
    n: int,
    f1: spec_fn(BlockPos) -> Block,
    g1: spec_fn(BlockPos) -> bool,
    t1: spec_fn(ChunkCoord) -> int,
    f2: spec_fn(BlockPos) -> Block,
    g2: spec_fn(BlockPos) -> bool,
    t2: spec_fn(ChunkCoord) -> int,
)
    requires
        0 <= n <= 6,
        forall|p: BlockPos| #[trigger] f1(p) == f2(p),
        forall|p: BlockPos| #[trigger] g1(p) == g2(p),
        forall|m: int|
            0 <= m < 6 ==> {
                let q = #[trigger] neighbour(a.x as int, a.y as int, a.z as int, m);
                f1(q).tp != BlockType::Empty ==> t1(chunk_coord_of(q)) == t2(chunk_coord_of(q))
            },
    ensures
        draw_writes(a, n, f1, g1, t1) == draw_writes(a, n, f2, g2, t2),
    decreases n,
{
    if n > 0 {
        lemma_draw_writes_agree(a, n - 1, f1, g1, t1, f2, g2, t2);
        let q = neighbour(a.x as int, a.y as int, a.z as int, n - 1);
        assert(f1(q) == f2(q));
        assert(g1(q) == g2(q));
    }
}

proof fn lemma_neighbours_distinct(a: BlockPos, m: int, n: int)
    requires
        has_neighbours(a),
        0 <= m < 6,
        0 <= n < 6,
        m != n,
    ensures
        neighbour(a.x as int, a.y as int, a.z as int, m) != neighbour(a.x as int, a.y as int, a.z as int, n),
{
}

impl RealmData {
    /// Draws each non-empty neighbour of `abs_coord` that is in a loaded chunk
    /// and has no instance yet. Returns the writes for the GPU copies, in order.
    #[verifier::spinoff_prover]
    #[verifier::rlimit(80)]
    pub fn update_adjacent_block(&mut self, abs_coord: BlockPos) -> (writes: Vec<InstanceWrite>)
        requires
            old(self).wf(),
            old(self).render_consistent(),
            has_neighbours(abs_coord),
            forall|n: int|
                0 <= n < 6 ==> old(self).lookup_ok(
                    #[trigger] neighbour(abs_coord.x as int, abs_coord.y as int, abs_coord.z as int, n),
                ),
        ensures
            final(self).wf(),
            final(self).render_consistent(),
            final(self).same_blocks(old(self)),
            final(self).instances_after(old(self), writes@),
            writes@ == adjacent_writes(*old(self), abs_coord, 6),
            forall|k: i64|
                #[trigger] final(self).chunks().contains_key(k) ==> final(self).chunks()[k].top() == old(
                    self,
                ).chunks()[k].top() + writes_to(writes@, coord_of_key(k as int)),
            forall|k: i64, i: int|
                final(self).chunks().contains_key(k) && 0 <= i < 65536 && old(self).chunks()[k].offsets()[i]
                    != NO_OFFSET ==> #[trigger] final(self).chunks()[k].offsets()[i] == old(self).chunks()[k].offsets()[i],
            forall|p: BlockPos| old(self).drawn(p) ==> #[trigger] final(self).drawn(p),
            forall|p: BlockPos|
                #[trigger] final(self).drawn(p) ==> old(self).drawn(p) || (old(self).world_block(p).tp
                    != BlockType::Empty && adjacent(abs_coord, p)),
            forall|n: int|
                0 <= n < 6 ==> {
                    let q = #[trigger] neighbour(abs_coord.x as int, abs_coord.y as int, abs_coord.z as int, n);
                    old(self).world_block(q).tp != BlockType::Empty ==> final(self).drawn(q)
                },
            final(self).all_block == old(self).all_block,
            final(self).center_chunk_pos == old(self).center_chunk_pos,
            final(self).chunk_rad == old(self).chunk_rad,
    {
        let mut writes: Vec<InstanceWrite> = Vec::new();
        let mut n: usize = 0;
        while n < 6
            invariant
                n <= 6,
                self.wf(),
                self.render_consistent(),
                has_neighbours(abs_coord),
                forall|m: int|
                    0 <= m < 6 ==> old(self).lookup_ok(
                        #[trigger] neighbour(abs_coord.x as int, abs_coord.y as int, abs_coord.z as int, m),
                    ),
                self.same_blocks(old(self)),
                self.instances_after(old(self), writes@),
                writes@ == adjacent_writes(*old(self), abs_coord, n as int),
                self.chunks().dom() == old(self).chunks().dom(),
                forall|k: i64|
                    #[trigger] self.chunks().contains_key(k) ==> self.chunks()[k].top() == old(self).chunks()[k].top()
                        + writes_to(writes@, coord_of_key(k as int)),
                forall|k: i64, i: int|
                    self.chunks().contains_key(k) && 0 <= i < 65536 && old(self).chunks()[k].offsets()[i]
                        != NO_OFFSET ==> #[trigger] self.chunks()[k].offsets()[i] == old(self).chunks()[k].offsets()[i],
                forall|p: BlockPos| old(self).drawn(p) ==> #[trigger] self.drawn(p),
                forall|p: BlockPos|
                    #[trigger] self.drawn(p) ==> old(self).drawn(p) || (old(self).world_block(p).tp
                        != BlockType::Empty && neighbour_before(abs_coord, p, n as int)),
                forall|m: int|
                    0 <= m < n ==> {
                        let q = #[trigger] neighbour(abs_coord.x as int, abs_coord.y as int, abs_coord.z as int, m);
                        old(self).world_block(q).tp != BlockType::Empty ==> self.drawn(q)
                    },
                self.all_block == old(self).all_block,
                self.center_chunk_pos == old(self).center_chunk_pos,
                self.chunk_rad == old(self).chunk_rad,
            decreases 6 - n,
        {
            let q = neighbour_of(abs_coord, n);
            let ghost prev = *self;
            let ghost prev_writes = writes@;
            let ghost c = chunk_coord_of(q);
            let ghost key = key_of(c);
            proof {
                lemma_chunk_of_pos(q);
                assert(self.lookup_ok(q));
                assert forall|p: BlockPos| true implies #[trigger] self.world_block(p) == old(self).world_block(p) by {
                    let cp = chunk_coord_of(p);
                    if self.is_loaded(cp) {
                        assert(self.chunks()[key_of(cp)].blocks() == old(self).chunks()[key_of(cp)].blocks());
                    }
                }
                assert forall|m: int| 0 <= m < n implies neighbour(abs_coord.x as int, abs_coord.y as int, abs_coord.z as int, m) != q by {
                    lemma_neighbours_distinct(abs_coord, m, n as int);
                }
                assert(!neighbour_before(abs_coord, q, n as int));
            }
            let mut drew = false;
            if let Some(offset) = self.get_offset(q) {
                if offset == NO_OFFSET {
                    if !self.get_block(q).tp.is_transparent() {
                        proof {
                            assert(self.chunks()[key].render_consistent(c));
                            self.chunks()[key].lemma_room_for_instance(c, pos_index(q));
                            assert(!self.drawn(q));
                            assert(!old(self).drawn(q));
                        }
                        let w = self.update_single_block_buffer(q);
                        writes.push(w);
                        drew = true;
                        proof {
                            let before = prev.chunks()[key];
                            let after = self.chunks()[key];
                            assert(after.blocks() =~= before.blocks().update(pos_index(q), before.blocks()[pos_index(q)]));
                            before.lemma_push_consistent(
                                &after,
                                c,
                                pos_index(q),
                                w.instance,
                                before.blocks()[pos_index(q)],
                            );
                            assert forall|k: i64| #[trigger] self.chunk_map@.contains_key(k) implies self.chunk_map@[k].render_consistent(
                                coord_of_key(k as int),
                            ) by {
                                assert(prev.chunk_map@.contains_key(k));
                            }
                            assert forall|k: i64| #[trigger] self.chunks().contains_key(k) implies self.chunks()[k].instances()
                                == apply_writes(old(self).chunks()[k].instances(), coord_of_key(k as int), writes@) by {
                                assert(prev.chunks().contains_key(k));
                                assert(writes@.drop_last() =~= prev_writes);
                                assert(writes@.last() == w);
                                assert(seq![w].drop_last() =~= Seq::<InstanceWrite>::empty());
                                assert(seq![w].last() == w);
                                let insts = prev.chunks()[k].instances();
                                assert(apply_writes(insts, coord_of_key(k as int), Seq::<InstanceWrite>::empty()) == insts);
                            }
                            assert forall|p: BlockPos| old(self).drawn(p) implies #[trigger] self.drawn(p) by {
                                assert(prev.drawn(p));
                                let kp = key_of(chunk_coord_of(p));
                                if kp == key && pos_index(p) == pos_index(q) {
                                } else if kp == key {
                                    assert(self.chunks()[kp].offsets()[pos_index(p)] == prev.chunks()[kp].offsets()[pos_index(p)]);
                                }
                            }
                            assert forall|p: BlockPos| #[trigger] self.drawn(p) implies old(self).drawn(p)
                                || (old(self).world_block(p).tp != BlockType::Empty && neighbour_before(
                                abs_coord,
                                p,
                                n + 1,
                            )) by {
                                let kp = key_of(chunk_coord_of(p));
                                lemma_chunk_of_pos(p);
                                if kp == key && pos_index(p) == pos_index(q) {
                                    lemma_pos_index_injective(p, q);
                                    assert(q == neighbour(abs_coord.x as int, abs_coord.y as int, abs_coord.z as int, n as int));
                                } else {
                                    if kp == key {
                                        assert(self.chunks()[kp].offsets()[pos_index(p)] == prev.chunks()[kp].offsets()[pos_index(p)]);
                                    }
                                    assert(prev.drawn(p));
                                    if !old(self).drawn(p) {
                                        let m = choose|m: int|
                                            0 <= m < n && p == #[trigger] neighbour(abs_coord.x as int, abs_coord.y as int, abs_coord.z as int, m);
                                        assert(p == neighbour(abs_coord.x as int, abs_coord.y as int, abs_coord.z as int, m));
                                    }
                                }
                            }
                            assert(!old(self).drawn(q));
                            assert(old(self).world_block(q) == prev.world_block(q));
                            assert(prev.chunks().contains_key(key));
                            assert(coord_of_key(key as int) == c);
                            assert(adjacent_writes(*old(self), abs_coord, n + 1) == prev_writes.push(w));
                            assert forall|k: i64, i: int|
                                self.chunks().contains_key(k) && 0 <= i < 65536 && old(self).chunks()[k].offsets()[i]
                                    != NO_OFFSET implies #[trigger] self.chunks()[k].offsets()[i] == old(
                                self,
                            ).chunks()[k].offsets()[i] by {
                                assert(prev.chunks().contains_key(k));
                                assert(prev.chunks()[k].offsets()[i] == old(self).chunks()[k].offsets()[i]);
                                if k == key && i == pos_index(q) {
                                    assert(prev.chunks()[k].offsets()[i] == NO_OFFSET);
                                }
                            }
                            assert forall|k: i64| #[trigger] self.chunks().contains_key(k) implies self.chunks()[k].top()
                                == old(self).chunks()[k].top() + writes_to(writes@, coord_of_key(k as int)) by {
                                assert(prev.chunks().contains_key(k));
                                assert(writes@.drop_last() =~= prev_writes);
                                if k != key {
                                    assert(coord_of_key(k as int) != c);
                                }
                            }
                        }
                    }
                }
            }
            proof {
                if !drew {
                    if self.is_loaded(c) && 0 <= q.y < 256 && old(self).world_block(q).tp != BlockType::Empty {
                        assert(prev.drawn(q));
                    }
                    assert(adjacent_writes(*old(self), abs_coord, n + 1) == prev_writes);
                    assert forall|p: BlockPos| #[trigger] self.drawn(p) implies old(self).drawn(p)
                        || (old(self).world_block(p).tp != BlockType::Empty && neighbour_before(abs_coord, p, n + 1)) by {
                        if !old(self).drawn(p) {
                            let m = choose|m: int|
                                0 <= m < n && p == #[trigger] neighbour(abs_coord.x as int, abs_coord.y as int, abs_coord.z as int, m);
                            assert(p == neighbour(abs_coord.x as int, abs_coord.y as int, abs_coord.z as int, m));
                        }
                    }
                }
                assert forall|m: int| 0 <= m < n + 1 implies {
                    let q2 = #[trigger] neighbour(abs_coord.x as int, abs_coord.y as int, abs_coord.z as int, m);
                    old(self).world_block(q2).tp != BlockType::Empty ==> self.drawn(q2)
                } by {
                    let q2 = neighbour(abs_coord.x as int, abs_coord.y as int, abs_coord.z as int, m);
                    if m < n && old(self).world_block(q2).tp != BlockType::Empty {
                        assert(prev.drawn(q2));
                    }
                }
            }
            n = n + 1;
        }
        proof {
            assert forall|p: BlockPos| #[trigger] self.drawn(p) implies old(self).drawn(p) || (old(self).world_block(
                p,
            ).tp != BlockType::Empty && adjacent(abs_coord, p)) by {
                if !old(self).drawn(p) {
                    assert(neighbour_before(abs_coord, p, 6));
                }
            }
        }
        writes
    }
}

impl RealmData {
    /// Whether `place_block(p, ...)` changes the world: the chunk of `p` is
    /// loaded and `p` is inside the height range.
    pub open spec fn placeable(&self, p: BlockPos) -> bool {
        self.is_loaded(chunk_coord_of(p)) && 0 <= p.y < 256
    }

    /// Whether looking up the instance slot of `p` stays inside its chunk's
    /// slot array (see `lookup_ok`).
    fn lookup_ok_at(&self, p: BlockPos) -> (r: bool)
        requires
            self.wf(),
        ensures
            r == self.lookup_ok(p),
    {
        let c = get_chunk_coord(p.x, p.z);
        match self.chunk_map.get(&c.key()) {
            Some(_) => {
                let local = get_local_coord(p);
                let i = (local.x as i64) * 4096 + (p.y as i64) * 16 + (local.z as i64);
                0 <= i && i < 65536
            },
            None => true,
        }
    }

    /// Whether `place_block(block_coord, block)` may be called: outside the
    /// loaded chunks and the height range always; there, placing a non-empty
    /// block needs room for one more instance in its chunk, and breaking a
    /// block needs the block to be drawn, its neighbours to have `i32`
    /// coordinates and their instance slots to be inside their chunks.
    pub fn can_place_block(&self, block_coord: BlockPos, block: Block) -> (r: bool)
        requires
            self.wf(),
        ensures
            r == (self.placeable(block_coord) ==> {
                &&& block.tp == BlockType::Empty ==> {
                    &&& self.drawn(block_coord)
                    &&& has_neighbours(block_coord)
                    &&& forall|n: int|
                        0 <= n < 6 ==> self.lookup_ok(
                            #[trigger] neighbour(block_coord.x as int, block_coord.y as int, block_coord.z as int, n),
                        )
                }
                &&& block.tp != BlockType::Empty ==> self.chunks()[key_of(chunk_coord_of(block_coord))].top()
                    < 65536
            }),
    {
        proof {
            lemma_chunk_of_pos(block_coord);
        }
        let c = get_chunk_coord(block_coord.x, block_coord.z);
        let chunk = match self.chunk_map.get(&c.key()) {
            Some(ch) => ch,
            None => {
                return true;
            },
        };
        if block_coord.y < 0 || block_coord.y >= 256 {
            return true;
        }
        proof {
            assert(self.chunks().contains_key(key_of(chunk_coord_of(block_coord))));
            assert(chunk.wf());
        }
        if block.tp != BlockType::Empty {
            return chunk.offset_top < 65536;
        }
        let local = get_local_coord(block_coord);
        if chunk.offset_of(relative_to_index(local.x, local.y, local.z)) == NO_OFFSET {
            return false;
        }
        if !(i32::MIN < block_coord.x && block_coord.x < i32::MAX && i32::MIN < block_coord.y && block_coord.y
            < i32::MAX && i32::MIN < block_coord.z && block_coord.z < i32::MAX) {
            return false;
        }
        let mut n: usize = 0;
        while n < 6
            invariant
                n <= 6,
                self.wf(),
                self.placeable(block_coord),
                self.drawn(block_coord),
                block.tp == BlockType::Empty,
                has_neighbours(block_coord),
                forall|m: int|
                    0 <= m < n ==> self.lookup_ok(
                        #[trigger] neighbour(block_coord.x as int, block_coord.y as int, block_coord.z as int, m),
                    ),
            decreases 6 - n,
        {
            let q = neighbour_of(block_coord, n);
            if !self.lookup_ok_at(q) {
                proof {
                    assert(!self.lookup_ok(
                        neighbour(block_coord.x as int, block_coord.y as int, block_coord.z as int, n as int),
                    ));
                }
                return false;
            }
            n = n + 1;
        }
        true
    }

    /// Puts `block` at `block_coord` and updates the instances to match.
    ///
    /// Placing a non-empty block draws it as the next instance of its chunk.
    /// Placing the empty block breaks the block there: the last instance of
    /// the chunk moves into its slot, and each non-empty neighbour that had no
    /// instance is drawn. Outside the loaded chunks, and outside the height
    /// range, nothing happens. Returns the writes that bring the GPU copies of
    /// the instance arrays up to date, in the order they must be made.
    #[verifier::spinoff_prover]
    #[verifier::rlimit(50)]
    pub fn place_block(&mut self, block_coord: BlockPos, block: Block) -> (writes: Vec<InstanceWrite>)
        requires
            old(self).wf(),
            old(self).render_consistent(),
            old(self).placeable(block_coord) ==> {
                &&& block.tp == BlockType::Empty ==> {
                    &&& old(self).drawn(block_coord)
                    &&& has_neighbours(block_coord)
                    &&& forall|n: int|
                        0 <= n < 6 ==> old(self).lookup_ok(
                            #[trigger] neighbour(block_coord.x as int, block_coord.y as int, block_coord.z as int, n),
                        )
                }
                &&& block.tp != BlockType::Empty ==> old(self).chunks()[key_of(chunk_coord_of(block_coord))].top()
                    < 65536
            },
        ensures
            final(self).wf(),
            !old(self).placeable(block_coord) ==> *final(self) == *old(self) && writes.len() == 0,
            final(self).chunks().dom() == old(self).chunks().dom(),
            forall|q: BlockPos|
                #[trigger] final(self).world_block(q) == if q == block_coord && old(self).placeable(block_coord) {
                    block
                } else {
                    old(self).world_block(q)
                },
            final(self).instances_after(old(self), writes@),
            block.tp == BlockType::Empty || !old(self).drawn(block_coord) ==> final(self).render_consistent(),
            old(self).placeable(block_coord) && block.tp != BlockType::Empty ==> {
                let after = final(self).chunks()[key_of(chunk_coord_of(block_coord))];
                &&& final(self).drawn(block_coord)
                &&& after.instances()[after.offsets()[pos_index(block_coord)] as int] == (Instance {
                    position: block_coord,
                    block_type: type_id(block.tp),
                })
            },
            old(self).placeable(block_coord) && block.tp == BlockType::Empty ==> {
                &&& !final(self).drawn(block_coord)
                &&& forall|n: int|
                    0 <= n < 6 ==> {
                        let q = #[trigger] neighbour(block_coord.x as int, block_coord.y as int, block_coord.z as int, n);
                        old(self).world_block(q).tp != BlockType::Empty ==> final(self).drawn(q)
                    }
            },
            old(self).placeable(block_coord) && block.tp != BlockType::Empty ==> forall|p: BlockPos|
                #[trigger] final(self).drawn(p) <==> (old(self).drawn(p) || p == block_coord),
            old(self).placeable(block_coord) && block.tp != BlockType::Empty ==> writes@ == seq![
                InstanceWrite {
                    chunk: chunk_coord_of(block_coord),
                    offset: old(self).chunks()[key_of(chunk_coord_of(block_coord))].top(),
                    instance: Instance { position: block_coord, block_type: type_id(block.tp) },
                },
            ],
            old(self).placeable(block_coord) && block.tp == BlockType::Empty ==> {
                let cb = chunk_coord_of(block_coord);
                let before = old(self).chunks()[key_of(cb)];
                let last = before.instances()[before.top() - 1];
                let nb = break_writes(*old(self), block_coord);
                &&& writes@ == seq![
                    InstanceWrite { chunk: cb, offset: before.offsets()[pos_index(block_coord)], instance: last },
                ] + nb
                &&& inst_index(last) != pos_index(block_coord) ==> final(self).chunks()[key_of(cb)].offsets()[inst_index(
                    last,
                )] == before.offsets()[pos_index(block_coord)]
                &&& forall|k: i64|
                    #[trigger] final(self).chunks().contains_key(k) ==> final(self).chunks()[k].top() == old(
                        self,
                    ).chunks()[k].top() - (if k == key_of(cb) {
                        1int
                    } else {
                        0int
                    }) + writes_to(nb, coord_of_key(k as int))
            },
            old(self).placeable(block_coord) && block.tp != BlockType::Empty ==> {
                let key = key_of(chunk_coord_of(block_coord));
                let before = old(self).chunks()[key];
                let after = final(self).chunks()[key];
                &&& after.top() == before.top() + 1
                &&& after.offsets()[pos_index(block_coord)] == before.top()
                &&& after.instances()[before.top() as int] == (Instance {
                    position: block_coord,
                    block_type: type_id(block.tp),
                })
                &&& forall|k: i64|
                    k != key && #[trigger] final(self).chunks().contains_key(k) ==> final(self).chunks()[k] == old(
                        self,
                    ).chunks()[k]
            },
            final(self).all_block == old(self).all_block,
            final(self).center_chunk_pos == old(self).center_chunk_pos,
            final(self).chunk_rad == old(self).chunk_rad,
    {
        let mut writes: Vec<InstanceWrite> = Vec::new();
        let ghost old_self = *self;
        if self.set_block_data(block_coord, block) {
            let chunk_coord = get_chunk_coord(block_coord.x, block_coord.z);
            let block_offset = get_local_coord(block_coord);
            let key = chunk_coord.key();
            let ghost c = chunk_coord_of(block_coord);
            let ghost before = old_self.chunks()[key];
            proof {
                lemma_chunk_of_pos(block_coord);
                assert(chunk_coord == c);
                assert(before.render_consistent(c));
            }
            let idx = relative_to_index(block_offset.x, block_offset.y, block_offset.z);
            let ghost mid_self = *self;
            proof {
                assert forall|q: BlockPos| true implies #[trigger] mid_self.world_block(q) == if q == block_coord {
                    block
                } else {
                    old_self.world_block(q)
                } by {
                    let cq = chunk_coord_of(q);
                    lemma_chunk_of_pos(q);
                    if mid_self.is_loaded(cq) && 0 <= q.y < 256 {
                        let kq = key_of(cq);
                        if kq == key && pos_index(q) == pos_index(block_coord) {
                            lemma_key_injective(cq, c);
                            lemma_pos_index_injective(q, block_coord);
                        } else if kq == key {
                            lemma_key_injective(cq, c);
                        }
                    }
                }
            }
            let ghost mut after_remove = *self;
            let mut chunk = self.chunk_map.remove(&key).unwrap();
            if block.tp == BlockType::Empty {
                proof {
                    let o = before.offsets()[idx as int] as int;
                    let top = before.offset_top as int;
                    assert(before.instance@[top - 1] == before.instance@[top - 1]);
                    lemma_chunk_of_pos(before.instance@[top - 1].position);
                }
                let (offset, instance) = chunk.swap_remove_instance(idx);
                self.chunk_map.insert(key, chunk);
                proof {
                    assert(block == Block { tp: BlockType::Empty });
                    before.lemma_remove_consistent(&self.chunks()[key], c, idx as int);
                    assert(self.chunks().dom() =~= old_self.chunks().dom());
                    assert forall|k: i64| #[trigger] self.chunk_map@.contains_key(k) implies {
                        &&& key_of(coord_of_key(k as int)) == k
                        &&& valid_chunk_coord(coord_of_key(k as int))
                        &&& self.chunk_map@[k].wf()
                        &&& self.chunk_map@[k].render_consistent(coord_of_key(k as int))
                    } by {
                        assert(old_self.chunk_map@.contains_key(k));
                    }
                }
                let w = InstanceWrite { chunk: chunk_coord, offset, instance };
                writes.push(w);
                proof {
                    after_remove = *self;
                    assert forall|j: int| 0 <= j < 65536 implies ((#[trigger] self.chunks()[key].offsets()[j]
                        != NO_OFFSET) <==> (before.offsets()[j] != NO_OFFSET && j != idx as int)) by {
                        let top = before.offset_top as int;
                        assert(before.offsets()[inst_index(before.instances()[top - 1])] == top - 1);
                    }
                    assert forall|k: i64| k != key && #[trigger] self.chunks().contains_key(k) implies self.chunks()[k]
                        == old_self.chunks()[k] by {
                        assert(self.chunks()[k] == mid_self.chunks()[k]);
                    }
                    lemma_drawn_after_change(&old_self, &after_remove, block_coord, false);
                }
                proof {
                    assert forall|k: i64| #[trigger] self.chunks().contains_key(k) implies self.chunks()[k].instances()
                        == apply_writes(old_self.chunks()[k].instances(), coord_of_key(k as int), writes@) by {
                        assert(old_self.chunks().contains_key(k));
                        assert(writes@.drop_last() =~= Seq::<InstanceWrite>::empty());
                        assert(writes@.last() == w);
                        let insts = old_self.chunks()[k].instances();
                        assert(apply_writes(insts, coord_of_key(k as int), Seq::<InstanceWrite>::empty()) == insts);
                        if k != key {
                            assert(coord_of_key(k as int) != chunk_coord);
                        }
                    }
                    assert forall|n: int| 0 <= n < 6 implies self.lookup_ok(
                        #[trigger] neighbour(block_coord.x as int, block_coord.y as int, block_coord.z as int, n),
                    ) by {
                        assert(old_self.lookup_ok(neighbour(block_coord.x as int, block_coord.y as int, block_coord.z as int, n)));
                    }
                }
                let mut more = self.update_adjacent_block(block_coord);
                proof {
                    assert(after_remove.same_blocks(&mid_self));
                    lemma_same_world(&mid_self, &after_remove);
                    lemma_break_drawn(&old_self, &after_remove, self, block_coord);
                    let f_old = broken_block_of(old_self, block_coord);
                    let g_old = broken_drawn(old_self, block_coord);
                    let t_old = broken_top(old_self, block_coord);
                    assert forall|m: int| 0 <= m < 6 implies {
                        let q = #[trigger] neighbour(block_coord.x as int, block_coord.y as int, block_coord.z as int, m);
                        f_old(q).tp != BlockType::Empty ==> after_remove.chunks()[key_of(chunk_coord_of(q))].top() as int
                            == t_old(chunk_coord_of(q))
                    } by {
                        let q = neighbour(block_coord.x as int, block_coord.y as int, block_coord.z as int, m);
                        lemma_chunk_of_pos(q);
                        if f_old(q).tp != BlockType::Empty {
                            let cq = chunk_coord_of(q);
                            if key_of(cq) == key {
                                lemma_key_injective(cq, c);
                            } else {
                                assert(after_remove.chunks()[key_of(cq)] == mid_self.chunks()[key_of(cq)]);
                            }
                        }
                    }
                    lemma_draw_writes_agree(
                        block_coord,
                        6,
                        |p: BlockPos| after_remove.world_block(p),
                        |p: BlockPos| after_remove.drawn(p),
                        |cc: ChunkCoord| after_remove.chunks()[key_of(cc)].top() as int,
                        f_old,
                        g_old,
                        t_old,
                    );
                }
                let ghost first = writes@;
                let ghost rest = more@;
                writes.append(&mut more);
                proof {
                    assert forall|k: i64| #[trigger] self.chunks().contains_key(k) implies self.chunks()[k].instances()
                        == apply_writes(old_self.chunks()[k].instances(), coord_of_key(k as int), writes@) by {
                        assert(after_remove.chunks().contains_key(k));
                        lemma_apply_writes_append(old_self.chunks()[k].instances(), coord_of_key(k as int), first, rest);
                    }
                }
                proof {
                    let nb = break_writes(old_self, block_coord);
                    assert(rest == nb);
                    let last = before.instances()[before.top() - 1];
                    assert(first == seq![w]);
                    assert(w == InstanceWrite { chunk: c, offset: before.offsets()[pos_index(block_coord)], instance: last });
                    assert(writes@ == seq![
                        InstanceWrite { chunk: c, offset: before.offsets()[pos_index(block_coord)], instance: last },
                    ] + nb);
                    if inst_index(last) != pos_index(block_coord) {
                        let top = before.offset_top as int;
                        assert(0 <= inst_index(last) < 65536) by {
                            lemma_chunk_of_pos(last.position);
                        }
                        assert(after_remove.chunks()[key].offsets()[inst_index(last)] == before.offsets()[pos_index(
                            block_coord,
                        )]);
                        assert(before.offsets()[pos_index(block_coord)] != NO_OFFSET);
                        assert(self.chunks()[key].offsets()[inst_index(last)] == after_remove.chunks()[key].offsets()[inst_index(
                            last,
                        )]);
                    }
                    assert forall|k: i64| #[trigger] self.chunks().contains_key(k) implies self.chunks()[k].top()
                        == old_self.chunks()[k].top() - (if k == key {
                        1int
                    } else {
                        0int
                    }) + writes_to(nb, coord_of_key(k as int)) by {
                        assert(after_remove.chunks().contains_key(k));
                        if k != key {
                            assert(after_remove.chunks()[k] == old_self.chunks()[k]);
                        }
                    }
                }
            } else {
                let instance = Instance { position: block_coord, block_type: block.tp.id() };
                let offset = chunk.push_instance(idx, instance);
                self.chunk_map.insert(key, chunk);
                let w = InstanceWrite { chunk: chunk_coord, offset, instance };
                writes.push(w);
                proof {
                    assert forall|k: i64| k != key && #[trigger] self.chunks().contains_key(k) implies self.chunks()[k]
                        == old_self.chunks()[k] by {
                        assert(self.chunks()[k] == mid_self.chunks()[k]);
                    }
                    assert forall|j: int| 0 <= j < 65536 implies ((#[trigger] self.chunks()[key].offsets()[j]
                        != NO_OFFSET) <==> (before.offsets()[j] != NO_OFFSET || j == idx as int)) by {}
                    lemma_drawn_after_change(&old_self, self, block_coord, true);
                    assert(self.chunks()[key].top() == before.top() + 1);
                    assert(self.chunks()[key].offsets()[pos_index(block_coord)] == before.top());
                    assert(self.chunks()[key].instances()[before.top() as int] == instance);
                }
                proof {
                    self.lemma_replace_chunk(&old_self, key);
                    if !old_self.drawn(block_coord) {
                        before.lemma_push_consistent(&self.chunks()[key], c, idx as int, instance, block);
                        assert forall|k: i64| #[trigger] self.chunk_map@.contains_key(k) implies self.chunk_map@[k].render_consistent(
                            coord_of_key(k as int),
                        ) by {
                            assert(old_self.chunk_map@.contains_key(k));
                        }
                    }
                    assert forall|k: i64| #[trigger] self.chunks().contains_key(k) implies self.chunks()[k].instances()
                        == apply_writes(old_self.chunks()[k].instances(), coord_of_key(k as int), writes@) by {
                        assert(old_self.chunks().contains_key(k));
                        assert(writes@.drop_last() =~= Seq::<InstanceWrite>::empty());
                        assert(writes@.last() == w);
                        let insts = old_self.chunks()[k].instances();
                        assert(apply_writes(insts, coord_of_key(k as int), Seq::<InstanceWrite>::empty()) == insts);
                        if k != key {
                            assert(coord_of_key(k as int) != chunk_coord);
                        }
                    }
                }
            }
            proof {
                assert forall|q: BlockPos| true implies #[trigger] self.world_block(q) == if q == block_coord {
                    block
                } else {
                    old_self.world_block(q)
                } by {
                    let cq = chunk_coord_of(q);
                    lemma_chunk_of_pos(q);
                    if self.is_loaded(cq) && 0 <= q.y < 256 {
                        let kq = key_of(cq);
                        assert(self.chunks()[kq].blocks() == mid_self.chunks()[kq].blocks());
                        if kq == key && pos_index(q) == pos_index(block_coord) {
                            lemma_key_injective(cq, c);
                            lemma_pos_index_injective(q, block_coord);
                        } else if kq == key {
                            lemma_key_injective(cq, c);
                        }
                    }
                }
            }
        }
        writes
    }
}

/// Chunk `i` of the square of nine chunks a new world starts with, row by
/// row: `(i / 3 - 1, i % 3 - 1)`.
pub open spec fn initial_coord(i: int) -> ChunkCoord {
    ChunkCoord { x: (i / 3 - 1) as i32, z: (i % 3 - 1) as i32 }
}

/// Whether chunk `c` belongs to the square a new world starts with.
pub open spec fn in_initial_square(c: ChunkCoord) -> bool {
    -1 <= c.x <= 1 && -1 <= c.z <= 1
}

proof fn lemma_initial_coord(i: int)
    requires
        0 <= i < 9,
    ensures
        in_initial_square(initial_coord(i)),
        (initial_coord(i).x + 1) * 3 + (initial_coord(i).z + 1) == i,
{
    vstd::arithmetic::div_mod::lemma_fundamental_div_mod(i, 3);
}

impl RealmData {
    /// A new world: centred on chunk (0, 0), with the square of chunks of
    /// radius 1 around it loaded, chunk `initial_coord(i)` holding the blocks
    /// of `square[i]`, none of them drawn yet.
    pub fn new(square: Vec<ChunkData>) -> (r: Self)
        requires
            square.len() == 9,
            forall|i: int| 0 <= i < 9 ==> (#[trigger] square@[i]).blocks.len() == 65536,
        ensures
            r.wf(),
            r.render_consistent(),
            forall|c: ChunkCoord| #[trigger] r.is_loaded(c) <==> in_initial_square(c),
            forall|i: int|
                0 <= i < 9 ==> {
                    &&& r.chunks()[key_of(#[trigger] initial_coord(i))].blocks() == square@[i].blocks@
                    &&& r.chunks()[key_of(initial_coord(i))].fresh()
                },
            r.center_chunk_pos == (ChunkCoord { x: 0, z: 0 }),
            r.radius() == 1,
            r.wf_max_len == 6,
            r.is_wf_visible,
            r.chunk_rad == 1,
            r.wf_position == (BlockPos { x: 0, y: 0, z: 0 }),
            r.name@ == "./data/worlds/default_name_1"@,
            r.seed == 2025318,
            r.all_block.len() == 7,
            forall|i: int|
                0 <= i < 7 ==> {
                    &&& (#[trigger] r.all_block[i]).block_type == crate::block::type_of_id(i)
                    &&& r.all_block[i].tex_offset@ == crate::block::block_textures(crate::block::type_of_id(i))
                },
    {
        let mut r = Self::empty();
        let ghost first = r;
        let ghost sq = square@;
        let mut rest = square;
        while rest.len() > 0
            invariant
                rest.len() <= 9,
                rest@ == sq.take(rest.len() as int),
                sq.len() == 9,
                forall|i: int| 0 <= i < 9 ==> (#[trigger] sq[i]).blocks.len() == 65536,
                r.wf(),
                r.render_consistent(),
                r == (RealmData { chunk_map: r.chunk_map, ..first }),
                forall|c: ChunkCoord|
                    #[trigger] r.is_loaded(c) <==> in_initial_square(c) && (c.x + 1) * 3 + (c.z + 1) >= rest.len(),
                forall|i: int|
                    rest.len() <= i < 9 ==> {
                        &&& r.chunks()[key_of(#[trigger] initial_coord(i))].blocks() == sq[i].blocks@
                        &&& r.chunks()[key_of(initial_coord(i))].fresh()
                    },
            decreases rest.len(),
        {
            let i = rest.len() - 1;
            let ghost before = r;
            proof {
                assert(rest@[i as int] == sq[i as int]);
            }
            let data = rest.pop().unwrap();
            proof {
                assert(rest@ =~= sq.take(i as int));
                lemma_initial_coord(i as int);
            }
            let coord = ChunkCoord { x: (i / 3) as i32 - 1, z: (i % 3) as i32 - 1 };
            proof {
                assert(coord == initial_coord(i as int));
            }
            r.insert_chunk(coord, data);
            proof {
                assert forall|c: ChunkCoord| #[trigger] r.is_loaded(c) <==> in_initial_square(c) && (c.x + 1) * 3 + (c.z
                    + 1) >= i by {
                    lemma_key_injective(c, coord);
                    assert(before.is_loaded(c) <==> in_initial_square(c) && (c.x + 1) * 3 + (c.z + 1) >= i + 1);
                    assert(r.chunks().dom() == before.chunks().dom().insert(key_of(coord)));
                    if in_initial_square(c) && (c.x + 1) * 3 + (c.z + 1) == i {
                        vstd::arithmetic::div_mod::lemma_fundamental_div_mod_converse(
                            i as int,
                            3,
                            c.x + 1,
                            c.z + 1,
                        );
                        assert(c == coord);
                    }
                }
                assert forall|j: int| i <= j < 9 implies {
                    &&& r.chunks()[key_of(#[trigger] initial_coord(j))].blocks() == sq[j].blocks@
                    &&& r.chunks()[key_of(initial_coord(j))].fresh()
                } by {
                    if j != i {
                        lemma_initial_coord(j);
                        lemma_key_injective(initial_coord(j), coord);
                        assert(before.chunks()[key_of(initial_coord(j))].blocks() == sq[j].blocks@);
                    }
                }
            }
        }
        r
    }
}

/// How a request to load a chunk is served.
#[derive(Clone, Copy, Debug, PartialEq, Eq, Structural)]
pub enum InitChunkStep {
    /// The chunk is loaded already.
    Loaded,
    /// The chunk is being generated; nothing to do yet.
    Pending,
    /// Read the chunk from disk, or have it generated when there is no file.
    Load,
}

impl RealmData {
    /// The height just above the lowest empty block of column `(x, z)`
    /// (1 when the bottom block is empty); 90 when no block of the column is empty.
    pub fn get_first_none_empty_block(&self, x: i32, z: i32) -> (h: i32)
        requires
            self.wf(),
        ensures
            (exists|y: int| 0 <= y < 256 && #[trigger] self.world_block(BlockPos { x, y: y as i32, z }).tp == BlockType::Empty)
                ==> {
                &&& 1 <= h <= 256
                &&& self.world_block(BlockPos { x, y: (h - 1) as i32, z }).tp == BlockType::Empty
                &&& forall|y: int| 0 <= y < h - 1 ==> #[trigger] self.world_block(BlockPos { x, y: y as i32, z }).tp != BlockType::Empty
            },
            !(exists|y: int| 0 <= y < 256 && #[trigger] self.world_block(BlockPos { x, y: y as i32, z }).tp == BlockType::Empty)
                ==> h == 90,
    {
        let mut pos = BlockPos { x, y: 0, z };
        let mut y: i32 = 0;
        while y < CHUNK_HEIGHT
            invariant
                0 <= y <= 256,
                pos == (BlockPos { x, y, z }),
                self.wf(),
                forall|y2: int| 0 <= y2 < y ==> #[trigger] self.world_block(BlockPos { x, y: y2 as i32, z }).tp != BlockType::Empty,
            decreases 256 - y,
        {
            if self.get_block(pos) == Block::empty() {
                return y + 1;
            }
            pos.y = pos.y + 1;
            y = y + 1;
        }
        proof {
            assert forall|y2: int| 0 <= y2 < 256 implies #[trigger] self.world_block(BlockPos { x, y: y2 as i32, z }).tp != BlockType::Empty by {}
        }
        90
    }

    /// Moves the selection frame to `new_position`.
    pub fn update_wf_uniform(&mut self, new_position: BlockPos)
        ensures
            final(self).wf_position == new_position,
            final(self).chunk_map == old(self).chunk_map,
            final(self).is_wf_visible == old(self).is_wf_visible,
            final(self).center_chunk_pos == old(self).center_chunk_pos,
            final(self).chunk_rad == old(self).chunk_rad,
            final(self).all_block == old(self).all_block,
    {
        self.wf_position = new_position;
    }

    /// The first step of loading chunk `chunk_pos`, given whether its generation is pending.
    pub fn init_chunk_step(&self, chunk_pos: &ChunkCoord, pending: bool) -> (s: InitChunkStep)
        ensures
            self.is_loaded(*chunk_pos) ==> s == InitChunkStep::Loaded,
            !self.is_loaded(*chunk_pos) && pending ==> s == InitChunkStep::Pending,
            !self.is_loaded(*chunk_pos) && !pending ==> s == InitChunkStep::Load,
    {
        if self.chunk_map.contains_key(&chunk_pos.key()) {
            InitChunkStep::Loaded
        } else if pending {
            InitChunkStep::Pending
        } else {
            InitChunkStep::Load
        }
    }

    /// Loads chunk `coord` with the blocks of `data` and no instances, in
    /// place of any chunk loaded there.
    pub fn insert_chunk(&mut self, coord: ChunkCoord, data: ChunkData)
        requires
            old(self).wf(),
            valid_chunk_coord(coord),
            data.blocks.len() == 65536,
        ensures
            final(self).wf(),
            final(self).chunks().dom() == old(self).chunks().dom().insert(key_of(coord)),
            forall|k: i64| k != key_of(coord) ==> #[trigger] final(self).chunks()[k] == old(self).chunks()[k],
            final(self).chunks()[key_of(coord)].blocks() == data.blocks@,
            final(self).chunks()[key_of(coord)].fresh(),
            old(self).render_consistent() ==> final(self).render_consistent(),
            *final(self) == (RealmData { chunk_map: final(self).chunk_map, ..*old(self) }),
            final(self).all_block == old(self).all_block,
            final(self).center_chunk_pos == old(self).center_chunk_pos,
            final(self).chunk_rad == old(self).chunk_rad,
    {
        let ghost old_self = *self;
        let key = coord.key();
        let chunk = Chunk::new(data);
        self.chunk_map.insert(key, chunk);
        proof {
            lemma_key_injective(coord, coord);
            assert(self.chunks().dom() =~= old_self.chunks().dom().insert(key));
            assert forall|k: i64| #[trigger] self.chunk_map@.contains_key(k) implies {
                &&& key_of(coord_of_key(k as int)) == k
                &&& valid_chunk_coord(coord_of_key(k as int))
                &&& self.chunk_map@[k].wf()
            } by {
                if k != key {
                    assert(old_self.chunk_map@.contains_key(k));
                }
            }
            let fresh = self.chunk_map@[key];
            assert(fresh.render_consistent(coord));
            if old_self.render_consistent() {
                assert forall|k: i64| #[trigger] self.chunk_map@.contains_key(k) implies self.chunk_map@[k].render_consistent(
                    coord_of_key(k as int),
                ) by {
                    if k != key {
                        assert(old_self.chunk_map@.contains_key(k));
                    }
                }
            }
        }
    }

    /// Drops chunk `chunk_pos` from the loaded chunks.
    pub fn unload_chunk(&mut self, chunk_pos: &ChunkCoord)
        requires
            old(self).wf(),
        ensures
            final(self).wf(),
            final(self).chunks() == old(self).chunks().remove(key_of(*chunk_pos)),
            old(self).render_consistent() ==> final(self).render_consistent(),
            final(self).all_block == old(self).all_block,
            final(self).center_chunk_pos == old(self).center_chunk_pos,
            final(self).chunk_rad == old(self).chunk_rad,
    {
        let ghost old_self = *self;
        self.chunk_map.remove(&chunk_pos.key());
        proof {
            assert forall|k: i64| #[trigger] self.chunk_map@.contains_key(k) implies {
                &&& key_of(coord_of_key(k as int)) == k
                &&& valid_chunk_coord(coord_of_key(k as int))
                &&& self.chunk_map@[k].wf()
            } by {
                assert(old_self.chunk_map@.contains_key(k));
            }
            if old_self.render_consistent() {
                assert forall|k: i64| #[trigger] self.chunk_map@.contains_key(k) implies self.chunk_map@[k].render_consistent(
                    coord_of_key(k as int),
                ) by {
                    assert(old_self.chunk_map@.contains_key(k));
                }
            }
        }
    }

    /// The chunk loaded at `coord`.
    pub fn get_chunk(&self, coord: &ChunkCoord) -> (r: Option<&Chunk>)
        ensures
            self.is_loaded(*coord) ==> r == Some(&self.chunks()[key_of(*coord)]),
            !self.is_loaded(*coord) ==> r is None,
    {
        self.chunk_map.get(&coord.key())
    }
}

impl RealmData {
    /// The keys of the loaded chunks, each once, in no particular order.
    fn loaded_keys(&self) -> (keys: Vec<i64>)
        ensures
            keys@.to_set() == self.chunks().dom(),
            keys@.no_duplicates(),
    {
        let mut keys: Vec<i64> = Vec::new();
        let ghost all = vstd::std_specs::hash::spec_keys_iter(&self.chunk_map).remaining();
        for k in it: self.chunk_map.keys()
            invariant
                keys@ == it.seq().take(it.index() as int).unref(),
                it.seq() == all,
        {
            keys.push(*k);
        }
        assert(keys@ =~= all.unref());
        keys
    }

    /// The coordinates of the loaded chunks, each once, in no particular order.
    pub fn loaded_chunk_coords(&self) -> (coords: Vec<ChunkCoord>)
        requires
            self.wf(),
        ensures
            coords.len() == self.chunks().dom().len(),
            forall|j: int| 0 <= j < coords.len() ==> #[trigger] self.is_loaded(coords@[j]),
            forall|c: ChunkCoord| #[trigger] self.is_loaded(c) ==> coords@.contains(c),
    {
        let keys = self.loaded_keys();
        let mut coords: Vec<ChunkCoord> = Vec::new();
        let mut j: usize = 0;
        while j < keys.len()
            invariant
                j <= keys.len(),
                self.wf(),
                keys@.to_set() == self.chunks().dom(),
                coords.len() == j,
                forall|i: int| 0 <= i < j ==> key_of(#[trigger] coords@[i]) == keys@[i],
            decreases keys.len() - j,
        {
            proof {
                assert(keys@.to_set().contains(keys@[j as int]));
                lemma_key_injective(coord_of_key(keys@[j as int] as int), coord_of_key(keys@[j as int] as int));
            }
            coords.push(ChunkCoord::from_key(keys[j]));
            j = j + 1;
        }
        proof {
            keys@.unique_seq_to_set();
            assert forall|i: int| 0 <= i < coords.len() implies #[trigger] self.is_loaded(coords@[i]) by {
                assert(keys@.to_set().contains(keys@[i]));
            }
            assert forall|c: ChunkCoord| #[trigger] self.is_loaded(c) implies coords@.contains(c) by {
                assert(keys@.to_set().contains(key_of(c)));
                let i = keys@.index_of(key_of(c));
                assert(key_of(coords@[i]) == key_of(c));
                lemma_key_injective(coords@[i], c);
                assert(coords@[i] == c);
            }
        }
        coords
    }

    /// Worlds with the same chunks and blocks show the same blocks.
    proof fn lemma_same_shows(&self, other: &RealmData, c: ChunkCoord)
        requires
            self.same_blocks(other),
            self.is_loaded(c),
        ensures
            forall|i: int| #[trigger] self.shows(c, i) == other.shows(c, i),
            forall|i: int| #[trigger] self.shown_before(c, i) == other.shown_before(c, i),
            forall|i: int| #[trigger] self.instance_for(c, i) == other.instance_for(c, i),
    {
        assert forall|p: BlockPos| #[trigger] self.world_block(p) == other.world_block(p) by {
            let cp = chunk_coord_of(p);
            if self.is_loaded(cp) {
                assert(self.chunks()[key_of(cp)].blocks() == other.chunks()[key_of(cp)].blocks());
            }
        }
        assert forall|i: int| #[trigger] self.shows(c, i) == other.shows(c, i) by {
            if self.is_loaded(c) {
                assert(self.chunks()[key_of(c)].blocks() == other.chunks()[key_of(c)].blocks());
            }
            assert(self.visible(index_pos(c, i)) == other.visible(index_pos(c, i))) by {
                if self.visible(index_pos(c, i)) {
                    let n = choose|n: int|
                        0 <= n < 6 && #[trigger] self.world_block(
                            neighbour(index_pos(c, i).x as int, index_pos(c, i).y as int, index_pos(c, i).z as int, n),
                        ).tp == BlockType::Empty;
                    assert(other.world_block(
                        neighbour(index_pos(c, i).x as int, index_pos(c, i).y as int, index_pos(c, i).z as int, n),
                    ).tp == BlockType::Empty);
                }
                if other.visible(index_pos(c, i)) {
                    let n = choose|n: int|
                        0 <= n < 6 && #[trigger] other.world_block(
                            neighbour(index_pos(c, i).x as int, index_pos(c, i).y as int, index_pos(c, i).z as int, n),
                        ).tp == BlockType::Empty;
                    assert(self.world_block(
                        neighbour(index_pos(c, i).x as int, index_pos(c, i).y as int, index_pos(c, i).z as int, n),
                    ).tp == BlockType::Empty);
                }
            }
        }
        assert forall|i: int| #[trigger] self.shown_before(c, i) == other.shown_before(c, i) by {
            self.lemma_same_shown_before(other, c, i);
        }
        assert forall|i: int| #[trigger] self.instance_for(c, i) == other.instance_for(c, i) by {
            if self.is_loaded(c) {
                assert(self.chunks()[key_of(c)].blocks() == other.chunks()[key_of(c)].blocks());
            }
        }
    }

    proof fn lemma_same_shown_before(&self, other: &RealmData, c: ChunkCoord, i: int)
        requires
            forall|j: int| #[trigger] self.shows(c, j) == other.shows(c, j),
        ensures
            self.shown_before(c, i) == other.shown_before(c, i),
        decreases i,
    {
        if i > 0 {
            self.lemma_same_shown_before(other, c, i - 1);
            assert(self.shows(c, i - 1) == other.shows(c, i - 1));
        }
    }

    /// Draws the shown blocks of every loaded chunk (see `create_instance`).
    #[verifier::spinoff_prover]
    pub fn load_all_instance(&mut self)
        requires
            old(self).wf(),
            forall|k: i64|
                #[trigger] old(self).chunks().contains_key(k) ==> interior_chunk_coord(coord_of_key(k as int)),
        ensures
            final(self).wf(),
            final(self).same_blocks(old(self)),
            forall|k: i64|
                #[trigger] old(self).chunks().contains_key(k) ==> old(self).instanced(
                    coord_of_key(k as int),
                    old(self).chunks()[k],
                    final(self).chunks()[k],
                ),
            old(self).render_consistent() ==> final(self).render_consistent(),
            final(self).all_block == old(self).all_block,
            final(self).center_chunk_pos == old(self).center_chunk_pos,
            final(self).chunk_rad == old(self).chunk_rad,
    {
        let coords = self.loaded_keys();
        let ghost all_fresh = old(self).render_consistent();
        let mut idx: usize = 0;
        while idx < coords.len()
            invariant
                idx <= coords.len(),
                coords@.to_set() == old(self).chunks().dom(),
                coords@.no_duplicates(),
                self.wf(),
                self.same_blocks(old(self)),
                forall|k: i64|
                    #[trigger] old(self).chunks().contains_key(k) ==> {
                        &&& interior_chunk_coord(coord_of_key(k as int))
                        &&& key_of(coord_of_key(k as int)) == k
                    },
                forall|j: int|
                    0 <= j < idx ==> old(self).instanced(
                        coord_of_key(coords@[j] as int),
                        old(self).chunks()[coords@[j]],
                        self.chunks()[#[trigger] coords@[j]],
                    ),
                forall|j: int| idx <= j < coords.len() ==> self.chunks()[#[trigger] coords@[j]] == old(self).chunks()[coords@[j]],
                all_fresh ==> self.render_consistent(),
                self.all_block == old(self).all_block,
                self.center_chunk_pos == old(self).center_chunk_pos,
                self.chunk_rad == old(self).chunk_rad,
            decreases coords.len() - idx,
        {
            let k = coords[idx];
            proof {
                assert(coords@.to_set().contains(k));
                assert(old(self).chunks().contains_key(k));
                assert(self.wf());
            }
            let c = ChunkCoord::from_key(k);
            let ghost cur = *self;
            proof {
                assert(key_of(c) == k);
                assert(coords@[idx as int] == k);
                assert(self.chunks()[k] == old(self).chunks()[k]);
            }
            self.create_instance(&c);
            proof {
                cur.lemma_same_shows(old(self), c);
                assert forall|j: int| 0 <= j < idx + 1 implies old(self).instanced(
                    coord_of_key(coords@[j] as int),
                    old(self).chunks()[coords@[j]],
                    self.chunks()[#[trigger] coords@[j]],
                ) by {
                    if j < idx {
                        assert(coords@[j] != k);
                        assert(cur.chunks()[coords@[j]] == self.chunks()[coords@[j]]);
                    } else {
                        assert(coords@[j] == k);
                        assert(cur.instanced(c, cur.chunks()[k], self.chunks()[k]));
                    }
                }
                assert forall|j: int| idx + 1 <= j < coords.len() implies self.chunks()[#[trigger] coords@[j]]
                    == old(self).chunks()[coords@[j]] by {
                    assert(coords@[j] != k);
                }
                assert forall|k2: i64| #[trigger] self.chunks().contains_key(k2) implies self.chunks()[k2].blocks()
                    == old(self).chunks()[k2].blocks() by {
                    assert(cur.chunks().contains_key(k2));
                }
                assert(self.chunks().dom() == old(self).chunks().dom());
            }
            idx = idx + 1;
        }
        proof {
            assert forall|k: i64| #[trigger] old(self).chunks().contains_key(k) implies old(self).instanced(
                coord_of_key(k as int),
                old(self).chunks()[k],
                self.chunks()[k],
            ) by {
                assert(coords@.to_set().contains(k));
                let j = coords@.index_of(k);
                assert(coords@[j] == k);
            }
        }
    }
}

/// Drawing a chunk a second time, with no block changed in between, gives
/// what drawing it once gave: the same number of drawn instances, the same
/// slot for every block and the same instance array.
pub proof fn lemma_instancing_idempotent(w0: RealmData, w1: RealmData, c: ChunkCoord, first: Chunk, second: Chunk)
    requires
        w0.is_loaded(c),
        w1.same_blocks(&w0),
        first.wf(),
        second.wf(),
        w0.instanced(c, w0.chunks()[key_of(c)], first),
        w1.instanced(c, first, second),
    ensures
        second.blocks() == first.blocks(),
        second.top() == first.top(),
        second.offsets() == first.offsets(),
        second.instances() == first.instances(),
{
    w1.lemma_same_shows(&w0, c);
    let n = w0.shown_before(c, 65536);
    assert forall|i: int| 0 <= i < 65536 implies #[trigger] second.offsets()[i] == first.offsets()[i] by {
        assert(w1.shows(c, i) == w0.shows(c, i));
    }
    assert(second.offsets() =~= first.offsets());
    assert forall|j: int| 0 <= j < 65536 implies #[trigger] second.instances()[j] == first.instances()[j] by {
        if j < n {
            let i1 = inst_index(first.instances()[j]);
            let i2 = inst_index(second.instances()[j]);
            assert(w0.shows(c, i1) && w0.shown_before(c, i1) == j);
            assert(w1.shows(c, i2) && w1.shown_before(c, i2) == j);
            assert(w0.shows(c, i2) && w0.shown_before(c, i2) == j);
            if i1 < i2 {
                w0.lemma_shown_before_grows(c, i1, i2);
            } else if i2 < i1 {
                w0.lemma_shown_before_grows(c, i2, i1);
            }
            assert(w1.instance_for(c, i2) == w0.instance_for(c, i2));
        }
    }
    assert(second.instances() =~= first.instances());
}

} // verus!
