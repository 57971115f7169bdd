use vstd::prelude::*;

use crate::coord::BlockPos;

verus! {

/// The kinds of block; the number of each kind is its index in the block table.
#[derive(Clone, Copy, Debug, PartialEq, Eq, Structural)]
pub enum BlockType {
    /// No block; the default.
    Empty,
    /// Bedrock, the floor of the world.
    UnderStone,
    Stone,
    Grass,
    Dirt,
    BirchLog,
    BirchLeaves,
}

/// Number of block kinds.
pub const BLOCK_NUM: usize = 7;

/// The number of a block kind.
pub open spec fn type_id(tp: BlockType) -> u32 {
    match tp {
        BlockType::Empty => 0,
        BlockType::UnderStone => 1,
        BlockType::Stone => 2,
        BlockType::Grass => 3,
        BlockType::Dirt => 4,
        BlockType::BirchLog => 5,
        BlockType::BirchLeaves => 6,
    }
}

/// The block kind with number `id` (for `id < BLOCK_NUM`).
pub open spec fn type_of_id(id: int) -> BlockType {
    if id == 1 {
        BlockType::UnderStone
    } else if id == 2 {
        BlockType::Stone
    } else if id == 3 {
        BlockType::Grass
    } else if id == 4 {
        BlockType::Dirt
    } else if id == 5 {
        BlockType::BirchLog
    } else if id == 6 {
        BlockType::BirchLeaves
    } else {
        BlockType::Empty
    }
}

impl BlockType {
    /// Whether light passes through this kind, so that the faces next to it show.
    pub fn is_transparent(&self) -> (r: bool)
        ensures
            r == (*self == BlockType::Empty),
    {
        match self {
            BlockType::Empty => true,
            _ => false,
        }
    }

    /// The number of this kind.
    pub fn id(&self) -> (r: u32)
        ensures
            r == type_id(*self),
            r < 7,
            type_of_id(r as int) == *self,
    {
        match self {
            BlockType::Empty => 0,
            BlockType::UnderStone => 1,
            BlockType::Stone => 2,
            BlockType::Grass => 3,
            BlockType::Dirt => 4,
            BlockType::BirchLog => 5,
            BlockType::BirchLeaves => 6,
        }
    }

    /// The kind with number `id`.
    pub fn from_id(id: u32) -> (tp: Self)
        requires
            id < 7,
        ensures
            tp == type_of_id(id as int),
            type_id(tp) == id,
    {
        if id == 1 {
            BlockType::UnderStone
        } else if id == 2 {
            BlockType::Stone
        } else if id == 3 {
            BlockType::Grass
        } else if id == 4 {
            BlockType::Dirt
        } else if id == 5 {
            BlockType::BirchLog
        } else if id == 6 {
            BlockType::BirchLeaves
        } else {
            BlockType::Empty
        }
    }
}

impl Default for BlockType {
    fn default() -> (tp: Self)
        ensures
            tp == BlockType::Empty,
    {
        BlockType::Empty
    }
}

/// The textures of the block atlas.
#[derive(Clone, Copy, Debug, PartialEq, Eq, Structural)]
pub enum BlockMaterials {
    Empty,
    UnderStone,
    Stone,
    GrassBlockSide,
    GrassBlockTop,
    Dirt,
    BirchLogTop,
    BirchLog,
    BirchLeaves,
}

/// Number of textures in the atlas.
pub const BLOCK_MATERIALS_NUM: u32 = 8;

/// The layer of a texture in the atlas; `Empty` has none and is numbered 999.
pub open spec fn material_index(m: BlockMaterials) -> u32 {
    match m {
        BlockMaterials::Empty => 999,
        BlockMaterials::UnderStone => 0,
        BlockMaterials::Stone => 1,
        BlockMaterials::GrassBlockSide => 2,
        BlockMaterials::GrassBlockTop => 3,
        BlockMaterials::Dirt => 4,
        BlockMaterials::BirchLogTop => 5,
        BlockMaterials::BirchLog => 6,
        BlockMaterials::BirchLeaves => 7,
    }
}

impl BlockMaterials {
    /// The layer of this texture in the atlas.
    pub fn index(&self) -> (r: u32)
        ensures
            r == material_index(*self),
    {
        match self {
            BlockMaterials::Empty => 999,
            BlockMaterials::UnderStone => 0,
            BlockMaterials::Stone => 1,
            BlockMaterials::GrassBlockSide => 2,
            BlockMaterials::GrassBlockTop => 3,
            BlockMaterials::Dirt => 4,
            BlockMaterials::BirchLogTop => 5,
            BlockMaterials::BirchLog => 6,
            BlockMaterials::BirchLeaves => 7,
        }
    }
}

/// One block of the world.
#[derive(Clone, Copy, Debug, PartialEq, Eq, Structural)]
pub struct Block {
    pub tp: BlockType,
}

impl Block {
    pub open spec fn empty_spec() -> Block {
        Block { tp: BlockType::Empty }
    }

    /// The empty block, also what lies outside the loaded world.
    pub fn empty() -> (b: Self)
        ensures
            b.tp == BlockType::Empty,
    {
        Self { tp: BlockType::Empty }
    }

    pub fn new(tp: BlockType) -> (b: Self)
        ensures
            b.tp == tp,
    {
        Self { tp }
    }
}

/// A visible block as the renderer draws it: its absolute position and its kind's number.
#[derive(Clone, Copy, Debug, PartialEq, Eq, Structural)]
pub struct Instance {
    pub position: BlockPos,
    pub block_type: u32,
}

impl Instance {
    /// The instance that fills unused slots: at the origin, of kind 0.
    pub fn empty() -> (i: Self)
        ensures
            i == empty_instance(),
    {
        Instance { position: BlockPos { x: 0, y: 0, z: 0 }, block_type: 0 }
    }
}

impl Default for Block {
    /// The empty block.
    fn default() -> (b: Self)
        ensures
            b.tp == BlockType::Empty,
    {
        Self { tp: BlockType::Empty }
    }
}

impl Default for Instance {
    /// The instance that fills unused slots.
    fn default() -> (i: Self)
        ensures
            i == empty_instance(),
    {
        Instance::empty()
    }
}

pub open spec fn empty_instance() -> Instance {
    Instance { position: BlockPos { x: 0, y: 0, z: 0 }, block_type: 0 }
}

/// What the renderer needs to know of a block kind: its name and the
/// texture of each face, in the order front, top, back, bottom, left, right.
#[derive(Clone, Copy, Debug)]
pub struct BlockInfo {
    pub name: &'static str,
    pub block_type: BlockType,
    pub tex_offset: [u32; 6],
}

impl BlockInfo {
    pub fn new(name: &'static str, tex_offset: [u32; 6], block_type: BlockType) -> (b: Self)
        ensures
            b.name == name,
            b.tex_offset == tex_offset,
            b.block_type == block_type,
    {
        Self { name, block_type, tex_offset }
    }
}

impl Default for BlockInfo {
    /// An unnamed empty kind with texture layer 0 on every face.
    fn default() -> (b: Self)
        ensures
            b.name@ == ""@,
            b.block_type == BlockType::Empty,
            b.tex_offset@ == seq![0u32, 0, 0, 0, 0, 0],
    {
        Self { name: "", block_type: BlockType::Empty, tex_offset: [0, 0, 0, 0, 0, 0] }
    }
}

/// The face textures of each block kind, front, top, back, bottom, left, right.
pub open spec fn block_textures(tp: BlockType) -> Seq<u32> {
    match tp {
        BlockType::Empty => seq![999u32, 999, 999, 999, 999, 999],
        BlockType::UnderStone => seq![0u32, 0, 0, 0, 0, 0],
        BlockType::Stone => seq![1u32, 1, 1, 1, 1, 1],
        BlockType::Grass => seq![2u32, 3, 2, 4, 2, 2],
        BlockType::Dirt => seq![4u32, 4, 4, 4, 4, 4],
        BlockType::BirchLog => seq![6u32, 5, 6, 5, 6, 6],
        BlockType::BirchLeaves => seq![7u32, 7, 7, 7, 7, 7],
    }
}

/// The atlas layer of face `f` (front, top, back, bottom, left, right) of a
/// block of kind `tp`, named by the material it shows.
pub open spec fn face_material(tp: BlockType, f: int) -> BlockMaterials {
    match tp {
        BlockType::Empty => BlockMaterials::Empty,
        BlockType::UnderStone => BlockMaterials::UnderStone,
        BlockType::Stone => BlockMaterials::Stone,
        BlockType::Grass => if f == 1 {
            BlockMaterials::GrassBlockTop
        } else if f == 3 {
            BlockMaterials::Dirt
        } else {
            BlockMaterials::GrassBlockSide
        },
        BlockType::Dirt => BlockMaterials::Dirt,
        BlockType::BirchLog => if f == 1 || f == 3 {
            BlockMaterials::BirchLogTop
        } else {
            BlockMaterials::BirchLog
        },
        BlockType::BirchLeaves => BlockMaterials::BirchLeaves,
    }
}

/// Each block kind is drawn with the atlas layers of its own materials:
/// bedrock, stone, dirt and leaves show their one material on all six faces,
/// grass its side texture on the sides, its top on top and dirt below, a
/// birch log bark on the sides and its cut end on top and bottom. Every face
/// of a real block is a layer of the atlas, and two different kinds never
/// look the same.
pub proof fn lemma_block_textures(tp: BlockType, other: BlockType, f: int)
    requires
        0 <= f < 6,
    ensures
        block_textures(tp).len() == 6,
        block_textures(tp)[f] == material_index(face_material(tp, f)),
        tp == BlockType::UnderStone ==> block_textures(tp)[f] == material_index(BlockMaterials::UnderStone),
        tp == BlockType::Stone ==> block_textures(tp)[f] == material_index(BlockMaterials::Stone),
        tp == BlockType::Dirt ==> block_textures(tp)[f] == material_index(BlockMaterials::Dirt),
        tp == BlockType::BirchLeaves ==> block_textures(tp)[f] == material_index(BlockMaterials::BirchLeaves),
        tp != BlockType::Empty ==> block_textures(tp)[f] < BLOCK_MATERIALS_NUM,
        block_textures(BlockType::Grass)[3] == block_textures(BlockType::Dirt)[f],
        tp != other ==> block_textures(tp) != block_textures(other),
{
    assert(block_textures(tp).len() == 6);
    if tp != other {
        let (a, b) = (block_textures(tp), block_textures(other));
        if a == b {
            assert(a[0] == b[0] && a[1] == b[1]);
        }
    }
}

fn uniform_faces(m: BlockMaterials) -> (t: [u32; 6])
    ensures
        t@ == seq![material_index(m), material_index(m), material_index(m), material_index(m), material_index(m), material_index(m)],
{
    let i = m.index();
    [i, i, i, i, i, i]
}

/// The table of all block kinds, indexed by each kind's number.
pub fn create_all_block() -> (all_block: Vec<BlockInfo>)
    ensures
        all_block.len() == BLOCK_NUM,
        forall|i: int|
            0 <= i < 7 ==> {
                &&& (#[trigger] all_block[i]).block_type == type_of_id(i)
                &&& all_block[i].tex_offset@ == block_textures(type_of_id(i))
            },
        forall|i: int, f: int|
            0 <= i < 7 && 0 <= f < 6 ==> (#[trigger] all_block[i].tex_offset@[f]) == material_index(
                face_material(type_of_id(i), f),
            ),
        all_block[0].name@ == "Empty"@,
        all_block[1].name@ == "bedrock"@,
        all_block[2].name@ == "stone"@,
        all_block[3].name@ == "grass_block_side"@,
        all_block[4].name@ == "dirt"@,
        all_block[5].name@ == "birch_log"@,
        all_block[6].name@ == "birch_leaves"@,
{
    let mut all_block: Vec<BlockInfo> = Vec::new();
    all_block.push(BlockInfo::new("Empty", uniform_faces(BlockMaterials::Empty), BlockType::Empty));
    all_block.push(
        BlockInfo::new("bedrock", uniform_faces(BlockMaterials::UnderStone), BlockType::UnderStone),
    );
    all_block.push(BlockInfo::new("stone", uniform_faces(BlockMaterials::Stone), BlockType::Stone));
    let side = BlockMaterials::GrassBlockSide.index();
    let grass = [side, BlockMaterials::GrassBlockTop.index(), side, BlockMaterials::Dirt.index(), side, side];
    all_block.push(BlockInfo::new("grass_block_side", grass, BlockType::Grass));
    all_block.push(BlockInfo::new("dirt", uniform_faces(BlockMaterials::Dirt), BlockType::Dirt));
    let log = BlockMaterials::BirchLog.index();
    let top = BlockMaterials::BirchLogTop.index();
    all_block.push(BlockInfo::new("birch_log", [log, top, log, top, log, log], BlockType::BirchLog));
    all_block.push(
        BlockInfo::new("birch_leaves", uniform_faces(BlockMaterials::BirchLeaves), BlockType::BirchLeaves),
    );
    assert(all_block[3].tex_offset@ =~= block_textures(BlockType::Grass));
    assert(all_block[5].tex_offset@ =~= block_textures(BlockType::BirchLog));
    proof {
        assert forall|i: int, f: int| 0 <= i < 7 && 0 <= f < 6 implies (#[trigger] all_block[i].tex_offset@[f])
            == material_index(face_material(type_of_id(i), f)) by {
            lemma_block_textures(type_of_id(i), type_of_id(i), f);
        }
    }
    all_block
}

/// The texture layer of every face of every block kind, kind by kind, six
/// faces each (the uniform the block shader reads); kinds missing from
/// `all_block` get layer 0.
pub fn block_material_table(all_block: &Vec<BlockInfo>) -> (table: Vec<u32>)
    requires
        all_block.len() <= 7,
    ensures
        table.len() == 42,
        forall|i: int, f: int|
            0 <= i < 7 && 0 <= f < 6 ==> #[trigger] table@[i * 6 + f] == if i < all_block.len() {
                all_block@[i].tex_offset@[f]
            } else {
                0
            },
{
    let mut table: Vec<u32> = vec![0; 42];
    let mut i: usize = 0;
    while i < all_block.len()
        invariant
            i <= all_block.len() <= 7,
            table.len() == 42,
            forall|i2: int, f: int|
                0 <= i2 < 7 && 0 <= f < 6 ==> #[trigger] table@[i2 * 6 + f] == if i2 < i {
                    all_block@[i2].tex_offset@[f]
                } else {
                    0
                },
        decreases all_block.len() - i,
    {
        let mut face: usize = 0;
        while face < 6
            invariant
                i < all_block.len() <= 7,
                face <= 6,
                table.len() == 42,
                forall|i2: int, f: int|
                    0 <= i2 < 7 && 0 <= f < 6 ==> #[trigger] table@[i2 * 6 + f] == if i2 < i || (i2 == i && f
                        < face) {
                        all_block@[i2].tex_offset@[f]
                    } else {
                        0
                    },
            decreases 6 - face,
        {
            let ghost before = table@;
            table.set(i * 6 + face, all_block[i].tex_offset[face]);
            proof {
                assert forall|i2: int, f: int| 0 <= i2 < 7 && 0 <= f < 6 implies #[trigger] table@[i2 * 6 + f]
                    == if i2 < i || (i2 == i && f < face + 1) {
                    all_block@[i2].tex_offset@[f]
                } else {
                    0
                } by {
                    if i2 * 6 + f != i * 6 + face {
                        assert(table@[i2 * 6 + f] == before[i2 * 6 + f]);
                    }
                }
            }
            face = face + 1;
        }
        i = i + 1;
    }
    table
}

} // verus!
