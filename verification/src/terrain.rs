use vstd::prelude::*;

use crate::block::{Block, BlockType};
use crate::coord::{
    block_index, in_chunk, index_x, index_y, index_z, lemma_index_decode, lemma_index_encode, BLOCK_NUM_PER_CHUNK,
};
use crate::realm::ChunkData;

verus! {

/// The layers of leaves of a birch crown.
#[derive(Clone, Copy, Debug, PartialEq, Eq, Structural)]
pub enum LeafLayer {
    /// Two below the top of the trunk: the 5 by 5 square around the trunk.
    Lower,
    /// One below the top of the trunk: the same square without its corners.
    Middle,
    /// Just above the trunk: the trunk's column and its four side neighbours.
    Top,
}

/// Whether the crown layer covers the column at offset `(i, j)` from the trunk.
pub open spec fn layer_covers(layer: LeafLayer, i: int, j: int) -> bool {
    match layer {
        LeafLayer::Lower => -2 <= i <= 2 && -2 <= j <= 2 && !(i == 0 && j == 0),
        LeafLayer::Middle => -2 <= i <= 2 && -2 <= j <= 2 && !(i == 0 && j == 0) && !((i == 2 || i == -2) && (j
            == 2 || j == -2)),
        LeafLayer::Top => -1 <= i <= 1 && -1 <= j <= 1 && !((i == 1 || i == -1) && (j == 1 || j == -1)),
    }
}

/// The height of a crown layer, for a trunk from `h` of height `th`.
pub open spec fn layer_y(layer: LeafLayer, h: int, th: int) -> int {
    match layer {
        LeafLayer::Lower => h + th - 2,
        LeafLayer::Middle => h + th - 1,
        LeafLayer::Top => h + th,
    }
}

/// Whether the block with index `p` belongs to the birch standing at column
/// `(x, z)` from height `h`, with a trunk `th` high, and which block it is.
pub open spec fn tree_block_at(p: int, x: int, z: int, h: int, th: int) -> Option<BlockType> {
    let (px, py, pz) = (index_x(p), index_y(p), index_z(p));
    if px == x && pz == z && h <= py < h + th {
        Some(BlockType::BirchLog)
    } else if (py == layer_y(LeafLayer::Lower, h, th) && layer_covers(LeafLayer::Lower, px - x, pz - z)) || (
    py == layer_y(LeafLayer::Middle, h, th) && layer_covers(LeafLayer::Middle, px - x, pz - z)) || (py
        == layer_y(LeafLayer::Top, h, th) && layer_covers(LeafLayer::Top, px - x, pz - z)) {
        Some(BlockType::BirchLeaves)
    } else {
        None
    }
}

/// The block that the ground of column `(x, z)`, `h` high, puts at index `p`, if any:
/// bedrock at the bottom, grass on top, dirt in the four blocks below the
/// grass, stone under that.
pub open spec fn ground_block_at(p: int, x: int, z: int, h: int) -> Option<BlockType> {
    let (px, py, pz) = (index_x(p), index_y(p), index_z(p));
    if px == x && pz == z && py == 0 {
        Some(BlockType::UnderStone)
    } else if px == x && pz == z && py < h {
        if py == h - 1 {
            Some(BlockType::Grass)
        } else if py > h - 5 {
            Some(BlockType::Dirt)
        } else {
            Some(BlockType::Stone)
        }
    } else {
        None
    }
}

/// `blocks` with the birch at column `(x, z)` added.
pub open spec fn paint_tree(blocks: Seq<Block>, x: int, z: int, h: int, th: int) -> Seq<Block> {
    Seq::new(
        blocks.len(),
        |p: int|
            match tree_block_at(p, x, z, h, th) {
                Some(tp) => Block { tp },
                None => blocks[p],
            },
    )
}

/// `blocks` with the ground of column `(x, z)` filled in.
pub open spec fn paint_ground(blocks: Seq<Block>, x: int, z: int, h: int) -> Seq<Block> {
    Seq::new(
        blocks.len(),
        |p: int|
            match ground_block_at(p, x, z, h) {
                Some(tp) => Block { tp },
                None => blocks[p],
            },
    )
}

/// Whether no tree stands within two columns of `(x, z)` (`grid` has one entry
/// per column, at `x * 16 + z`).
pub open spec fn no_tree_near(grid: Seq<bool>, x: int, z: int) -> bool {
    forall|i: int, j: int| -2 <= i <= 2 && -2 <= j <= 2 ==> !#[trigger] grid[(x + i) * 16 + (z + j)]
}

/// `grid` with the columns within two of `(x, z)` marked.
pub open spec fn mark_tree(grid: Seq<bool>, x: int, z: int) -> Seq<bool> {
    Seq::new(
        grid.len(),
        |q: int|
            if x - 2 <= q / 16 <= x + 2 && z - 2 <= q % 16 <= z + 2 {
                true
            } else {
                grid[q]
            },
    )
}

/// Whether column `c` gets its tree: it asks for one, stands at least three
/// columns from every edge, and no tree stands within two columns of it.
pub open spec fn tree_placed(grid: Seq<bool>, c: int, tree: Option<i32>) -> bool {
    &&& tree is Some
    &&& 2 < c / 16 < 14
    &&& 2 < c % 16 < 14
    &&& no_tree_near(grid, c / 16, c % 16)
}

/// The blocks and the tree grid after columns `0..k` are generated, column
/// `c` standing at `(c / 16, c % 16)` with ground height `heights[c]` and a
/// tree of trunk height `trees[c]` where it asks for one.
pub open spec fn terrain_state(heights: Seq<i32>, trees: Seq<Option<i32>>, k: int) -> (Seq<Block>, Seq<bool>)
    decreases k,
{
    if k <= 0 {
        (Seq::new(65536, |p: int| Block { tp: BlockType::Empty }), Seq::new(256, |q: int| false))
    } else {
        let (b, g) = terrain_state(heights, trees, k - 1);
        let c = k - 1;
        let (x, z, h) = (c / 16, c % 16, heights[c] as int);
        let place = tree_placed(g, c, trees[c]);
        let b1 = if place {
            paint_tree(b, x, z, h, trees[c]->0 as int)
        } else {
            b
        };
        let g1 = if place {
            mark_tree(g, x, z)
        } else {
            g
        };
        (paint_ground(b1, x, z, h), g1)
    }
}

/// Heights and trunk heights that keep every block of the chunk inside it.
pub open spec fn terrain_input_ok(heights: Seq<i32>, trees: Seq<Option<i32>>) -> bool {
    &&& heights.len() == 256
    &&& trees.len() == 256
    &&& forall|c: int| 0 <= c < 256 ==> 0 <= #[trigger] heights[c] <= 256
    &&& forall|c: int|
        0 <= c < 256 && 2 < c / 16 < 14 && 2 < c % 16 < 14 && (#[trigger] trees[c]) is Some ==> {
            &&& 0 <= trees[c]->0
            &&& 2 <= heights[c] + trees[c]->0 <= 255
        }
}

fn layer_has(layer: LeafLayer, i: i32, j: i32) -> (r: bool)
    ensures
        r == layer_covers(layer, i as int, j as int),
{
    match layer {
        LeafLayer::Lower => -2 <= i && i <= 2 && -2 <= j && j <= 2 && !(i == 0 && j == 0),
        LeafLayer::Middle => -2 <= i && i <= 2 && -2 <= j && j <= 2 && !(i == 0 && j == 0) && !((i == 2 || i == -2)
            && (j == 2 || j == -2)),
        LeafLayer::Top => -1 <= i && i <= 1 && -1 <= j && j <= 1 && !((i == 1 || i == -1) && (j == 1 || j == -1)),
    }
}

/// Puts leaves on every column of `layer` around `(x, z)`, at height `y`.
fn place_leaves(blocks: &mut Vec<Block>, x: i32, z: i32, y: i32, layer: LeafLayer)
    requires
        old(blocks).len() == 65536,
        2 <= x < 14,
        2 <= z < 14,
        0 <= y < 256,
    ensures
        final(blocks).len() == 65536,
        forall|p: int|
            0 <= p < 65536 ==> #[trigger] final(blocks)@[p] == if index_y(p) == y && layer_covers(
                layer,
                index_x(p) - x,
                index_z(p) - z,
            ) {
                Block { tp: BlockType::BirchLeaves }
            } else {
                old(blocks)@[p]
            },
{
    let mut i: i32 = -2;
    while i <= 2
        invariant
            -2 <= i <= 3,
            blocks.len() == 65536,
            2 <= x < 14,
            2 <= z < 14,
            0 <= y < 256,
            forall|p: int|
                0 <= p < 65536 ==> #[trigger] blocks@[p] == if index_y(p) == y && layer_covers(
                    layer,
                    index_x(p) - x,
                    index_z(p) - z,
                ) && index_x(p) - x < i {
                    Block { tp: BlockType::BirchLeaves }
                } else {
                    old(blocks)@[p]
                },
        decreases 3 - i,
    {
        let mut j: i32 = -2;
        while j <= 2
            invariant
                -2 <= i <= 2,
                -2 <= j <= 3,
                blocks.len() == 65536,
                2 <= x < 14,
                2 <= z < 14,
                0 <= y < 256,
                forall|p: int|
                    0 <= p < 65536 ==> #[trigger] blocks@[p] == if index_y(p) == y && layer_covers(
                        layer,
                        index_x(p) - x,
                        index_z(p) - z,
                    ) && (index_x(p) - x < i || (index_x(p) - x == i && index_z(p) - z < j)) {
                        Block { tp: BlockType::BirchLeaves }
                    } else {
                        old(blocks)@[p]
                    },
            decreases 3 - j,
        {
            if layer_has(layer, i, j) {
                let q = ((x + i) * 4096 + y * 16 + (z + j)) as usize;
                proof {
                    lemma_index_encode((x + i) as int, y as int, (z + j) as int);
                }
                let ghost before = blocks@;
                blocks.set(q, Block::new(BlockType::BirchLeaves));
                proof {
                    assert forall|p: int| 0 <= p < 65536 implies #[trigger] blocks@[p] == if index_y(p) == y
                        && layer_covers(layer, index_x(p) - x, index_z(p) - z) && (index_x(p) - x < i || (index_x(p)
                        - x == i && index_z(p) - z < j + 1)) {
                        Block { tp: BlockType::BirchLeaves }
                    } else {
                        old(blocks)@[p]
                    } by {
                        if p != q {
                            assert(blocks@[p] == before[p]);
                            lemma_index_decode(p);
                            if index_y(p) == y && index_x(p) - x == i && index_z(p) - z == j {
                                assert(p == q);
                            }
                        }
                    }
                }
            }
            j = j + 1;
        }
        i = i + 1;
    }
}

/// Puts the trunk, `th` logs from height `h`, at `(x, z)`.
fn place_logs(blocks: &mut Vec<Block>, x: i32, z: i32, h: i32, th: i32)
    requires
        old(blocks).len() == 65536,
        0 <= x < 16,
        0 <= z < 16,
        0 <= h,
        0 <= th,
        h + th <= 256,
    ensures
        final(blocks).len() == 65536,
        forall|p: int|
            0 <= p < 65536 ==> #[trigger] final(blocks)@[p] == if index_x(p) == x && index_z(p) == z && h
                <= index_y(p) < h + th {
                Block { tp: BlockType::BirchLog }
            } else {
                old(blocks)@[p]
            },
{
    let mut y: i32 = 0;
    while y < th
        invariant
            0 <= y <= th,
            blocks.len() == 65536,
            0 <= x < 16,
            0 <= z < 16,
            0 <= h,
            h + th <= 256,
            forall|p: int|
                0 <= p < 65536 ==> #[trigger] blocks@[p] == if index_x(p) == x && index_z(p) == z && h <= index_y(p)
                    < h + y {
                    Block { tp: BlockType::BirchLog }
                } else {
                    old(blocks)@[p]
                },
        decreases th - y,
    {
        let q = (x * 4096 + (h + y) * 16 + z) as usize;
        proof {
            lemma_index_encode(x as int, (h + y) as int, z as int);
        }
        let ghost before = blocks@;
        blocks.set(q, Block::new(BlockType::BirchLog));
        proof {
            assert forall|p: int| 0 <= p < 65536 implies #[trigger] blocks@[p] == if index_x(p) == x && index_z(p) == z
                && h <= index_y(p) < h + y + 1 {
                Block { tp: BlockType::BirchLog }
            } else {
                old(blocks)@[p]
            } by {
                if p != q {
                    assert(blocks@[p] == before[p]);
                    lemma_index_decode(p);
                    if index_x(p) == x && index_z(p) == z && index_y(p) == h + y {
                        assert(p == q);
                    }
                }
            }
        }
        y = y + 1;
    }
}

/// Fills column `(x, z)` up to height `h` (stone, four dirt, one grass) and
/// puts bedrock at its bottom.
fn place_ground(blocks: &mut Vec<Block>, x: i32, z: i32, h: i32)
    requires
        old(blocks).len() == 65536,
        0 <= x < 16,
        0 <= z < 16,
        0 <= h <= 256,
    ensures
        final(blocks)@ == paint_ground(old(blocks)@, x as int, z as int, h as int),
{
    let mut y: i32 = 0;
    while y < h
        invariant
            0 <= y <= h,
            blocks.len() == 65536,
            0 <= x < 16,
            0 <= z < 16,
            h <= 256,
            forall|p: int|
                0 <= p < 65536 ==> #[trigger] blocks@[p] == if index_x(p) == x && index_z(p) == z && index_y(p)
                    < y {
                    match ground_block_at(p, x as int, z as int, h as int) {
                        Some(tp) => if index_y(p) == 0 {
                            ground_column_block(0, h as int)
                        } else {
                            Block { tp }
                        },
                        None => old(blocks)@[p],
                    }
                } else {
                    old(blocks)@[p]
                },
        decreases h - y,
    {
        let block = if y == h - 1 {
            Block::new(BlockType::Grass)
        } else if y > h - 5 {
            Block::new(BlockType::Dirt)
        } else {
            Block::new(BlockType::Stone)
        };
        let q = (x * 4096 + y * 16 + z) as usize;
        proof {
            lemma_index_encode(x as int, y as int, z as int);
        }
        let ghost before = blocks@;
        blocks.set(q, block);
        proof {
            assert(block == ground_column_block(y as int, h as int));
            assert forall|p: int| 0 <= p < 65536 implies #[trigger] blocks@[p] == if index_x(p) == x && index_z(p) == z
                && index_y(p) < y + 1 {
                match ground_block_at(p, x as int, z as int, h as int) {
                    Some(tp) => if index_y(p) == 0 {
                        ground_column_block(0, h as int)
                    } else {
                        Block { tp }
                    },
                    None => old(blocks)@[p],
                }
            } else {
                old(blocks)@[p]
            } by {
                lemma_index_decode(p);
                if p != q {
                    assert(blocks@[p] == before[p]);
                    if index_x(p) == x && index_z(p) == z && index_y(p) == y {
                        assert(p == q);
                    }
                }
            }
        }
        y = y + 1;
    }
    let q0 = (x * 4096 + z) as usize;
    proof {
        lemma_index_encode(x as int, 0, z as int);
    }
    let ghost before = blocks@;
    blocks.set(q0, Block::new(BlockType::UnderStone));
    proof {
        assert forall|p: int| 0 <= p < 65536 implies #[trigger] blocks@[p] == paint_ground(
            old(blocks)@,
            x as int,
            z as int,
            h as int,
        )[p] by {
            lemma_index_decode(p);
            if p != q0 {
                assert(blocks@[p] == before[p]);
                if index_x(p) == x && index_z(p) == z && index_y(p) == 0 {
                    assert(p == q0);
                }
            }
        }
        assert(blocks@ =~= paint_ground(old(blocks)@, x as int, z as int, h as int));
    }
}

/// The block that the ground loop writes at height `y` of a column `h` high.
pub open spec fn ground_column_block(y: int, h: int) -> Block {
    if y == h - 1 {
        Block { tp: BlockType::Grass }
    } else if y > h - 5 {
        Block { tp: BlockType::Dirt }
    } else {
        Block { tp: BlockType::Stone }
    }
}

/// Whether no tree stands within two columns of `(x, z)`.
fn no_tree_near_exec(grid: &Vec<bool>, x: i32, z: i32) -> (r: bool)
    requires
        grid.len() == 256,
        2 <= x < 14,
        2 <= z < 14,
    ensures
        r == no_tree_near(grid@, x as int, z as int),
{
    let mut is_place = true;
    let mut i: i32 = -2;
    while i <= 2
        invariant
            -2 <= i <= 3,
            grid.len() == 256,
            2 <= x < 14,
            2 <= z < 14,
            is_place == forall|i2: int, j2: int|
                -2 <= i2 < i && -2 <= j2 <= 2 ==> !#[trigger] grid@[(x + i2) * 16 + (z + j2)],
        decreases 3 - i,
    {
        let mut j: i32 = -2;
        while j <= 2
            invariant
                -2 <= i <= 2,
                -2 <= j <= 3,
                grid.len() == 256,
                2 <= x < 14,
                2 <= z < 14,
                is_place == ((forall|i2: int, j2: int|
                    -2 <= i2 < i && -2 <= j2 <= 2 ==> !#[trigger] grid@[(x + i2) * 16 + (z + j2)]) && (forall|j2: int|
                    -2 <= j2 < j ==> !#[trigger] grid@[(x + i) * 16 + (z + j2)])),
            decreases 3 - j,
        {
            if grid[((x + i) * 16 + (z + j)) as usize] {
                is_place = false;
            }
            j = j + 1;
        }
        proof {
            if is_place {
                assert forall|i2: int, j2: int| -2 <= i2 < i + 1 && -2 <= j2 <= 2 implies !#[trigger] grid@[(x + i2)
                    * 16 + (z + j2)] by {
                    if i2 == i {
                    }
                }
            }
        }
        i = i + 1;
    }
    is_place
}

/// Marks the columns within two of `(x, z)` as holding a tree.
fn mark_tree_exec(grid: &mut Vec<bool>, x: i32, z: i32)
    requires
        old(grid).len() == 256,
        2 <= x < 14,
        2 <= z < 14,
    ensures
        final(grid)@ == mark_tree(old(grid)@, x as int, z as int),
{
    let mut i: i32 = -2;
    while i <= 2
        invariant
            -2 <= i <= 3,
            grid.len() == 256,
            2 <= x < 14,
            2 <= z < 14,
            forall|q: int|
                0 <= q < 256 ==> #[trigger] grid@[q] == if x - 2 <= q / 16 < x + i && z - 2 <= q % 16 <= z + 2 {
                    true
                } else {
                    old(grid)@[q]
                },
        decreases 3 - i,
    {
        let mut j: i32 = -2;
        while j <= 2
            invariant
                -2 <= i <= 2,
                -2 <= j <= 3,
                grid.len() == 256,
                2 <= x < 14,
                2 <= z < 14,
                forall|q: int|
                    0 <= q < 256 ==> #[trigger] grid@[q] == if (x - 2 <= q / 16 < x + i && z - 2 <= q % 16 <= z + 2)
                        || (q / 16 == x + i && z - 2 <= q % 16 < z + j) {
                        true
                    } else {
                        old(grid)@[q]
                    },
            decreases 3 - j,
        {
            let q = ((x + i) * 16 + (z + j)) as usize;
            let ghost before = grid@;
            grid.set(q, true);
            proof {
                vstd::arithmetic::div_mod::lemma_fundamental_div_mod_converse(q as int, 16, (x + i) as int, (z + j) as int);
                assert forall|q2: int| 0 <= q2 < 256 implies #[trigger] grid@[q2] == if (x - 2 <= q2 / 16 < x + i && z - 2
                    <= q2 % 16 <= z + 2) || (q2 / 16 == x + i && z - 2 <= q2 % 16 < z + j + 1) {
                    true
                } else {
                    old(grid)@[q2]
                } by {
                    if q2 != q {
                        assert(grid@[q2] == before[q2]);
                        vstd::arithmetic::div_mod::lemma_fundamental_div_mod(q2, 16);
                        if q2 / 16 == x + i && q2 % 16 == z + j {
                            assert(q2 == q);
                        }
                    }
                }
            }
            j = j + 1;
        }
        i = i + 1;
    }
    assert(grid@ =~= mark_tree(old(grid)@, x as int, z as int));
}

/// Adds the birch with trunk `th` high standing at `(x, z)` on ground `h` high.
fn place_tree(blocks: &mut Vec<Block>, x: i32, z: i32, h: i32, th: i32)
    requires
        old(blocks).len() == 65536,
        2 < x < 14,
        2 < z < 14,
        0 <= h,
        0 <= th,
        2 <= h + th <= 255,
    ensures
        final(blocks)@ == paint_tree(old(blocks)@, x as int, z as int, h as int, th as int),
{
    place_logs(blocks, x, z, h, th);
    let ghost logs = blocks@;
    place_leaves(blocks, x, z, h + th - 2, LeafLayer::Lower);
    let ghost lower = blocks@;
    place_leaves(blocks, x, z, h + th - 1, LeafLayer::Middle);
    let ghost middle = blocks@;
    place_leaves(blocks, x, z, h + th, LeafLayer::Top);
    proof {
        assert forall|p: int| 0 <= p < 65536 implies #[trigger] blocks@[p] == paint_tree(
            old(blocks)@,
            x as int,
            z as int,
            h as int,
            th as int,
        )[p] by {
            assert(blocks@[p] == if index_y(p) == h + th && layer_covers(LeafLayer::Top, index_x(p) - x, index_z(p) - z) {
                Block { tp: BlockType::BirchLeaves }
            } else {
                middle[p]
            });
            assert(middle[p] == if index_y(p) == h + th - 1 && layer_covers(LeafLayer::Middle, index_x(p) - x, index_z(p) - z) {
                Block { tp: BlockType::BirchLeaves }
            } else {
                lower[p]
            });
            assert(lower[p] == if index_y(p) == h + th - 2 && layer_covers(LeafLayer::Lower, index_x(p) - x, index_z(p) - z) {
                Block { tp: BlockType::BirchLeaves }
            } else {
                logs[p]
            });
        }
        assert(blocks@ =~= paint_tree(old(blocks)@, x as int, z as int, h as int, th as int));
    }
}

/// The blocks of a chunk whose column `c` (at `(c / 16, c % 16)`) has ground
/// `heights[c]` high and, where `trees[c]` holds a trunk height, asks for a
/// birch: columns are filled in order, each planting its tree first when it
/// gets one (see `tree_placed`), then its ground, so later columns win where
/// they overlap.
pub fn generate_terrain_blocks(heights: &Vec<i32>, trees: &Vec<Option<i32>>) -> (data: ChunkData)
    requires
        terrain_input_ok(heights@, trees@),
    ensures
        data.blocks@ == terrain_state(heights@, trees@, 256).0,
{
    let mut blocks = vec![Block::empty(); BLOCK_NUM_PER_CHUNK];
    let mut tree_placed: Vec<bool> = vec![false; 256];
    proof {
        assert(blocks@ =~= terrain_state(heights@, trees@, 0).0);
        assert(tree_placed@ =~= terrain_state(heights@, trees@, 0).1);
    }
    let mut c: usize = 0;
    while c < 256
        invariant
            c <= 256,
            terrain_input_ok(heights@, trees@),
            blocks.len() == 65536,
            tree_placed.len() == 256,
            blocks@ == terrain_state(heights@, trees@, c as int).0,
            tree_placed@ == terrain_state(heights@, trees@, c as int).1,
        decreases 256 - c,
    {
        let x = (c / 16) as i32;
        let z = (c % 16) as i32;
        let height = heights[c];
        let ghost g = tree_placed@;
        let ghost b = blocks@;
        let place = match trees[c] {
            Some(_) => x > 2 && z > 2 && x < 14 && z < 14 && no_tree_near_exec(&tree_placed, x, z),
            None => false,
        };
        assert(place == self::tree_placed(g, c as int, trees@[c as int]));
        if place {
            let tree_height = match trees[c] {
                Some(th) => th,
                None => 0,
            };
            place_tree(&mut blocks, x, z, height, tree_height);
            mark_tree_exec(&mut tree_placed, x, z);
        }
        place_ground(&mut blocks, x, z, height);
        c = c + 1;
    }
    ChunkData { blocks }
}

/// The block of the flat test world at index `p`: bedrock, stone, dirt and
/// grass in the four lowest layers, nothing above.
pub open spec fn flat_block(p: int) -> Block {
    let y = index_y(p);
    Block {
        tp: if y == 0 {
            BlockType::UnderStone
        } else if y == 1 {
            BlockType::Stone
        } else if y == 2 {
            BlockType::Dirt
        } else if y == 3 {
            BlockType::Grass
        } else {
            BlockType::Empty
        },
    }
}

/// The blocks of the flat test world.
pub fn generate_flat_blocks() -> (data: ChunkData)
    ensures
        data.blocks.len() == 65536,
        forall|p: int| 0 <= p < 65536 ==> #[trigger] data.blocks@[p] == flat_block(p),
{
    let mut blocks = vec![Block::empty(); BLOCK_NUM_PER_CHUNK];
    let mut p: usize = 0;
    while p < BLOCK_NUM_PER_CHUNK
        invariant
            p <= 65536,
            blocks.len() == 65536,
            forall|q: int|
                0 <= q < 65536 ==> #[trigger] blocks@[q] == if q < p {
                    flat_block(q)
                } else {
                    Block::empty_spec()
                },
        decreases 65536 - p,
    {
        let y = (p % 4096) / 16;
        if y == 0 {
            blocks.set(p, Block::new(BlockType::UnderStone));
        } else if y == 1 {
            blocks.set(p, Block::new(BlockType::Stone));
        } else if y == 2 {
            blocks.set(p, Block::new(BlockType::Dirt));
        } else if y == 3 {
            blocks.set(p, Block::new(BlockType::Grass));
        }
        p = p + 1;
    }
    ChunkData { blocks }
}

/// Every column of a generated chunk has bedrock at height 0, as long as no
/// crown that could be planted reaches down to height 0.
pub proof fn lemma_bedrock_floor(heights: Seq<i32>, trees: Seq<Option<i32>>)
    requires
        terrain_input_ok(heights, trees),
        forall|c: int|
            0 <= c < 256 && 2 < c / 16 < 14 && 2 < c % 16 < 14 && (#[trigger] trees[c]) is Some ==> 3
                <= heights[c] + trees[c]->0,
    ensures
        forall|x: int, z: int|
            0 <= x < 16 && 0 <= z < 16 ==> (#[trigger] terrain_state(heights, trees, 256).0[block_index(x, 0, z)]).tp
                == BlockType::UnderStone,
{
    lemma_bedrock_prefix(heights, trees, 256);
    assert forall|x: int, z: int| 0 <= x < 16 && 0 <= z < 16 implies (#[trigger] terrain_state(
        heights,
        trees,
        256,
    ).0[block_index(x, 0, z)]).tp == BlockType::UnderStone by {
        let c = x * 16 + z;
        vstd::arithmetic::div_mod::lemma_fundamental_div_mod_converse(c, 16, x, z);
    }
}

proof fn lemma_bedrock_prefix(heights: Seq<i32>, trees: Seq<Option<i32>>, k: int)
    requires
        terrain_input_ok(heights, trees),
        forall|c: int|
            0 <= c < 256 && 2 < c / 16 < 14 && 2 < c % 16 < 14 && (#[trigger] trees[c]) is Some ==> 3
                <= heights[c] + trees[c]->0,
        0 <= k <= 256,
    ensures
        terrain_state(heights, trees, k).0.len() == 65536,
        terrain_state(heights, trees, k).1.len() == 256,
        forall|c: int|
            0 <= c < k ==> (#[trigger] terrain_state(heights, trees, k).0[block_index(c / 16, 0, c % 16)]).tp
                == BlockType::UnderStone,
    decreases k,
{
    if k > 0 {
        lemma_bedrock_prefix(heights, trees, k - 1);
        let (b, g) = terrain_state(heights, trees, k - 1);
        let c0 = k - 1;
        let (x, z, h) = (c0 / 16, c0 % 16, heights[c0] as int);
        let place = tree_placed(g, c0, trees[c0]);
        let b1 = if place {
            paint_tree(b, x, z, h, trees[c0]->0 as int)
        } else {
            b
        };
        let after = terrain_state(heights, trees, k).0;
        assert forall|c: int| 0 <= c < k implies (#[trigger] after[block_index(c / 16, 0, c % 16)]).tp
            == BlockType::UnderStone by {
            let p = block_index(c / 16, 0, c % 16);
            vstd::arithmetic::div_mod::lemma_fundamental_div_mod(c, 16);
            lemma_index_encode(c / 16, 0, c % 16);
            if c < k - 1 {
                assert(b[p].tp == BlockType::UnderStone);
                if place {
                    assert(tree_block_at(p, x, z, h, trees[c0]->0 as int) is None || c / 16 == x && c % 16 == z);
                }
                if c / 16 == x && c % 16 == z {
                    vstd::arithmetic::div_mod::lemma_fundamental_div_mod(c0, 16);
                }
            }
        }
    }
}

/// Every column is solid from the bottom up to its ground height: a tree
/// only ever puts logs or leaves in place of a block, never air.
pub proof fn lemma_ground_solid(heights: Seq<i32>, trees: Seq<Option<i32>>)
    requires
        terrain_input_ok(heights, trees),
    ensures
        forall|x: int, y: int, z: int|
            0 <= x < 16 && 0 <= z < 16 && 0 <= y < heights[x * 16 + z] ==> (#[trigger] terrain_state(
                heights,
                trees,
                256,
            ).0[block_index(x, y, z)]).tp != BlockType::Empty,
{
    lemma_ground_prefix(heights, trees, 256);
    assert forall|x: int, y: int, z: int|
        0 <= x < 16 && 0 <= z < 16 && 0 <= y < heights[x * 16 + z] implies (#[trigger] terrain_state(
        heights,
        trees,
        256,
    ).0[block_index(x, y, z)]).tp != BlockType::Empty by {
        let c = x * 16 + z;
        vstd::arithmetic::div_mod::lemma_fundamental_div_mod_converse(c, 16, x, z);
        assert(terrain_state(heights, trees, 256).0[block_index(c / 16, y, c % 16)].tp != BlockType::Empty);
    }
}

proof fn lemma_ground_prefix(heights: Seq<i32>, trees: Seq<Option<i32>>, k: int)
    requires
        terrain_input_ok(heights, trees),
        0 <= k <= 256,
    ensures
        terrain_state(heights, trees, k).0.len() == 65536,
        forall|c: int, y: int|
            0 <= c < k && 0 <= y < heights[c] ==> (#[trigger] terrain_state(heights, trees, k).0[block_index(
                c / 16,
                y,
                c % 16,
            )]).tp != BlockType::Empty,
    decreases k,
{
    if k > 0 {
        lemma_ground_prefix(heights, trees, k - 1);
        let (b, g) = terrain_state(heights, trees, k - 1);
        let c0 = k - 1;
        let (x, z, h) = (c0 / 16, c0 % 16, heights[c0] as int);
        let place = tree_placed(g, c0, trees[c0]);
        let b1 = if place {
            paint_tree(b, x, z, h, trees[c0]->0 as int)
        } else {
            b
        };
        let after = terrain_state(heights, trees, k).0;
        assert forall|c: int, y: int| 0 <= c < k && 0 <= y < heights[c] implies (#[trigger] after[block_index(
            c / 16,
            y,
            c % 16,
        )]).tp != BlockType::Empty by {
            let p = block_index(c / 16, y, c % 16);
            vstd::arithmetic::div_mod::lemma_fundamental_div_mod(c, 16);
            vstd::arithmetic::div_mod::lemma_fundamental_div_mod(c0, 16);
            lemma_index_encode(c / 16, y, c % 16);
            if c < k - 1 {
                assert(b[p].tp != BlockType::Empty);
                assert(b1[p].tp != BlockType::Empty);
            } else {
                assert(ground_block_at(p, x, z, h) is Some);
            }
        }
    }
}

/// Above every ground height, and above the top of every tree asked for,
/// the chunk holds only air.
pub proof fn lemma_air_above(heights: Seq<i32>, trees: Seq<Option<i32>>, top: int)
    requires
        terrain_input_ok(heights, trees),
        0 < top,
        forall|c: int|
            0 <= c < 256 ==> {
                &&& #[trigger] heights[c] <= top
                &&& trees[c] is Some ==> heights[c] + trees[c]->0 < top
            },
    ensures
        forall|p: int|
            0 <= p < 65536 && index_y(p) >= top ==> (#[trigger] terrain_state(heights, trees, 256).0[p]).tp
                == BlockType::Empty,
{
    lemma_air_prefix(heights, trees, top, 256);
}

proof fn lemma_air_prefix(heights: Seq<i32>, trees: Seq<Option<i32>>, top: int, k: int)
    requires
        terrain_input_ok(heights, trees),
        0 < top,
        forall|c: int|
            0 <= c < 256 ==> {
                &&& #[trigger] heights[c] <= top
                &&& trees[c] is Some ==> heights[c] + trees[c]->0 < top
            },
        0 <= k <= 256,
    ensures
        terrain_state(heights, trees, k).0.len() == 65536,
        forall|p: int|
            0 <= p < 65536 && index_y(p) >= top ==> (#[trigger] terrain_state(heights, trees, k).0[p]).tp
                == BlockType::Empty,
    decreases k,
{
    if k > 0 {
        lemma_air_prefix(heights, trees, top, k - 1);
        let (b, g) = terrain_state(heights, trees, k - 1);
        let c0 = k - 1;
        let (x, z, h) = (c0 / 16, c0 % 16, heights[c0] as int);
        let place = tree_placed(g, c0, trees[c0]);
        let b1 = if place {
            paint_tree(b, x, z, h, trees[c0]->0 as int)
        } else {
            b
        };
        let after = terrain_state(heights, trees, k).0;
        assert forall|p: int| 0 <= p < 65536 && index_y(p) >= top implies (#[trigger] after[p]).tp
            == BlockType::Empty by {
            assert(b[p].tp == BlockType::Empty);
            assert(heights[c0] <= top);
            if place {
                assert(tree_block_at(p, x, z, h, trees[c0]->0 as int) is None);
            }
            assert(b1[p].tp == BlockType::Empty);
            assert(ground_block_at(p, x, z, h) is None);
        }
    }
}

/// Whether columns `a` and `b` (column `c` standing at `(c / 16, c % 16)`)
/// lie within `d` of each other along both `x` and `z`.
pub open spec fn columns_within(a: int, b: int, d: int) -> bool {
    &&& -d <= a / 16 - b / 16 <= d
    &&& -d <= a % 16 - b % 16 <= d
}

/// Whether column `c` got its birch when the chunk was generated.
spec fn planted(heights: Seq<i32>, trees: Seq<Option<i32>>, c: int) -> bool {
    tree_placed(terrain_state(heights, trees, c).1, c, trees[c])
}

proof fn lemma_state_lens(heights: Seq<i32>, trees: Seq<Option<i32>>, k: int)
    ensures
        terrain_state(heights, trees, k).0.len() == 65536,
        terrain_state(heights, trees, k).1.len() == 256,
    decreases k,
{
    if k > 0 {
        lemma_state_lens(heights, trees, k - 1);
    }
}

/// Once a birch is planted at `c`, every column within two of it stays marked.
proof fn lemma_marked(heights: Seq<i32>, trees: Seq<Option<i32>>, c: int, q: int, k: int)
    requires
        0 <= c < k <= 256,
        planted(heights, trees, c),
        0 <= q < 256,
        columns_within(c, q, 2),
    ensures
        terrain_state(heights, trees, k).1[q],
    decreases k,
{
    lemma_state_lens(heights, trees, k - 1);
    if k > c + 1 {
        lemma_marked(heights, trees, c, q, k - 1);
    }
}

/// Two planted birches stand more than four columns apart along `x` or `z`.
proof fn lemma_planted_apart(heights: Seq<i32>, trees: Seq<Option<i32>>, c1: int, c2: int)
    requires
        0 <= c1 < c2 < 256,
        planted(heights, trees, c1),
        planted(heights, trees, c2),
    ensures
        !columns_within(c1, c2, 4),
{
    if columns_within(c1, c2, 4) {
        let (x1, z1, x2, z2) = (c1 / 16, c1 % 16, c2 / 16, c2 % 16);
        let qx = x1 + (x2 - x1) / 2;
        let qz = z1 + (z2 - z1) / 2;
        assert(-2 <= qx - x1 <= 2 && -2 <= qx - x2 <= 2);
        assert(-2 <= qz - z1 <= 2 && -2 <= qz - z2 <= 2);
        let q = qx * 16 + qz;
        vstd::arithmetic::div_mod::lemma_fundamental_div_mod_converse(q, 16, qx, qz);
        lemma_marked(heights, trees, c1, q, c2);
        let g = terrain_state(heights, trees, c2).1;
        let (i, j) = (qx - x2, qz - z2);
        assert(!g[(x2 + i) * 16 + (z2 + j)]);
        assert((x2 + i) * 16 + (z2 + j) == q);
    }
}

/// The column of the block with index `p`.
pub open spec fn column_of(p: int) -> int {
    index_x(p) * 16 + index_z(p)
}

/// A birch log stands only in the trunk of a birch planted at its own column.
proof fn lemma_log_columns(heights: Seq<i32>, trees: Seq<Option<i32>>, k: int)
    requires
        terrain_input_ok(heights, trees),
        0 <= k <= 256,
    ensures
        forall|p: int|
            0 <= p < 65536 && (#[trigger] terrain_state(heights, trees, k).0[p]).tp == BlockType::BirchLog ==> {
                &&& column_of(p) < k
                &&& planted(heights, trees, column_of(p))
                &&& trees[column_of(p)] is Some
                &&& heights[column_of(p)] <= index_y(p) < heights[column_of(p)] + trees[column_of(p)]->0
            },
    decreases k,
{
    lemma_state_lens(heights, trees, k);
    if k > 0 {
        lemma_log_columns(heights, trees, k - 1);
        lemma_state_lens(heights, trees, k - 1);
        let (b, g) = terrain_state(heights, trees, k - 1);
        let c = k - 1;
        let (x, z, h) = (c / 16, c % 16, heights[c] as int);
        let place = tree_placed(g, c, trees[c]);
        let b1 = if place {
            paint_tree(b, x, z, h, trees[c]->0 as int)
        } else {
            b
        };
        let after = terrain_state(heights, trees, k).0;
        assert forall|p: int|
            0 <= p < 65536 && (#[trigger] after[p]).tp == BlockType::BirchLog implies {
                &&& column_of(p) < k
                &&& planted(heights, trees, column_of(p))
                &&& trees[column_of(p)] is Some
                &&& heights[column_of(p)] <= index_y(p) < heights[column_of(p)] + trees[column_of(p)]->0
            } by {
            lemma_index_decode(p);
            vstd::arithmetic::div_mod::lemma_fundamental_div_mod(c, 16);
            assert(ground_block_at(p, x, z, h) is None);
            assert(b1[p].tp == BlockType::BirchLog);
            if place && tree_block_at(p, x, z, h, trees[c]->0 as int) is Some {
                assert(index_x(p) == x && index_z(p) == z);
                assert(column_of(p) == c);
            } else {
                assert(b[p].tp == BlockType::BirchLog);
            }
        }
    } else {
        assert forall|p: int| 0 <= p < 65536 implies (#[trigger] terrain_state(heights, trees, k).0[p]).tp
            == BlockType::Empty by {}
    }
}

/// A leaf of the crown of the birch planted at `c` stays a leaf, as long as
/// the ground of its own column does not reach it.
proof fn lemma_leaf_stays(heights: Seq<i32>, trees: Seq<Option<i32>>, c: int, p: int, k: int)
    requires
        terrain_input_ok(heights, trees),
        0 <= c < k <= 256,
        planted(heights, trees, c),
        0 <= p < 65536,
        tree_block_at(p, c / 16, c % 16, heights[c] as int, trees[c]->0 as int) == Some(BlockType::BirchLeaves),
        columns_within(column_of(p), c, 2),
        0 < index_y(p),
        heights[column_of(p)] <= index_y(p),
    ensures
        terrain_state(heights, trees, k).0[p].tp == BlockType::BirchLeaves,
    decreases k,
{
    lemma_state_lens(heights, trees, k - 1);
    lemma_index_decode(p);
    vstd::arithmetic::div_mod::lemma_fundamental_div_mod_converse(column_of(p), 16, index_x(p), index_z(p));
    let c2 = k - 1;
    vstd::arithmetic::div_mod::lemma_fundamental_div_mod(c2, 16);
    let (b, g) = terrain_state(heights, trees, c2);
    let (x, z, h) = (c2 / 16, c2 % 16, heights[c2] as int);
    let place = tree_placed(g, c2, trees[c2]);
    let b1 = if place {
        paint_tree(b, x, z, h, trees[c2]->0 as int)
    } else {
        b
    };
    if k > c + 1 {
        lemma_leaf_stays(heights, trees, c, p, k - 1);
        if place && index_x(p) == x && index_z(p) == z {
            assert(column_of(p) == c2);
            lemma_planted_apart(heights, trees, c, c2);
        }
        assert(b1[p].tp == BlockType::BirchLeaves);
    } else {
        assert(b1[p].tp == BlockType::BirchLeaves);
    }
    if index_x(p) == x && index_z(p) == z {
        assert(column_of(p) == c2);
    }
    assert(ground_block_at(p, x, z, h) is None);
}

/// Birches stand apart: two birch logs of a generated chunk in different
/// columns are more than four columns apart along `x` or along `z`.
pub proof fn lemma_birches_apart(heights: Seq<i32>, trees: Seq<Option<i32>>)
    requires
        terrain_input_ok(heights, trees),
    ensures
        forall|x1: int, y1: int, z1: int, x2: int, y2: int, z2: int|
            in_chunk(x1, y1, z1) && in_chunk(x2, y2, z2) && (x1 != x2 || z1 != z2) && (#[trigger] terrain_state(
                heights,
                trees,
                256,
            ).0[block_index(x1, y1, z1)]).tp == BlockType::BirchLog && (#[trigger] terrain_state(
                heights,
                trees,
                256,
            ).0[block_index(x2, y2, z2)]).tp == BlockType::BirchLog ==> x1 - x2 > 4 || x2 - x1 > 4 || z1 - z2
                > 4 || z2 - z1 > 4,
{
    lemma_log_columns(heights, trees, 256);
    assert forall|x1: int, y1: int, z1: int, x2: int, y2: int, z2: int|
        in_chunk(x1, y1, z1) && in_chunk(x2, y2, z2) && (x1 != x2 || z1 != z2) && (#[trigger] terrain_state(
            heights,
            trees,
            256,
        ).0[block_index(x1, y1, z1)]).tp == BlockType::BirchLog && (#[trigger] terrain_state(
            heights,
            trees,
            256,
        ).0[block_index(x2, y2, z2)]).tp == BlockType::BirchLog implies x1 - x2 > 4 || x2 - x1 > 4 || z1 - z2
        > 4 || z2 - z1 > 4 by {
        let (p1, p2) = (block_index(x1, y1, z1), block_index(x2, y2, z2));
        lemma_index_encode(x1, y1, z1);
        lemma_index_encode(x2, y2, z2);
        let (c1, c2) = (x1 * 16 + z1, x2 * 16 + z2);
        assert(column_of(p1) == c1 && column_of(p2) == c2);
        vstd::arithmetic::div_mod::lemma_fundamental_div_mod_converse(c1, 16, x1, z1);
        vstd::arithmetic::div_mod::lemma_fundamental_div_mod_converse(c2, 16, x2, z2);
        if c1 < c2 {
            lemma_planted_apart(heights, trees, c1, c2);
        } else {
            lemma_planted_apart(heights, trees, c2, c1);
        }
    }
}

/// The crown of a birch whose trunk stands on the ground of column `(x, z)`:
/// with `t` the top of the trunk plus one, leaves at height `t` on the trunk's
/// column and the four columns next to it along `x` and `z`; at `t - 1` on the
/// 5 by 5 square around the trunk without the trunk and the square's corners;
/// at `t - 2` on that square without the trunk. A leaf stays only where the
/// ground of its own column does not reach it, and never at height 0.
pub proof fn lemma_birch_crown(heights: Seq<i32>, trees: Seq<Option<i32>>, x: int, z: int)
    requires
        terrain_input_ok(heights, trees),
        0 <= x < 16,
        0 <= z < 16,
        heights[x * 16 + z] < 256,
        terrain_state(heights, trees, 256).0[block_index(x, heights[x * 16 + z] as int, z)].tp
            == BlockType::BirchLog,
    ensures
        trees[x * 16 + z] is Some,
        forall|i: int, j: int|
            -1 <= i <= 1 && -1 <= j <= 1 && (i == 0 || j == 0) && heights[(x + i) * 16 + (z + j)]
                <= heights[x * 16 + z] + trees[x * 16 + z]->0 ==> (#[trigger] terrain_state(heights, trees, 256).0[block_index(
                x + i,
                heights[x * 16 + z] + trees[x * 16 + z]->0,
                z + j,
            )]).tp == BlockType::BirchLeaves,
        forall|i: int, j: int|
            -2 <= i <= 2 && -2 <= j <= 2 && !(i == 0 && j == 0) && !((i == 2 || i == -2) && (j == 2 || j == -2))
                && 0 < heights[x * 16 + z] + trees[x * 16 + z]->0 - 1 && heights[(x + i) * 16 + (z + j)]
                <= heights[x * 16 + z] + trees[x * 16 + z]->0 - 1 ==> (#[trigger] terrain_state(heights, trees, 256).0[block_index(
                x + i,
                heights[x * 16 + z] + trees[x * 16 + z]->0 - 1,
                z + j,
            )]).tp == BlockType::BirchLeaves,
        forall|i: int, j: int|
            -2 <= i <= 2 && -2 <= j <= 2 && !(i == 0 && j == 0) && 0 < heights[x * 16 + z] + trees[x * 16 + z]->0
                - 2 && heights[(x + i) * 16 + (z + j)] <= heights[x * 16 + z] + trees[x * 16 + z]->0 - 2
                ==> (#[trigger] terrain_state(heights, trees, 256).0[block_index(
                x + i,
                heights[x * 16 + z] + trees[x * 16 + z]->0 - 2,
                z + j,
            )]).tp == BlockType::BirchLeaves,
{
    let c = x * 16 + z;
    let h = heights[c] as int;
    lemma_log_columns(heights, trees, 256);
    lemma_index_encode(x, h, z);
    let p0 = block_index(x, h, z);
    assert(column_of(p0) == c);
    vstd::arithmetic::div_mod::lemma_fundamental_div_mod_converse(c, 16, x, z);
    assert(planted(heights, trees, c));
    let th = trees[c]->0 as int;
    let t = h + th;
    assert(t <= 255);
    assert forall|i: int, j: int|
        -1 <= i <= 1 && -1 <= j <= 1 && (i == 0 || j == 0) && heights[(x + i) * 16 + (z + j)] <= t implies (#[trigger] terrain_state(
        heights,
        trees,
        256,
    ).0[block_index(x + i, heights[x * 16 + z] + trees[x * 16 + z]->0, z + j)]).tp == BlockType::BirchLeaves by {
        let p = block_index(x + i, t, z + j);
        lemma_index_encode(x + i, t, z + j);
        vstd::arithmetic::div_mod::lemma_fundamental_div_mod_converse(column_of(p), 16, x + i, z + j);
        assert(tree_block_at(p, x, z, h, th) == Some(BlockType::BirchLeaves));
        lemma_leaf_stays(heights, trees, c, p, 256);
    }
    assert forall|i: int, j: int|
        -2 <= i <= 2 && -2 <= j <= 2 && !(i == 0 && j == 0) && !((i == 2 || i == -2) && (j == 2 || j == -2)) && 0
            < t - 1 && heights[(x + i) * 16 + (z + j)] <= t - 1 implies (#[trigger] terrain_state(
        heights,
        trees,
        256,
    ).0[block_index(x + i, heights[x * 16 + z] + trees[x * 16 + z]->0 - 1, z + j)]).tp
        == BlockType::BirchLeaves by {
        let p = block_index(x + i, t - 1, z + j);
        lemma_index_encode(x + i, t - 1, z + j);
        vstd::arithmetic::div_mod::lemma_fundamental_div_mod_converse(column_of(p), 16, x + i, z + j);
        assert(tree_block_at(p, x, z, h, th) == Some(BlockType::BirchLeaves));
        lemma_leaf_stays(heights, trees, c, p, 256);
    }
    assert forall|i: int, j: int|
        -2 <= i <= 2 && -2 <= j <= 2 && !(i == 0 && j == 0) && 0 < t - 2 && heights[(x + i) * 16 + (z + j)] <= t
            - 2 implies (#[trigger] terrain_state(heights, trees, 256).0[block_index(
        x + i,
        heights[x * 16 + z] + trees[x * 16 + z]->0 - 2,
        z + j,
    )]).tp == BlockType::BirchLeaves by {
        let p = block_index(x + i, t - 2, z + j);
        lemma_index_encode(x + i, t - 2, z + j);
        vstd::arithmetic::div_mod::lemma_fundamental_div_mod_converse(column_of(p), 16, x + i, z + j);
        assert(tree_block_at(p, x, z, h, th) == Some(BlockType::BirchLeaves));
        lemma_leaf_stays(heights, trees, c, p, 256);
    }
}

} // verus!
