use vstd::prelude::*;

use crate::block::{type_of_id, BlockInfo, BlockType};
use crate::item::{item_type_id, Item, ItemType};

verus! {

/// Slots in a row of the inventory, and in the hotbar.
pub const SLOTS_PER_ROW: u32 = 10;

/// Rows of the inventory.
pub const SLOTS_PER_COLUMN: u32 = 4;

/// The remainder of `a` divided by 10 as Rust's `%` computes it: it has the
/// sign of `a`.
pub open spec fn rem_slots(a: int) -> int {
    if a >= 0 {
        a % 10
    } else {
        -((-a) % 10)
    }
}

/// The selected hotbar slot after moving it by `offset` from `selected`.
pub open spec fn moved_slot(selected: int, offset: int) -> int {
    rem_slots(selected + offset + 10)
}

/// `selected + offset + 10` taken modulo 10 the way Rust's `%` does.
pub fn move_slot(selected: i32, offset: i32) -> (r: i32)
    requires
        i32::MIN <= selected + offset <= i32::MAX,
        i32::MIN <= selected + offset + 10 <= i32::MAX,
    ensures
        r == moved_slot(selected as int, offset as int),
        -10 < r < 10,
        0 <= selected + offset + 10 ==> 0 <= r < 10,
{
    let x = (selected + offset + 10) as i64;
    if x >= 0 {
        (x % 10) as i32
    } else {
        (-((-x) % 10)) as i32
    }
}

/// Moving the hotbar selection from a slot one step back and then one step
/// forward, or forward and then back, returns to that slot; and a move by
/// `offset` with `-10 <= offset` from a slot of the hotbar lands on a slot of
/// the hotbar.
pub proof fn lemma_hotbar_scroll(s: int, offset: int)
    requires
        0 <= s < 10,
    ensures
        moved_slot(moved_slot(s, -1), 1) == s,
        moved_slot(moved_slot(s, 1), -1) == s,
        -10 <= offset ==> 0 <= moved_slot(s, offset) < 10,
{
}

/// What the player carries: the hotbar, the selected hotbar slot, and the
/// inventory of every block kind.
#[derive(Clone, Debug)]
pub struct Player {
    pub slected_hotbar: i32,
    pub hotbar: Vec<Item>,
    pub all_item_inventory: Vec<Vec<Item>>,
}

/// The hotbar a new player starts with: grass, dirt, bedrock and birch log in
/// its first slots, the rest empty.
pub open spec fn starting_hotbar_kind(i: int) -> BlockType {
    if i == 0 {
        BlockType::Grass
    } else if i == 1 {
        BlockType::Dirt
    } else if i == 2 {
        BlockType::UnderStone
    } else if i == 3 {
        BlockType::BirchLog
    } else {
        BlockType::Empty
    }
}

/// The first inventory row of a new player: bedrock, birch log, birch leaves,
/// grass, dirt and stone, the rest empty.
pub open spec fn starting_inventory_kind(i: int) -> BlockType {
    if i == 0 {
        BlockType::UnderStone
    } else if i == 1 {
        BlockType::BirchLog
    } else if i == 2 {
        BlockType::BirchLeaves
    } else if i == 3 {
        BlockType::Grass
    } else if i == 4 {
        BlockType::Dirt
    } else if i == 5 {
        BlockType::Stone
    } else {
        BlockType::Empty
    }
}

/// The item of kind `tp` taken from the block table.
pub open spec fn item_of(all_block: Seq<BlockInfo>, tp: BlockType) -> Item {
    if tp == BlockType::Empty {
        Item { item_type: ItemType::Empty }
    } else {
        Item { item_type: ItemType::Block(all_block[crate::block::type_id(tp) as int]) }
    }
}

fn block_item(all_block: &Vec<BlockInfo>, tp: BlockType) -> (i: Item)
    requires
        all_block.len() >= 7,
        tp != BlockType::Empty,
    ensures
        i == item_of(all_block@, tp),
{
    Item::new(ItemType::Block(all_block[tp.id() as usize]))
}

fn empty_row() -> (row: Vec<Item>)
    ensures
        row.len() == 10,
        forall|i: int| 0 <= i < 10 ==> #[trigger] row@[i] == (Item { item_type: ItemType::Empty }),
{
    let mut row: Vec<Item> = Vec::new();
    let mut i: usize = 0;
    while i < 10
        invariant
            i <= 10,
            row.len() == i,
            forall|j: int| 0 <= j < i ==> #[trigger] row@[j] == (Item { item_type: ItemType::Empty }),
        decreases 10 - i,
    {
        row.push(Item::new(ItemType::Empty));
        i = i + 1;
    }
    row
}

/// An icon of the inventory screen: the slot it sits in (row, then column)
/// and the block kind it shows.
#[derive(Clone, Copy, Debug, PartialEq, Eq, Structural)]
pub struct InventoryIcon {
    pub row: usize,
    pub col: usize,
    pub block_type: u32,
}

/// The slots of an inventory in row-major order, each with its row, its
/// column and the item in it.
pub open spec fn inventory_cells(inv: Seq<Vec<Item>>) -> Seq<(int, int, Item)>
    decreases inv.len(),
{
    if inv.len() == 0 {
        Seq::empty()
    } else {
        let i = inv.len() - 1;
        inventory_cells(inv.drop_last()) + Seq::new(inv.last()@.len(), |j: int| (i, j, inv.last()@[j]))
    }
}

/// The icon drawn for a slot.
pub open spec fn icon_of(cell: (int, int, Item)) -> InventoryIcon {
    InventoryIcon { row: cell.0 as usize, col: cell.1 as usize, block_type: item_type_id(cell.2.item_type) }
}

proof fn lemma_cells_step(inv: Seq<Vec<Item>>, i: int)
    requires
        0 <= i < inv.len(),
    ensures
        inventory_cells(inv.take(i + 1)) == inventory_cells(inv.take(i)) + Seq::new(
            inv[i]@.len(),
            |j: int| (i, j, inv[i]@[j]),
        ),
{
    assert(inv.take(i + 1).drop_last() =~= inv.take(i));
}

proof fn lemma_cells_prefix(inv: Seq<Vec<Item>>, i: int)
    requires
        0 <= i <= inv.len(),
    ensures
        inventory_cells(inv.take(i)).len() <= inventory_cells(inv).len(),
        forall|k: int|
            0 <= k < inventory_cells(inv.take(i)).len() ==> #[trigger] inventory_cells(inv.take(i))[k]
                == inventory_cells(inv)[k],
    decreases inv.len(),
{
    if i == inv.len() {
        assert(inv.take(i) =~= inv);
    } else {
        let d = inv.drop_last();
        lemma_cells_prefix(d, i);
        assert(d.take(i) =~= inv.take(i));
    }
}

/// The icons of the inventory screen: the items in row-major order, up to the
/// first slot that holds nothing.
pub fn inventory_icons(all_item_inventory: &Vec<Vec<Item>>) -> (icons: Vec<InventoryIcon>)
    ensures
        icons.len() <= inventory_cells(all_item_inventory@).len(),
        forall|k: int|
            0 <= k < icons.len() ==> #[trigger] icons@[k] == icon_of(inventory_cells(all_item_inventory@)[k])
                && icons@[k].block_type != 0,
        icons.len() < inventory_cells(all_item_inventory@).len() ==> item_type_id(
            inventory_cells(all_item_inventory@)[icons.len() as int].2.item_type,
        ) == 0,
{
    let ghost inv = all_item_inventory@;
    let mut icons: Vec<InventoryIcon> = Vec::new();
    let mut i: usize = 0;
    proof {
        assert(inv.take(0) =~= Seq::<Vec<Item>>::empty());
    }
    while i < all_item_inventory.len()
        invariant
            inv == all_item_inventory@,
            i <= inv.len(),
            icons.len() == inventory_cells(inv.take(i as int)).len(),
            forall|k: int|
                0 <= k < icons.len() ==> #[trigger] icons@[k] == icon_of(inventory_cells(inv.take(i as int))[k])
                    && icons@[k].block_type != 0,
        decreases inv.len() - i,
    {
        let row = &all_item_inventory[i];
        proof {
            lemma_cells_step(inv, i as int);
        }
        let ghost next = inventory_cells(inv.take(i + 1));
        let mut j: usize = 0;
        while j < row.len()
            invariant
                inv == all_item_inventory@,
                i < inv.len(),
                *row == inv[i as int],
                next == inventory_cells(inv.take(i + 1)),
                next == inventory_cells(inv.take(i as int)) + Seq::new(
                    inv[i as int]@.len(),
                    |j: int| (i as int, j, inv[i as int]@[j]),
                ),
                j <= row.len(),
                icons.len() == inventory_cells(inv.take(i as int)).len() + j,
                forall|k: int|
                    0 <= k < icons.len() ==> #[trigger] icons@[k] == icon_of(next[k]) && icons@[k].block_type
                        != 0,
            decreases row.len() - j,
        {
            let t = row[j].item_type.get_type();
            if t == 0 {
                proof {
                    lemma_cells_prefix(inv, i + 1);
                    assert(next[icons.len() as int] == (i as int, j as int, inv[i as int]@[j as int]));
                    assert forall|k: int| 0 <= k < icons.len() implies #[trigger] icons@[k] == icon_of(
                        inventory_cells(inv)[k],
                    ) by {
                        assert(next[k] == inventory_cells(inv)[k]);
                    }
                    assert(next[icons.len() as int] == inventory_cells(inv)[icons.len() as int]);
                }
                return icons;
            }
            icons.push(InventoryIcon { row: i, col: j, block_type: t });
            proof {
                let k = icons.len() - 1;
                assert(next[k] == (i as int, j as int, inv[i as int]@[j as int]));
            }
            j = j + 1;
        }
        i = i + 1;
    }
    proof {
        assert(inv.take(inv.len() as int) =~= inv);
    }
    icons
}

impl Player {
    /// A new player with the starting hotbar and inventory, hotbar slot 0 selected.
    pub fn new(all_block: &Vec<BlockInfo>) -> (p: Self)
        requires
            all_block.len() >= 7,
        ensures
            p.slected_hotbar == 0,
            p.hotbar.len() == 10,
            forall|i: int| 0 <= i < 10 ==> #[trigger] p.hotbar@[i] == item_of(all_block@, starting_hotbar_kind(i)),
            p.all_item_inventory.len() == 4,
            forall|r: int| 0 <= r < 4 ==> (#[trigger] p.all_item_inventory@[r]).len() == 10,
            forall|i: int|
                0 <= i < 10 ==> #[trigger] p.all_item_inventory@[0]@[i] == item_of(all_block@, starting_inventory_kind(i)),
            forall|r: int, i: int|
                1 <= r < 4 && 0 <= i < 10 ==> #[trigger] p.all_item_inventory@[r]@[i] == (Item {
                    item_type: ItemType::Empty,
                }),
    {
        let mut hotbar = empty_row();
        hotbar.set(0, block_item(all_block, BlockType::Grass));
        hotbar.set(1, block_item(all_block, BlockType::Dirt));
        hotbar.set(2, block_item(all_block, BlockType::UnderStone));
        hotbar.set(3, block_item(all_block, BlockType::BirchLog));
        let mut first = empty_row();
        first.set(0, block_item(all_block, BlockType::UnderStone));
        first.set(1, block_item(all_block, BlockType::BirchLog));
        first.set(2, block_item(all_block, BlockType::BirchLeaves));
        first.set(3, block_item(all_block, BlockType::Grass));
        first.set(4, block_item(all_block, BlockType::Dirt));
        first.set(5, block_item(all_block, BlockType::Stone));
        let mut all_item_inventory: Vec<Vec<Item>> = Vec::new();
        all_item_inventory.push(first);
        all_item_inventory.push(empty_row());
        all_item_inventory.push(empty_row());
        all_item_inventory.push(empty_row());
        Self { slected_hotbar: 0, hotbar, all_item_inventory }
    }

    /// Moves the selected hotbar slot by `offset`, wrapping around the hotbar.
    pub fn update_selected_hotbar(&mut self, offset: i32)
        requires
            i32::MIN <= old(self).slected_hotbar + offset <= i32::MAX,
            i32::MIN <= old(self).slected_hotbar + offset + 10 <= i32::MAX,
        ensures
            final(self).slected_hotbar == moved_slot(old(self).slected_hotbar as int, offset as int),
            final(self).hotbar == old(self).hotbar,
            final(self).all_item_inventory == old(self).all_item_inventory,
    {
        self.slected_hotbar = move_slot(self.slected_hotbar, offset);
    }
}

} // verus!
