use vstd::prelude::*;

use crate::block::BlockInfo;
use crate::inventory::{move_slot, moved_slot, Player, SLOTS_PER_COLUMN, SLOTS_PER_ROW};
use crate::item::{item_type_id, Item, ItemType};

verus! {

/// The state of the on-screen panels: which are open, and the block icon
/// being dragged from the inventory to the hotbar.
#[derive(Clone, Copy, Debug, PartialEq, Eq, Structural)]
pub struct UiState {
    pub is_invenory_open: bool,
    pub is_hotbar_open: bool,
    pub is_debug_info_open: bool,
    pub is_dragging: bool,
    /// The kind number of the block last picked up for dragging.
    pub dragging_block_type: Option<u32>,
    /// The hotbar slot the selection frame is drawn on.
    pub shb_index: i32,
}

/// An input event, as the panels see it. Slots are given as (column, row) of
/// the inventory grid under the cursor; row 4 is the hotbar row shown under
/// the inventory.
#[derive(Clone, Copy, Debug, PartialEq, Eq, Structural)]
pub enum UiEvent {
    /// `E` went down or up (not a repeat).
    KeyE,
    /// `Escape` went down or up (not a repeat).
    KeyEscape,
    /// `F3` went down (`pressed`) or up (not a repeat).
    KeyF3 { pressed: bool },
    /// Another key went down or up, or a key repeated.
    OtherKey,
    /// The left mouse button went down over inventory slot `(slot_x, slot_y)`.
    LeftPress { slot_x: u32, slot_y: u32 },
    /// Another mouse button went down.
    OtherPress,
    /// A mouse button went up over inventory slot `(slot_x, slot_y)`.
    Release { slot_x: u32, slot_y: u32 },
    /// The wheel turned by lines, up (away from the user) or down.
    ScrollLines { up: bool },
    /// The wheel turned by pixels.
    ScrollPixels,
    /// The cursor moved.
    CursorMoved,
    /// Any other window event.
    Other,
}

/// What the renderer has to do after an event.
#[derive(Clone, Copy, Debug, PartialEq, Eq, Structural)]
pub enum UiAction {
    Nothing,
    /// Start drawing the icon of block kind `block_type` under the cursor.
    StartDragging { block_type: u32 },
    /// Move the dragged icon to the cursor.
    MoveDragging,
    /// The hotbar changed: redraw its icons.
    HotbarChanged,
    /// Draw the selection frame on hotbar slot `slot`.
    SelectionMoved { slot: i32 },
}

impl UiState {
    /// The panels as the game opens: hotbar shown, inventory and debug text hidden.
    pub fn new() -> (s: Self)
        ensures
            s == (UiState {
                is_invenory_open: false,
                is_hotbar_open: true,
                is_debug_info_open: false,
                is_dragging: false,
                dragging_block_type: None,
                shb_index: 0,
            }),
    {
        UiState {
            is_invenory_open: false,
            is_hotbar_open: true,
            is_debug_info_open: false,
            is_dragging: false,
            dragging_block_type: None,
            shb_index: 0,
        }
    }

    /// Whether `process_events` can handle `event` without a slot or kind
    /// number pointing outside the player's items or the block table.
    pub open spec fn event_ok(&self, event: UiEvent, player: Player, all_block: Seq<BlockInfo>) -> bool {
        &&& self.is_dragging ==> self.dragging_block_type is Some
        &&& match event {
            UiEvent::LeftPress { slot_x, slot_y } => self.is_invenory_open && slot_y < 4 ==> {
                &&& slot_y < player.all_item_inventory.len()
                &&& slot_x < player.all_item_inventory@[slot_y as int].len()
            },
            UiEvent::Release { slot_x, slot_y } => self.is_dragging && slot_x < 10 && slot_y == 4 ==> {
                &&& slot_x < player.hotbar.len()
                &&& self.dragging_block_type->0 < all_block.len()
            },
            UiEvent::ScrollLines { .. } => {
                &&& i32::MIN + 1 <= self.shb_index <= i32::MAX - 11
                &&& i32::MIN + 1 <= player.slected_hotbar <= i32::MAX - 11
            },
            _ => true,
        }
    }

    /// Whether `process_events` can handle `event` (see `event_ok`).
    pub fn can_process(&self, event: UiEvent, player: &Player, all_block: &Vec<BlockInfo>) -> (r: bool)
        ensures
            r == self.event_ok(event, *player, all_block@),
    {
        if self.is_dragging && self.dragging_block_type.is_none() {
            return false;
        }
        match event {
            UiEvent::LeftPress { slot_x, slot_y } => {
                if self.is_invenory_open && slot_y < 4 {
                    (slot_y as usize) < player.all_item_inventory.len() && (slot_x as usize)
                        < player.all_item_inventory[slot_y as usize].len()
                } else {
                    true
                }
            },
            UiEvent::Release { slot_x, slot_y } => {
                if self.is_dragging && slot_x < 10 && slot_y == 4 {
                    match self.dragging_block_type {
                        Some(t) => (slot_x as usize) < player.hotbar.len() && (t as usize) < all_block.len(),
                        None => false,
                    }
                } else {
                    true
                }
            },
            UiEvent::ScrollLines { .. } => {
                i32::MIN + 1 <= self.shb_index && self.shb_index <= i32::MAX - 11 && i32::MIN + 1
                    <= player.slected_hotbar && player.slected_hotbar <= i32::MAX - 11
            },
            _ => true,
        }
    }

    /// Handles one input event for the panels; returns whether the event was
    /// used up, and what the renderer has to do.
    ///
    /// `E` opens the inventory (hiding the hotbar) when the view is not being
    /// turned (`is_fov` false) and closes it otherwise; `Escape` closes it; `F3`
    /// toggles the debug text. With the inventory open, a left press on a
    /// non-empty inventory slot picks its block up; releasing it over a
    /// hotbar slot puts that block there. The wheel moves the hotbar
    /// selection, up to the left.
    pub fn process_events(
        &mut self,
        event: UiEvent,
        is_fov: bool,
        player: &mut Player,
        all_block: &Vec<BlockInfo>,
    ) -> (r: (bool, UiAction))
        requires
            old(self).event_ok(event, *old(player), all_block@),
        ensures
            final(self).is_dragging ==> final(self).dragging_block_type is Some,
            ({
                let s0 = *old(self);
                let s1 = *final(self);
                let p0 = *old(player);
                let p1 = *final(player);
                match event {
                    UiEvent::KeyE => r == (true, UiAction::Nothing) && p1 == p0 && s1 == (UiState {
                        is_invenory_open: !is_fov,
                        is_hotbar_open: is_fov,
                        ..s0
                    }),
                    UiEvent::KeyEscape => r == (true, UiAction::Nothing) && p1 == p0 && s1 == if s0.is_invenory_open {
                        UiState { is_invenory_open: false, is_hotbar_open: true, ..s0 }
                    } else {
                        s0
                    },
                    UiEvent::KeyF3 { pressed } => p1 == p0 && if pressed {
                        r == (true, UiAction::Nothing) && s1 == (UiState {
                            is_debug_info_open: !s0.is_debug_info_open,
                            ..s0
                        })
                    } else {
                        r == (false, UiAction::Nothing) && s1 == s0
                    },
                    UiEvent::LeftPress { slot_x, slot_y } => p1 == p0 && if !s0.is_invenory_open || slot_y >= 4 {
                        r == (true, UiAction::Nothing) && s1 == s0
                    } else {
                        let tp = item_type_id(p0.all_item_inventory@[slot_y as int]@[slot_x as int].item_type);
                        if tp != 0 {
                            r == (true, UiAction::StartDragging { block_type: tp }) && s1 == (UiState {
                                is_dragging: true,
                                dragging_block_type: Some(tp),
                                ..s0
                            })
                        } else {
                            r == (true, UiAction::Nothing) && s1 == s0
                        }
                    },
                    UiEvent::Release { slot_x, slot_y } => if !s0.is_dragging {
                        r == (true, UiAction::Nothing) && s1 == s0 && p1 == p0
                    } else if slot_x >= 10 || slot_y != 4 {
                        r == (true, UiAction::Nothing) && s1 == (UiState { is_dragging: false, ..s0 }) && p1 == p0
                    } else {
                        let tp = s0.dragging_block_type->0;
                        &&& r == (true, UiAction::HotbarChanged)
                        &&& s1 == (UiState { is_dragging: false, ..s0 })
                        &&& p1.slected_hotbar == p0.slected_hotbar
                        &&& p1.all_item_inventory == p0.all_item_inventory
                        &&& p1.hotbar@ == p0.hotbar@.update(
                            slot_x as int,
                            Item { item_type: ItemType::Block(all_block@[tp as int]) },
                        )
                    },
                    UiEvent::ScrollLines { up } => {
                        let offset: int = if up {
                            -1
                        } else {
                            1
                        };
                        let slot = moved_slot(s0.shb_index as int, offset);
                        &&& r == (true, UiAction::SelectionMoved { slot: slot as i32 })
                        &&& s1 == (UiState { shb_index: slot as i32, ..s0 })
                        &&& p1.slected_hotbar == moved_slot(p0.slected_hotbar as int, offset)
                        &&& p1.hotbar == p0.hotbar
                        &&& p1.all_item_inventory == p0.all_item_inventory
                    },
                    UiEvent::CursorMoved => p1 == p0 && s1 == s0 && r == (false, if s0.is_dragging {
                        UiAction::MoveDragging
                    } else {
                        UiAction::Nothing
                    }),
                    _ => r == (false, UiAction::Nothing) && s1 == s0 && p1 == p0,
                }
            }),
    {
        match event {
            UiEvent::KeyE => {
                if is_fov {
                    self.is_invenory_open = false;
                    self.is_hotbar_open = true;
                } else {
                    self.is_invenory_open = true;
                    self.is_hotbar_open = false;
                }
                (true, UiAction::Nothing)
            },
            UiEvent::KeyEscape => {
                if self.is_invenory_open {
                    self.is_invenory_open = false;
                    self.is_hotbar_open = true;
                }
                (true, UiAction::Nothing)
            },
            UiEvent::KeyF3 { pressed } => {
                if pressed {
                    self.is_debug_info_open = !self.is_debug_info_open;
                    (true, UiAction::Nothing)
                } else {
                    (false, UiAction::Nothing)
                }
            },
            UiEvent::LeftPress { slot_x, slot_y } => {
                if self.is_invenory_open {
                    if slot_y >= SLOTS_PER_COLUMN {
                        return (true, UiAction::Nothing);
                    }
                    let tp = player.all_item_inventory[slot_y as usize][slot_x as usize].item_type.get_type();
                    if tp != 0 {
                        self.is_dragging = true;
                        self.dragging_block_type = Some(tp);
                        return (true, UiAction::StartDragging { block_type: tp });
                    }
                }
                (true, UiAction::Nothing)
            },
            UiEvent::Release { slot_x, slot_y } => {
                if self.is_dragging {
                    if slot_x >= SLOTS_PER_ROW || slot_y != SLOTS_PER_COLUMN {
                        self.is_dragging = false;
                        return (true, UiAction::Nothing);
                    }
                    let selected_tp = match self.dragging_block_type {
                        Some(tp) => tp,
                        None => 0,
                    };
                    let new_item = Item::new(ItemType::Block(all_block[selected_tp as usize]));
                    player.hotbar.set(slot_x as usize, new_item);
                    self.is_dragging = false;
                    return (true, UiAction::HotbarChanged);
                }
                (true, UiAction::Nothing)
            },
            UiEvent::ScrollLines { up } => {
                let offset: i32 = if up {
                    -1
                } else {
                    1
                };
                self.shb_index = move_slot(self.shb_index, offset);
                player.update_selected_hotbar(offset);
                (true, UiAction::SelectionMoved { slot: self.shb_index })
            },
            UiEvent::CursorMoved => {
                if self.is_dragging {
                    (false, UiAction::MoveDragging)
                } else {
                    (false, UiAction::Nothing)
                }
            },
            _ => (false, UiAction::Nothing),
        }
    }
}

} // verus!
