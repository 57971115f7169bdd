use vstd::prelude::*;

use crate::block::{Block, BlockType};
use crate::coord::BlockPos;
use crate::realm::RealmData;

verus! {

/// The player's controls: which movement keys are held, whether the mouse
/// turns the view, and the block the view points at.
#[derive(Clone, Copy, Debug, PartialEq, Eq, Structural)]
pub struct ControlState {
    pub is_forward_pressed: bool,
    pub is_backward_pressed: bool,
    pub is_left_pressed: bool,
    pub is_right_pressed: bool,
    /// Whether the mouse turns the view (the cursor is captured).
    pub is_fov: bool,
    pub is_debug_window_open: bool,
    /// The block the view points at.
    pub selected_block: Option<BlockPos>,
    /// The empty position just in front of the selected block.
    pub pre_selected_block: Option<BlockPos>,
}

/// The keys the controls react to.
#[derive(Clone, Copy, Debug, PartialEq, Eq, Structural)]
pub enum ControlKey {
    W,
    A,
    S,
    D,
    ShiftLeft,
    Space,
    E,
    F5,
    Other,
}

/// An input event, as the controls see it.
#[derive(Clone, Copy, Debug, PartialEq, Eq, Structural)]
pub enum ControlEvent {
    /// A key went down (`pressed`) or up; repeats are `Other`.
    Key { key: ControlKey, pressed: bool },
    /// The window gained or lost the focus.
    Focused { focused: bool },
    LeftPress,
    RightPress,
    CursorMoved,
    Other,
}

/// What the game has to do after an event.
#[derive(Clone, Copy, Debug, PartialEq, Eq, Structural)]
pub enum ControlAction {
    Nothing,
    /// Give the player the jump speed upwards.
    Jump,
    /// Turn the view by the cursor's move away from the window centre.
    RotateView,
    /// Put `block` at `pos` in the world.
    PlaceBlock { pos: BlockPos, block: Block },
}

impl ControlState {
    /// No key held, the view turned by the mouse, nothing selected.
    pub fn new() -> (s: Self)
        ensures
            s == (ControlState {
                is_forward_pressed: false,
                is_backward_pressed: false,
                is_left_pressed: false,
                is_right_pressed: false,
                is_fov: true,
                is_debug_window_open: false,
                selected_block: None,
                pre_selected_block: None,
            }),
    {
        ControlState {
            is_forward_pressed: false,
            is_backward_pressed: false,
            is_left_pressed: false,
            is_right_pressed: false,
            is_fov: true,
            is_debug_window_open: false,
            selected_block: None,
            pre_selected_block: None,
        }
    }

    pub fn event_walk_forward(&mut self, is_pressed: bool) -> (r: bool)
        ensures
            r,
            *final(self) == (ControlState { is_forward_pressed: is_pressed, ..*old(self) }),
    {
        self.is_forward_pressed = is_pressed;
        true
    }

    pub fn event_walk_left(&mut self, is_pressed: bool) -> (r: bool)
        ensures
            r,
            *final(self) == (ControlState { is_left_pressed: is_pressed, ..*old(self) }),
    {
        self.is_left_pressed = is_pressed;
        true
    }

    pub fn event_walk_backward(&mut self, is_pressed: bool) -> (r: bool)
        ensures
            r,
            *final(self) == (ControlState { is_backward_pressed: is_pressed, ..*old(self) }),
    {
        self.is_backward_pressed = is_pressed;
        true
    }

    pub fn event_walk_right(&mut self, is_pressed: bool) -> (r: bool)
        ensures
            r,
            *final(self) == (ControlState { is_right_pressed: is_pressed, ..*old(self) }),
    {
        self.is_right_pressed = is_pressed;
        true
    }

    /// A jump happens when the key goes down; the event is used up either way.
    pub fn event_jump(&self, is_pressed: bool) -> (r: (bool, ControlAction))
        ensures
            r == (true, if is_pressed {
                ControlAction::Jump
            } else {
                ControlAction::Nothing
            }),
    {
        if is_pressed {
            (true, ControlAction::Jump)
        } else {
            (true, ControlAction::Nothing)
        }
    }

    /// Handles one input event; returns whether it was used up and what the
    /// game has to do. `W`, `A`, `S`, `D` hold the movement keys, `Space`
    /// jumps, `E` and `F5` toggle the mouse view and the debug window when
    /// pressed; focus sets the mouse view; with the mouse view on, the left
    /// button breaks the selected block and the right button puts stone in
    /// front of it, and cursor moves turn the view.
    pub fn process_events(&mut self, event: ControlEvent) -> (r: (bool, ControlAction))
        ensures
            ({
                let s0 = *old(self);
                let s1 = *final(self);
                match event {
                    ControlEvent::Key { key, pressed } => match key {
                        ControlKey::W => r == (true, ControlAction::Nothing) && s1 == (ControlState {
                            is_forward_pressed: pressed,
                            ..s0
                        }),
                        ControlKey::A => r == (true, ControlAction::Nothing) && s1 == (ControlState {
                            is_left_pressed: pressed,
                            ..s0
                        }),
                        ControlKey::S => r == (true, ControlAction::Nothing) && s1 == (ControlState {
                            is_backward_pressed: pressed,
                            ..s0
                        }),
                        ControlKey::D => r == (true, ControlAction::Nothing) && s1 == (ControlState {
                            is_right_pressed: pressed,
                            ..s0
                        }),
                        ControlKey::Space => s1 == s0 && r == (true, if pressed {
                            ControlAction::Jump
                        } else {
                            ControlAction::Nothing
                        }),
                        ControlKey::E => r == (true, ControlAction::Nothing) && s1 == (ControlState {
                            is_fov: s0.is_fov != pressed,
                            ..s0
                        }),
                        ControlKey::F5 => r == (true, ControlAction::Nothing) && s1 == (ControlState {
                            is_debug_window_open: s0.is_debug_window_open != pressed,
                            ..s0
                        }),
                        _ => r == (false, ControlAction::Nothing) && s1 == s0,
                    },
                    ControlEvent::Focused { focused } => r == (true, ControlAction::Nothing) && s1 == (
                    ControlState { is_fov: focused, ..s0 }),
                    ControlEvent::LeftPress => s1 == s0 && if s0.is_fov && s0.selected_block is Some {
                        r == (true, ControlAction::PlaceBlock {
                            pos: s0.selected_block->0,
                            block: Block { tp: BlockType::Empty },
                        })
                    } else {
                        r == (false, ControlAction::Nothing)
                    },
                    ControlEvent::RightPress => s1 == s0 && if s0.is_fov && s0.pre_selected_block is Some {
                        r == (true, ControlAction::PlaceBlock {
                            pos: s0.pre_selected_block->0,
                            block: Block { tp: BlockType::Stone },
                        })
                    } else {
                        r == (false, ControlAction::Nothing)
                    },
                    ControlEvent::CursorMoved => s1 == s0 && r == if s0.is_fov {
                        (true, ControlAction::RotateView)
                    } else {
                        (false, ControlAction::Nothing)
                    },
                    ControlEvent::Other => r == (false, ControlAction::Nothing) && s1 == s0,
                }
            }),
    {
        match event {
            ControlEvent::Key { key, pressed } => match key {
                ControlKey::W => (self.event_walk_forward(pressed), ControlAction::Nothing),
                ControlKey::A => (self.event_walk_left(pressed), ControlAction::Nothing),
                ControlKey::S => (self.event_walk_backward(pressed), ControlAction::Nothing),
                ControlKey::D => (self.event_walk_right(pressed), ControlAction::Nothing),
                ControlKey::ShiftLeft => (false, ControlAction::Nothing),
                ControlKey::Space => self.event_jump(pressed),
                ControlKey::E => {
                    if pressed {
                        self.is_fov = !self.is_fov;
                    }
                    (true, ControlAction::Nothing)
                },
                ControlKey::F5 => {
                    if pressed {
                        self.is_debug_window_open = !self.is_debug_window_open;
                    }
                    (true, ControlAction::Nothing)
                },
                ControlKey::Other => (false, ControlAction::Nothing),
            },
            ControlEvent::Focused { focused } => {
                self.is_fov = focused;
                (true, ControlAction::Nothing)
            },
            ControlEvent::LeftPress => {
                if self.is_fov {
                    if let Some(selected_block) = self.selected_block {
                        return (true, ControlAction::PlaceBlock { pos: selected_block, block: Block::empty() });
                    }
                }
                (false, ControlAction::Nothing)
            },
            ControlEvent::RightPress => {
                if self.is_fov {
                    if let Some(pre_selected_block) = self.pre_selected_block {
                        return (
                            true,
                            ControlAction::PlaceBlock { pos: pre_selected_block, block: Block::new(BlockType::Stone) },
                        );
                    }
                }
                (false, ControlAction::Nothing)
            },
            ControlEvent::CursorMoved => {
                if self.is_fov {
                    (true, ControlAction::RotateView)
                } else {
                    (false, ControlAction::Nothing)
                }
            },
            ControlEvent::Other => (false, ControlAction::Nothing),
        }
    }

    /// Records what the view points at: `hit` holds the first non-empty block
    /// along the view and the position in front of it, or nothing within reach.
    /// The selection frame follows the hit block, and hides when there is none.
    pub fn update_selection(&mut self, data: &mut RealmData, hit: Option<(BlockPos, BlockPos)>)
        ensures
            final(self).selected_block == (match hit {
                Some(h) => Some(h.0),
                None => None::<BlockPos>,
            }),
            final(self).pre_selected_block == (match hit {
                Some(h) => Some(h.1),
                None => None::<BlockPos>,
            }),
            final(data).is_wf_visible == (hit is Some),
            hit matches Some(h) ==> final(data).wf_position == h.0,
            hit is None ==> final(data).wf_position == old(data).wf_position,
            final(data).chunk_map == old(data).chunk_map,
            final(data).center_chunk_pos == old(data).center_chunk_pos,
            final(data).chunk_rad == old(data).chunk_rad,
            final(data).all_block == old(data).all_block,
            final(self).is_fov == old(self).is_fov,
            final(self).is_forward_pressed == old(self).is_forward_pressed,
            final(self).is_backward_pressed == old(self).is_backward_pressed,
            final(self).is_left_pressed == old(self).is_left_pressed,
            final(self).is_right_pressed == old(self).is_right_pressed,
            final(self).is_debug_window_open == old(self).is_debug_window_open,
    {
        match hit {
            Some(new_position) => {
                data.is_wf_visible = true;
                data.update_wf_uniform(new_position.0);
                self.selected_block = Some(new_position.0);
                self.pre_selected_block = Some(new_position.1);
            },
            None => {
                data.is_wf_visible = false;
                self.selected_block = None;
                self.pre_selected_block = None;
            },
        }
    }
}

} // verus!
