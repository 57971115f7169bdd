//! The voxel world of the game: block and chunk storage, the render
//! bookkeeping of visible blocks, terrain placement, chunk streaming
//! plans, and the inventory / input state machines.

pub mod coord;
pub mod block;
pub mod realm;
pub mod streaming;
pub mod terrain;
pub mod item;
pub mod inventory;
pub mod ui_state;
pub mod control;
pub mod entity;
