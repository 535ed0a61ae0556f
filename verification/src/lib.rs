//! Game rules of a falling-block puzzle: the well, the pieces, the
//! randomizer, the input debouncer and the per-tick field state machine.

pub mod field;
pub mod image;
pub mod input;
pub mod net;
pub mod piece;
pub mod proto;
pub mod randomizer;
pub mod render;
pub mod well;
pub mod world;
