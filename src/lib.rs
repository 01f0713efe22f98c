//! The simulation core of a wave-defence game: enemy waves and their
//! bookkeeping, steering, combat resolution, spellcasting and the morale
//! model, in fixed point (thousandths) with verified contracts.
pub mod combat;
pub mod common;
pub mod enemy;
pub mod morale;
pub mod player;
mod random;
pub mod timer;
pub mod vector;
pub mod wave;
