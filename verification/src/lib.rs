//! A live histogram of twenty-sided die rolls, drawn into a raw RGBA frame.
//!
//! The crate keeps twenty running counters, one per face of the die, keeps
//! them within what one screen column can show, and paints them as twenty
//! vertical bars. Window handling and presentation are left to the caller,
//! which owns the frame buffer and drives the three steps: resize, update,
//! draw.

pub mod dice;
pub mod layout;
pub mod normalize;
pub mod palette;
pub mod raster;
pub mod report;
pub mod tally;
pub mod world;
