//! A constrained-random tile grid generator: cells start undecided and are
//! resolved one at a time to a terrain category, so that neighbouring cells
//! always hold compatible categories.

pub mod category;
pub mod collapse;
pub mod driver;
pub mod frontier;
pub mod grid;
pub mod rules;
