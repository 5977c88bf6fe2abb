//! Slippy-map tile acquisition: tile coordinate math, the neighbourhood of
//! tiles around a requested position, the per-tile download record index,
//! the scheduling decisions that keep at most one fetch in flight per tile,
//! a queue that caps how many fetches run at once, and the address and
//! storage path of each tile.
pub mod cache;
pub mod location;
pub mod neighborhood;
pub mod queue;
pub mod scheduler;
pub mod tile;
