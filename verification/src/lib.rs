//! Turns a tilemap image into a compact tileset: the distinct tiles of the
//! source, in order of first appearance, packed into a near-square canvas.

pub mod color;
pub mod error;
pub mod raster;
pub mod grid;
pub mod extract;
pub mod dedup;
pub mod layout;
pub mod pack;
pub mod pipeline;
pub mod naming;
