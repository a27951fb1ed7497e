//! A lazily generated, chunked 2D tile map: chunks are requested on a miss,
//! generated off the owner's tick and merged back together with the writes
//! queued for them; a double-buffered variant gives every tick one stable
//! snapshot. Loading follows focus points, and a directional light
//! propagation step runs over a window of the map.

pub mod coords;
pub mod grid;
pub mod table;
pub mod producer;
pub mod model;
pub mod lifecycle;
pub mod data_map;
pub mod double_buffered;
pub mod directions;
pub mod light;
pub mod passability;
pub mod pbr_cell;
pub mod light_sim;
pub mod focus;
pub mod tracker;
