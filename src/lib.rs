//! A half-edge (doubly-connected edge list) topology engine for polygonal
//! surface meshes made of triangles and quads, with verified contracts.
//!
//! Node coordinates are held as the bit patterns of binary64 numbers, as
//! the node files store them; the bounding box orders them by the IEEE-754
//! total order.
pub mod adjacency;
pub mod bbox;
pub mod codec;
pub mod coverage;
pub mod entities;
pub mod ids;
pub mod message;
pub mod service;
mod listing;

pub use listing::is_enumeration;
