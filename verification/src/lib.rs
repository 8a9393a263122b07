//! Deterministic generator of a clustered coordinate-pair dataset.
//!
//! The library plans and assembles the dataset: it decides, draw by draw,
//! which interval the next pseudo-random coordinate must be sampled from,
//! and builds the ordered sequence of coordinate pairs out of the values
//! that come back.  A coordinate travels through the library as the bit
//! pattern of an IEEE 754 double (`u64`); the library never interprets it,
//! so the assembled dataset is proved to be a function of the drawn values
//! alone.  The numeric work — the uniform sampling itself, the haversine
//! distance of each pair and the running sum — is floating-point and is
//! done by the caller at the boundary, one draw or one pair at a time.

pub mod data;
pub mod generator;
pub mod laws;
