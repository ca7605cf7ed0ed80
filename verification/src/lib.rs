//! Core logic of a small wireless badge: it animates drawable content on a
//! monochrome display and trades short broadcast messages with nearby peers,
//! periodically showing a text item chosen by a peer or, after a quiet spell,
//! one chosen at random locally.
//!
//! Everything here is pure computation: animation engines produce frame plans,
//! and the distribution pipeline is a state machine over plain values. The
//! display driver and the radio are external collaborators that consume the
//! plans and feed events back in.

pub mod corpus;
pub mod effects;
pub mod geometry;
pub mod pipeline;
mod rng;
pub mod text;
pub mod utils;

pub use geometry::{BoundingBox, Point, Size};
