//! Core logic of a chat-driven voxel canvas: parsing placement commands,
//! keeping the in-memory canvas state, and pacing periodic render snapshots.
//!
//! The surrounding process (chat transport, durable archive, image output)
//! lives outside this crate and exchanges plain values with it.

use vstd::prelude::*;

pub mod canvas;
pub mod event_loop;
pub mod pacing;
pub mod parser;

verus! {

/// A placed unit cube: an integer coordinate and an RGB colour.
#[derive(Clone, Copy, Debug, PartialEq, Eq)]
pub struct Cube {
    pub position: (u32, u32, u32),
    pub colour: (u8, u8, u8),
}

/// A cube's coordinate lies inside the addressable volume of side `bound`.
pub open spec fn cube_in_bounds(c: Cube, bound: u32) -> bool {
    c.position.0 < bound && c.position.1 < bound && c.position.2 < bound
}

/// Whether all three coordinates of `c` are below `bound`.
pub fn check_cube_in_bounds(c: &Cube, bound: u32) -> (r: bool)
    ensures
        r == cube_in_bounds(*c, bound),
{
    c.position.0 < bound && c.position.1 < bound && c.position.2 < bound
}

} // verus!
