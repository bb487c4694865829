//! Sources of pointer positions.

use vstd::prelude::*;
use std::collections::HashMap;

verus! {

/// A snapshot of the active pointers.
pub struct PointerInfos {
    /// Pointer id to its position relative to the playfield's centre.
    pub map: HashMap<u32, (i32, i32)>,
    /// Radius of the playfield, in pixels.
    pub radius: u32,
}

/// A producer of pointer positions. Implementations set themselves up when
/// they are built.
pub trait TouchService {
    /// The pointers active now.
    fn get_info(&self) -> PointerInfos;

    /// Runs the service's own polling; returns only when the service stops.
    fn main_cycle(&self);
}

} // verus!
