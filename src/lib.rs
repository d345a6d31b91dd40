use vstd::prelude::*;

pub mod fields;
pub mod head;
pub mod read_at_most;
pub mod registry;
pub mod text;

verus! {

/// Number of bytes the connection handler allows for a request head.
pub const HEADER_CAPACITY: usize = 16384;

} // verus!
