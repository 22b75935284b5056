//! The messaging core of a chronos node and its clients: the protobuf
//! encoding of `ZMessage`, vector clocks and the client state that keeps one,
//! routing of frames to agents, and database file handles.
use vstd::prelude::*;

pub mod varint;
pub mod wire;
pub mod message;
pub mod node;
pub mod clock;
pub mod client;
pub mod db;

verus! {

/// Adds two sizes.
pub fn add(left: usize, right: usize) -> (sum: usize)
    requires
        left + right <= usize::MAX,
    ensures
        sum == left + right,
{
    left + right
}

} // verus!
