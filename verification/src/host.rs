//! The host's registration in a room. The host's outbound channel lives at
//! the network edge; the room only needs to know a host is present.

use crate::player::PlayerId;
use vstd::prelude::*;

verus! {

/// The room's record of its connected host.
#[derive(Clone, Copy, Debug, PartialEq, Eq, Structural)]
pub struct HostEntry {
    pub pid: u32,
}

impl HostEntry {
    pub fn new(pid: u32) -> (r: Self)
        ensures
            r == (HostEntry { pid }),
    {
        HostEntry { pid }
    }
}

/// A host identity, as it appears in messages.
#[derive(Clone, Copy, Debug, PartialEq, Eq, Structural)]
pub struct Host {
    pub pid: PlayerId,
}

} // verus!
