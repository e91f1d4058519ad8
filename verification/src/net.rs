//! Node-level network metadata.

use vstd::prelude::*;

verus! {

/// The status of a node on the network.
pub enum NodeStatus {
    Online,
    Offline,
    Unknown,
}

} // verus!
