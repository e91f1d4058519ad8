//! Marker traits describing what may act as a key or a value in a node's
//! local metadata store. The store itself lives outside the library.

use vstd::prelude::*;

verus! {

/// The bounding trait representing any type that can act as a
/// key in the database.
pub trait IsKey {

}

/// The bounding trait representing any type that can act as a
/// value in the database.
pub trait IsValue {

}

} // verus!
