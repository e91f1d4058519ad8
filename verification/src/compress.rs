//! Capability traits for the library's primitive types.

use vstd::prelude::*;

verus! {

/// The errors that could be thrown by compression and decompression.
/// No variant is produced by the library today; the enum exists so that
/// implementors of `Compressable` have an error type to grow.
pub enum CoreError {
    Unspecified,
}

/// Add compression and decompression functionality to a serializable type.
pub trait Compressable: Sized {
    fn compress(&self) -> Vec<u8>;

    fn decompress(bytes: Vec<u8>) -> Self;
}

} // verus!
