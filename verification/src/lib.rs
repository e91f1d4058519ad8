//! A peer-to-peer file distribution library: files are split into
//! content-addressed shards, optionally encrypted, and later reassembled
//! and cryptographically verified on retrieval.

use vstd::prelude::*;

pub mod codec;
pub mod common;
pub mod compress;
pub mod crypto;
pub mod db;
pub mod file;
pub mod net;
pub mod node;
pub mod shard;

verus! {

/// A general-purpose error carrying a human-readable description.
#[derive(Debug)]
pub struct GeneralError {
    details: String,
}

impl GeneralError {
    /// The description this error was created with.
    pub closed spec fn spec_details(&self) -> Seq<char> {
        self.details@
    }

    pub fn new(msg: &str) -> (r: Self)
        ensures
            r.spec_details() == msg@,
    {
        Self { details: msg.to_owned() }
    }

    /// The error's description.
    pub fn message(&self) -> (r: &str)
        ensures
            r@ == self.spec_details(),
    {
        self.details.as_str()
    }
}

} // verus!
