//! The errors that the library reports.

use vstd::prelude::*;

verus! {

/// An error of an inspection.
#[derive(Debug)]
pub enum Error {
    /// An option has a value that cannot be used: the option, and why.
    OptionValueIncorrect(String, String),
    /// A node that the trie points at is not in the store: its hash.
    NodeMissing(Vec<u8>),
    /// A node's bytes do not decode, or point outside themselves: the node's reference.
    Corrupt(Vec<u8>),
}

} // verus!
