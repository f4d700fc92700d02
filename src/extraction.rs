use vstd::prelude::*;

verus! {

/// Describes the format of the save before decoding
#[derive(Debug, Clone, Copy, PartialEq, Eq, Structural)]
pub enum Encoding {
    /// Binary save
    Binary,
    /// Plaintext save
    Plaintext,
}

} // verus!
