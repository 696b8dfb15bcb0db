//! Reading a stream in parts that are set off by a separator.

use vstd::prelude::*;

verus! {

/// The byte that sets the parts of a stream off from each other.
pub struct SeparatorReader {
    pub separator: u8,
}

} // verus!
