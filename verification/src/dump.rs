//! Plain-text dumps of keys and values.

use vstd::prelude::*;

verus! {

/// A key or value that can be written out as plain text.
pub trait ToDumpString {
    /// The text that stands for this key or value in a dump.
    fn to_dump_string(&self) -> String;
}

} // verus!
