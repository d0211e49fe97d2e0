//! Where the reduced output goes.
use vstd::prelude::*;

verus! {

/// Where to write the reduced output.
pub enum OutputTarget {
    /// Write to stdout.
    Stdout,
    /// Write to a file at this path.
    File(String),
}

} // verus!
