use vstd::prelude::*;

verus! {

/// Why the resolution of a single library name failed.
#[derive(Debug, Clone, Copy, PartialEq, Eq, Structural)]
pub enum ResolverError {
    /// The name has no hyphen before which a version suffix could be cut.
    InvalidNameFormat,
    /// A record or string would lie (partly) outside the namespace bytes.
    OutOfBounds,
}

} // verus!
