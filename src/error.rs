//! Errors that the resolution pipeline reports to its caller.
use vstd::prelude::*;

verus! {

#[derive(Debug, Clone, Copy, PartialEq, Eq, Structural)]
pub enum XFixError {
    /// The pointer listing lacks the pointer block or its end marker.
    DeviceQuery,
    /// The event node reports no vendor.
    VendorNotFound,
    /// The event node reports no physical bus path.
    IdPathNotFound,
    /// A selection does not name an offered item.
    NoSuchChoice,
}

} // verus!
