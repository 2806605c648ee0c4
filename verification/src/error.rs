//! The errors of the map layer.

use vstd::prelude::*;

verus! {

/// Why an operation of the map layer failed.
#[derive(Clone, Copy, Debug, PartialEq, Eq, Structural)]
pub enum StoreError {
    /// A key or a value could not be turned into bytes.
    Serialize,
    /// Stored bytes do not decode to a key or a value.
    Deserialize,
    /// The underlying byte store reported a failure.
    RawStore,
    /// The atomic batch protocol was used out of order.
    InvalidState,
    /// A container is too large for the width of its length prefix.
    OversizedContainer,
    /// A decoder met a tag that names no variant; the tag is carried along.
    UnknownVariant(u8),
}

} // verus!
