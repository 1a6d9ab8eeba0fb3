use vstd::prelude::*;

verus! {

/// The failures a store can surface to the caller of a save or query.
#[derive(Clone, Copy, Debug, PartialEq, Eq, Structural)]
pub enum StoreError {
    /// An underlying filesystem operation failed during a file-backed save.
    IoError,
    /// The metadata could not be encoded into its canonical text form.
    /// The verified encoder is total, so no function of this library
    /// returns it; the variant names the fault class for callers.
    SerializationError,
    /// The lock guarding an in-memory store was poisoned by a panicking holder.
    LockPoisoned,
}

} // verus!
