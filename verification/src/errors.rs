use vstd::prelude::*;

verus! {

/// Failures surfaced by the replica metadata store. Both variants propagate
/// unchanged to the caller; no operation retries or recovers locally.
#[derive(Clone, Copy, PartialEq, Eq, Structural, Debug)]
pub enum Error {
    /// An accessor ran before the field it reads was loaded.
    UninitializedState,
    /// The underlying engine failed a read or a scan.
    StorageIOError,
}

} // verus!
