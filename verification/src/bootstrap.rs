//! What a sled's bootstrap agent reports about rack-level operations.

use crate::ident::Uuid;
use vstd::prelude::*;

verus! {

/// Identifier of one run of rack initialization.
#[derive(Clone, Copy, Debug, PartialEq, Eq, Structural, Hash)]
pub struct RackInitId(pub Uuid);

/// Identifier of one run of rack reset.
#[derive(Clone, Copy, Debug, PartialEq, Eq, Structural, Hash)]
pub struct RackResetId(pub Uuid);

/// Current status of any rack-level operation being performed by a
/// bootstrap agent.
#[derive(Clone, Debug, PartialEq, Eq, Hash)]
pub enum RackOperationStatus {
    Initializing { id: RackInitId },
    /// `id` is `None` if the rack was already initialized on startup.
    Initialized { id: Option<RackInitId> },
    InitializationFailed { id: RackInitId, message: String },
    InitializationPanicked { id: RackInitId },
    Resetting { id: RackResetId },
    /// `reset_id` is `None` if the rack was uninitialized on startup, and
    /// `Some` if it is uninitialized because a reset completed.
    Uninitialized { reset_id: Option<RackResetId> },
    ResetFailed { id: RackResetId, message: String },
    ResetPanicked { id: RackResetId },
}

} // verus!
