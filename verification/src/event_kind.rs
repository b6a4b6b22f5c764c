//! Kinds of process lifecycle events carried in `ProcessLifecycleEvent::event_kind`.

use vstd::prelude::*;

verus! {

/// A process image was executed (kind 1).
pub const EXEC: u8 = 1;

/// A process exited (kind 2).
pub const EXIT: u8 = 2;

} // verus!
