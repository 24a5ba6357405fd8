//! Message types of the wire protocol.

use vstd::prelude::*;

verus! {

/// Sent by a worker when it connects.
pub const HELLO: u32 = 1;

/// Sent to a worker to run a layer slice.
pub const WORK: u32 = 3;

/// Sent by a worker with the outcome of a layer slice.
pub const RESULT: u32 = 4;

/// Announces a snapshot.
pub const SNAPSHOT_BEGIN: u32 = 5;

/// Carries a part of a snapshot.
pub const SNAPSHOT_CHUNK: u32 = 6;

/// Ends a snapshot.
pub const SNAPSHOT_END: u32 = 7;

/// Asks for a snapshot.
pub const SNAPSHOT_REQ: u32 = 8;

} // verus!
