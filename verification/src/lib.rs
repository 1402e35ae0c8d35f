//! Shared domain library for local-transfer applications.
//!
//! The library decides; it never touches the network or the filesystem. Operations
//! that need either are sequences of steps: the owner performs a step, hands its
//! outcome back, and gets the next step or the result.

use vstd::prelude::*;

pub mod advertisement;
pub mod browser;
pub mod command;
pub mod device_name;
pub mod discover;
pub mod discovered_peers;
pub mod discovery;
pub mod identity;
pub mod local_device;
pub mod ordered;
pub mod pairing;
pub mod persistence;
pub mod platform;
pub mod text;
pub mod text_map;
pub mod time;
pub mod trusted_peer_store;
pub mod trusted_peers;
pub mod uuids;

pub use local_device::{LocalDevice, LocalDeviceError, LocalDeviceManager};

verus! {

/// Returns the version of the shared core library.
#[must_use]
pub fn version() -> (s: &'static str)
    ensures
        s@ == "0.1.0"@,
{
    "0.1.0"
}

} // verus!
