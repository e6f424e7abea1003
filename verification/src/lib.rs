//! Peer-to-peer pooling of RAM for training: leased blocks, their placement
//! and migration, and the protocols that carry them between nodes.
pub mod address;
pub mod arith;
pub mod bytes;
pub mod cli;
pub mod cluster;
pub mod config;
pub mod digest;
pub mod double;
pub mod error;
pub mod ids;
pub mod jobs;
pub mod launcher;
pub mod laws;
pub mod map;
pub mod memory;
pub mod metrics;
pub mod node;
pub mod protocol;
pub mod runtime;
pub mod scheduler;
pub mod table;
pub mod text;
pub mod transport;

use vstd::prelude::*;

verus! {

/// A point in time of `std`, carried through.
#[verifier::external_type_specification]
#[verifier::external_body]
pub struct ExSystemTime(std::time::SystemTime);

/// A time before the epoch, carried through.
#[verifier::external_type_specification]
#[verifier::external_body]
pub struct ExSystemTimeError(std::time::SystemTimeError);

/// `std::time::SystemTime::now`. What it returns depends on the clock alone,
/// so nothing is claimed of it.
#[verifier::external_body]
fn wall_clock() -> (r: std::time::SystemTime) {
    std::time::SystemTime::now()
}

/// `std::time::SystemTime::duration_since` the epoch. Neither a time nor a
/// duration has a model here, so nothing is claimed of it.
#[verifier::external_body]
fn since_epoch(time: std::time::SystemTime) -> (r: Result<std::time::Duration, std::time::SystemTimeError>) {
    time.duration_since(std::time::UNIX_EPOCH)
}

/// `std::time::Duration::as_millis`. A duration has no model here, so nothing
/// is claimed of it.
#[verifier::external_body]
fn whole_millis(duration: std::time::Duration) -> (r: u128) {
    duration.as_millis()
}

/// Milliseconds since the epoch as 64 bits hold them; none before it.
pub fn epoch_millis(millis: Option<u128>) -> (r: u64)
    ensures
        r == match millis {
            Some(n) => n as int % 0x1_0000_0000_0000_0000,
            None => 0,
        },
{
    match millis {
        Some(n) => (n % 0x1_0000_0000_0000_0000) as u64,
        None => 0,
    }
}

/// Milliseconds since the epoch by the clock of the machine; see
/// [`epoch_millis`].
pub fn now_ms() -> (r: u64) {
    match since_epoch(wall_clock()) {
        Ok(duration) => epoch_millis(Some(whole_millis(duration))),
        Err(_) => epoch_millis(None),
    }
}

} // verus!
