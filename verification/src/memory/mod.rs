//! Lease-bearing blocks of RAM and who holds them.
pub mod allocator;
pub mod block;
pub mod local_ram;
pub mod migration;
pub mod remote_ram;
pub mod residency;
