//! What holds of the library, in the terms of what goes in and what comes out.
pub mod answers;
pub mod blocks;
pub mod budget;
pub mod election;
pub mod errors;
pub mod leases;
pub mod peers;
pub mod placement;
pub mod planning;
pub mod requests;
pub mod sending;
pub mod sessions;
pub mod settings;
pub mod shown;
pub mod wire;
