//! Who is in the cluster and who leads it.
pub mod discovery;
pub mod election;
pub mod membership;
