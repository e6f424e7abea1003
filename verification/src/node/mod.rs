//! What a node is and can do.
pub mod capabilities;
pub mod cpu;
pub mod gpu;
pub mod memory;
pub use self::capabilities::{NetworkCapabilities, NodeCapabilities, RuntimeCapabilities};
