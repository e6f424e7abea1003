//! Where data goes and where work is done.
pub mod placement;
pub mod planner;
pub mod topology;
