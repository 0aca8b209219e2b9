//! Synchronization bookkeeping.

pub mod resource_tracker;
pub mod safety;

pub use resource_tracker::ResourceTracker;
