//! Host-side machinery for an embedded, reference-counted script runtime:
//! fixed-capacity resource heaps, the effect permission state machine, and the
//! bridge between the frame loop and the network worker.

pub mod heap;
pub mod registry;
pub mod mode;
pub mod bridge;
pub mod lifecycle;
pub mod host;
