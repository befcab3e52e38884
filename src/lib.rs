//! A read-through cache layer: a weight-bounded least-recently-used store, a
//! lock-guarded accessor with a disabled variant, read-through loading, and the
//! bookkeeping of a disk tier.
pub mod lru;
pub mod laws;
pub mod accessor;
pub mod disk;
pub mod reader;
pub mod log_element;
