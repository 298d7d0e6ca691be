//! What the operations of the router keep, and how they relate to each other.
pub mod effects;
pub mod order;
pub mod round;
pub mod storage;
pub mod terms;
