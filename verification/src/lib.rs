//! A fixed-capacity circular buffer for 32-bit integers, in two variants
//! that share one verified enqueue/dequeue contract: a generic-capacity
//! variant that maps cursors to slots by remainder, and a power-of-two
//! variant that maps them by bitmask.

pub mod masked;
pub mod model;
pub mod modular;
pub mod ring;

pub use crate::masked::RingBuffer1;
pub use crate::modular::RingBuffer0;
pub use crate::ring::fill_drain_cycle;
pub use crate::ring::RingBuffer;
