//! A minimal asynchronous I/O runtime core: a reactor that couples a
//! token-to-waker table, a cooperative task executor with a FIFO ready queue,
//! and a timer wheel. Each component carries a mathematical model of its
//! state, and the operations' contracts are stated and proved over those
//! models. Readiness polling and the raw socket handles live outside this
//! crate and feed the reactor plain token and task values.

pub mod queue;
pub mod reactor;
pub mod table;
pub mod task;
pub mod timer;

use vstd::prelude::*;

verus! {

/// Number of slots in one revolution of the timer wheel.
pub const WHEEL_SIZE: usize = 256;

/// Milliseconds covered by one slot of the timer wheel.
pub const SLOT_DURATION_MS: u64 = 10;

} // verus!
