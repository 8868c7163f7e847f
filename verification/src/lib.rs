//! Sequential core of a worker pool: the task queue, the join barrier of a
//! batch, the alarm and the pool's registries with the hand-off
//! protocol. Each piece is a plain value that its owner mutates; a runtime
//! that shares them between threads puts each behind a lock of its own.

pub mod child;
pub mod locks;
pub mod mapjoin;
pub mod pool;
pub mod queue;
