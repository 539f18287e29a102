//! A fixed-size worker pool, stated and proved in Verus.
//!
//! The library holds the pool's logic: the FIFO job queue with its closed
//! state, the worker's dispatch decisions, the pool's construction and its
//! ordered teardown, and the request routing of the small HTTP front end that
//! feeds the pool. Threads, locks and sockets are left to the program that
//! drives it.

pub mod queue;

pub use queue::{JobQueue, Recv};
pub mod pool;

pub use pool::{Pool, PoolError, Worker};
pub mod worker;

pub use worker::Phase;
pub mod http;
