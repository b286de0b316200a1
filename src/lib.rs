//! A single-threaded, coroutine-based script VM embedded in a host loop.
//!
//! Script threads run small stack programs; when a thread yields it may ask
//! for asynchronous work, which the host completes later. The runtime
//! scheduler advances exactly one unit of work per `run_once` call, servicing
//! completed work strictly in the order it was registered.

pub mod script;
pub mod thread;
pub mod model;
pub mod vm;
pub mod laws;
pub mod host;
