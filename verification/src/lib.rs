//! A time-triggered task scheduler driven by a free-running tick counter.
//!
//! The counter is a ring of 2^32 ticks. Instants on it are ordered within half
//! the ring, a fixed set of tasks owns one queue slot each, and every dispatch
//! cycle pops the due entries in priority order, runs their bodies and tells
//! the caller for which instant to arm the hardware comparator next.
//! Hardware is never touched here: the caller reads the counter, drives the
//! output lines and programs the comparator.

pub mod body;
pub mod dispatcher;
pub mod due;
pub mod fault;
pub mod led;
pub mod queue;
pub mod resource;
pub mod task;
pub mod time;
pub mod vectors;
