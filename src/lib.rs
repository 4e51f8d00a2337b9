//! A persistent overwriting ring buffer and the decisions of a sensor node's
//! wake cycle built on top of it.

pub mod arr_deque;
pub mod line_protocol;
pub mod wake_cycle;
