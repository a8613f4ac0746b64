//! The JSON Lines query protocol and the pure decisions of its server runtime.

pub mod listener;
pub mod protocol;
pub mod runtime;
pub mod service;
