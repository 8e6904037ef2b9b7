//! A task-list core: an in-memory task collection with validated text,
//! a debounced persistence scheduler, and a byte codec for durable storage.

pub mod codec;
pub mod errors;
pub mod laws;
pub mod sched;
pub mod service;
pub mod store;
pub mod task;
pub mod text;
