//! Keeps the requests of a session on one worker.
//!
//! A session is bound to a worker when its first request has selected one, and stays bound
//! while requests of it are running and for some time after. Routers tell each other of their
//! bindings; of two bindings of one session the one with the higher version stands.

pub mod coordinator;
pub mod entries;
pub mod laws;
pub mod service_laws;
pub mod state;
pub mod types;
