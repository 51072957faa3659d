//! A real-time session broker: a registry of live connections with topic
//! subscriptions, a router for inbound text frames, and a station manager that
//! keeps joined connections in step with a shared, persisted media queue.

pub mod handler;
pub mod manager;
pub mod registry;
pub mod router;
pub mod station;
pub mod text;
pub mod timer;
