//! A lightweight persistence layer built on command/query separation and
//! event sourcing: incoming events are stored and handed to registered
//! commands that update an in-memory aggregate; after a restart the stored
//! events are replayed to rebuild the aggregate.

pub mod error;
pub mod event;
pub mod registry;
pub mod sink;
pub mod dms;
pub mod phonebook;
pub mod file_system_storage;
pub mod api;
