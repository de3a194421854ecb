//! Loads a set of named, hierarchical tags from a JSON document and publishes
//! them over MQTT, individually and as an aggregated snapshot.
//!
//! The crate is organised around three contracts: a `TagRepository` owning
//! the authoritative tag set, an `MqttPublisher` emitting messages, and a
//! `TagService` sequencing the two. File and network transport live outside
//! the crate; the logic here works on plain strings and byte vectors.

pub mod cli;
pub mod codec;
pub mod commands;
pub mod error;
pub mod publisher;
pub mod repository;
pub mod service;
mod strutil;
pub mod tag;
pub mod tag_map;

pub use cli::{Cli, CliHandler, Commands};
pub use commands::{CommandFactory, CommandHandler, RunCommandHandler, UpdateCommandHandler};
pub use error::UnsError;
pub use publisher::{MemoryMqttClient, MqttClient, MqttMessage, MqttPublisher, MqttTagPublisher, TagDatabase};
pub use repository::{JsonTagRepository, TagRepository};
pub use service::{TagService, TagServiceImpl};
pub use tag::Tag;
pub use tag_map::{TagEntry, TagMap};
