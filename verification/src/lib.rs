//! Verified core of the ArmoniK API tooling.
pub mod buffer;
pub mod client;
pub mod indexer;
pub mod config;
pub mod matcher;
pub mod descriptor;
pub mod enumeration;

pub mod text;
pub mod emit;
pub mod error;
pub mod grammar;
pub mod expect;
pub mod index;
pub mod item;
pub mod kind;
pub mod names;
pub mod oneof;
pub mod order;
pub mod comment;
pub mod service;
pub mod shape;
