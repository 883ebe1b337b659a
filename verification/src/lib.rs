//! merle: a local coding assistant that does not trust the model but the tests.
//!
//! This crate is what merle decides and computes. Reading files, running commands, asking the
//! model and searching the memory are left to the caller: [`fix::Fix`] and [`agent::Agent`] say
//! what is to be done next, and are told what came of it.

pub mod agent;
pub mod agent_laws;
pub mod command;
pub mod diff;
pub mod failure;
pub mod fix;
pub mod fix_laws;
pub mod guard;
pub mod json;
pub mod memory;
pub mod message;
pub mod reply;
pub mod request;
pub mod stream;
pub mod text;
pub mod tools;
