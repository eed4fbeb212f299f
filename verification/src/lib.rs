//! A durable agent harness: agents as managed, resumable workers.
pub mod agent;
pub mod auth;
pub mod cli;
pub mod harness;
pub mod hash;
pub mod ids;
pub mod json;
pub mod json_laws;
pub mod llm;
pub mod path;
pub mod place_laws;
pub mod sandbox;
pub mod store;
pub mod text;
pub mod text_laws;
pub mod tools;
