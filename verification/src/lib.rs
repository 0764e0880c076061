//! Decision logic of a small chat agent: command recognition, the job
//! pipeline and its persistent queue, prompt and response handling for the
//! language model, and the text that the tool index is built from.

pub mod text;
pub mod command;
pub mod job;
pub mod table;
pub mod store;
pub mod scheduler;
pub mod inference;
pub mod tools;
pub mod agent;
pub mod laws;

