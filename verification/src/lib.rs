//! Core of a conversational inference orchestrator: a bounded chat history,
//! a prompt builder, web-link enrichment of user input, token/batch budget
//! sizing, the autoregressive decode state machine, word-boundary-safe output
//! chunking, and a single-permit gate that serializes generation requests.

pub mod chunker;
pub mod decode;
pub mod gate;
pub mod history;
pub mod links;
pub mod prompt;
pub mod request;
pub mod sizing;
pub mod text;
