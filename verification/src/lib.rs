//! A one-shot chat client for OpenAI-compatible language models: the
//! verified core that decides what is sent, how replies are post-processed
//! and how the local history is kept.
pub mod text;
pub mod thinking;
pub mod thinking_laws;
pub mod config;
pub mod history;
pub mod cli;
pub mod completions;
pub mod openai;
pub mod client;
