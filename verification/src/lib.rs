//! The verified core of a local runner for Qwen3 language models.
//!
//! Device arrays live outside this crate: it knows their shapes, and carries
//! them as handles. What the device is to do (the programs of a forward pass, of
//! the rope and of sampling, the growth of the caches, the order of decoding) and
//! what surrounds it (reuse of caches between prompts, assignment of weights,
//! tokenizer definitions) is decided here on plain values, with proofs.

pub mod cache;
pub mod config;
pub mod error;
pub mod generate;
pub mod meaning;
pub mod models;
pub mod plan;
pub mod prompt_cache;
pub mod sample;
pub mod single;
pub mod text;
pub mod tokenizer;
pub mod weights;
