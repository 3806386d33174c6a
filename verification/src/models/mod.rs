//! Model architectures.

pub mod pass;
pub mod qwen3;
pub mod rope;
pub mod rows;
