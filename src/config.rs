//! Settings the pipeline reads, as plain values.

use vstd::prelude::*;

verus! {

/// Where chatbox messages go and how they are paced.
#[derive(Clone)]
pub struct OscConfig {
    pub address: String,
    pub input_port: u16,
    pub output_port: u16,
    /// Chunks of one message that are sent; the rest is dropped.
    pub max_message_chunks: usize,
    /// Milliseconds between two chunks.
    pub display_time: u64,
}

/// Credentials and model of the language service.
#[derive(Clone)]
pub struct OpenAiConfig {
    pub api_key: String,
    pub model: String,
}

#[derive(Clone)]
pub struct TranslationConfig {
    pub target_language: String,
    /// Whether the chatbox shows the transcript under its translation.
    pub include_original_message: bool,
}

#[derive(Clone)]
pub struct RateLimitConfig {
    pub requests_per_minute: usize,
}

} // verus!
