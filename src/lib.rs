//! Speech segmentation, admission control, cost accounting and chatbox framing
//! for a live microphone translation pipeline.
//!
//! Audio samples are carried as the bit patterns of IEEE-754 single-precision
//! values, times as millisecond counts and money as whole nano-dollars, so that
//! every rule below is stated and proved over plain integers.

pub mod chatbox;
pub mod config;
pub mod dispatch;
pub mod gate;
pub mod price_estimator;
pub mod rate_limiter;
pub mod recording_manager;
pub mod segmenter;
pub mod text;
pub mod translation;
pub mod wav;
