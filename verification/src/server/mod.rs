//! The serving side: slot selection, prefix reuse, scheduling and streaming.
pub mod slots;
pub mod prefix_cache;
pub mod stop;
pub mod inference;
pub mod sequence;
pub mod worker;
pub mod admission;
pub mod lifecycle_laws;
pub mod media;
pub mod scheduler;
pub mod serving_laws;
pub mod steps;
pub mod eviction;
pub mod decode;
pub mod setup;
pub mod bench;
pub mod transcript;
pub mod types;
pub mod convert;
pub mod convert_laws;
pub mod prompts;
pub mod stream;
pub mod stream_laws;
pub mod respond;
pub mod state;
pub mod config;
pub mod static_assets;
