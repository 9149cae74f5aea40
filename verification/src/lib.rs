pub mod archive;
pub mod auth;
pub mod clipboard;
pub mod codecs;
pub mod digests;
pub mod error;
pub mod ids;
pub mod lru_cache;
pub mod path;
pub mod sync;
pub mod text;
pub mod urls;
pub mod workflow;
