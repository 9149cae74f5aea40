pub mod adapter;
pub mod archive_service;
pub mod backend;
pub mod extract;
pub mod extract_cache;
pub mod hehe_backend;
pub mod hehe_format;
pub mod hehe_paths;
pub mod hehe_sources;
pub mod hehe_toc;
pub mod image_webp;
pub mod open_session;
pub mod parser;
pub mod path_safety;
pub mod preview_cache;
pub mod preview_thumb;
pub mod preview_uri;
pub mod registry;
pub mod seven_zip;
pub mod sevenz_fallback;
pub mod temp_session;
pub mod thumb_disk_cache;
pub mod zip_backend;
pub mod zip_read;
