//! Core logic of a local media vault: tag maps, the log ring buffer, media
//! classification, preview bookkeeping, and the background worker's decisions.

pub mod text;
pub mod str_map;
pub mod tags_file;
pub mod layout;
pub mod descriptions_file;
pub mod log_buffer;
pub mod models;
pub mod queries;
pub mod media;
pub mod thumbnail;
pub mod worker;
pub mod protocol;
pub mod preferences;
pub mod embedding;
pub mod schema;
pub mod logging;
