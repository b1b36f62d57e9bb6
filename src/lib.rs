//! A diary store: dated markdown entries, deduplicated by date and content,
//! tagged with a strictly increasing execution version.
pub mod date;
pub mod text;
pub mod entry;
pub mod error;
pub mod storage;
pub mod processor;
pub mod config;
pub mod diary;
pub mod laws;
pub mod schema;
pub mod merger;
pub mod journal;

pub use config::Config;
pub use diary::RustyDiary;
pub use error::RustyDiaryError;
