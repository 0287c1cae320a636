pub mod config;
pub mod error;
pub mod init;
pub mod launch;
pub mod listing;
pub mod local;
pub mod templates;
pub mod text;
