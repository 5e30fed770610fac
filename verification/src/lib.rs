pub mod text;
pub mod json;
pub mod log_follower;
pub mod match_payload;
pub mod gre_assembler;
pub mod config;
pub mod log_path;
pub mod local_stats;
pub mod outbox;
pub mod settings;
pub mod poster;
pub mod watcher;
pub mod identity;
