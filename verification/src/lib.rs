pub mod api;
pub mod channels;
pub mod chat;
pub mod cluster;
pub mod config;
pub mod config_doc;
pub mod db;
pub mod reranker;
pub mod scheduler;
pub mod setup;
pub mod sources;
pub mod text;
