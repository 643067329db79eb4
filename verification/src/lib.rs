//! Ingestion and classification pipeline for keyword-tracked posts.
//!
//! Posts arrive on a filtered stream, are batched and classified, and each
//! classified post is stored once for every tracked keyword that it
//! contains. This library holds the decisions of that pipeline; reading the
//! stream, running the model and writing to the database are the caller's.
//!
//! - Classifier scores and their signed form are in `sentiment`.
//! - Keyword matching on post texts is in `text`.
//! - The classification worker's request queue is in `classifier`.
//! - Entries and the store that holds them are in `database`.
//! - The stream runner is in `twitter_stream`, and what holds of it in every
//!   state in `stream_laws`.
//! - Helpers for the charts are in `data`.
//! - Configuration is in `settings`.
//! - What the web routes hand to the HTTP layer is in `server`.

pub mod classifier;
pub mod data;
pub mod database;
pub mod sentiment;
pub mod server;
pub mod settings;
pub mod stream_laws;
pub mod text;
pub mod twitter_stream;

pub use self::classifier::SentimentClassifier;
pub use self::database::SentimentDB;
pub use self::settings::Settings;
pub use self::twitter_stream::TwitterStreamRunner;
