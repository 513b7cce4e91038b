//! The decision core of a segmented HTTP downloader.
pub mod api;
pub mod checksum;
pub mod cli;
pub mod command;
pub mod delivery;
pub mod effort;
pub mod engine;
pub mod errors;
pub mod headers;
pub mod limiter;
pub mod plan;
pub mod progress;
pub mod run;
pub mod scheduler;
pub mod storage;
pub mod text;
pub mod tiling;
pub mod types;
pub mod worker;
