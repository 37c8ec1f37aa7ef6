//! A verified core for a tracker-attachment downloader.
//!
//! The library models issue keys, timestamps, tracker responses, the
//! per-attachment download state machine, and the on-disk incident
//! layout. Network and filesystem I/O stay with the embedding
//! application, which hands responses and directory listings in as
//! plain values; every decision taken on them is computed and proved
//! here.

pub mod config;
pub mod downloader;
pub mod jira;
pub mod json;
pub mod storage;
pub mod text;
pub mod timestamp;
