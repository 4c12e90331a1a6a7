//! A dual-pane browser between a local and a remote file system, with the background
//! transfer manager behind it, and the SSH host list it starts from.
//!
//! - `paths`: remote path join and parent, shell quoting, collision-free local names.
//! - `listing`: directory entries, their order, the transport's listing and size output.
//! - `transfer`: the queue and bounded pool of single-file downloads.
//! - `folder`, `upload`: the step-by-step state of folder downloads and of uploads.
//! - `progress`: worker events, their aggregation, and the progress line.
//! - `browser`: the two panels and the key handling.
//! - `models`, `forms`, `matcher`, `colors`: hosts, folders, forms, filters, theme colours.
//! - `text`: string helpers shared by the rest.

pub mod paths;
pub mod text;
pub mod listing;
pub mod transfer;
pub mod progress;
pub mod folder;
pub mod upload;
pub mod browser;
pub mod models;
pub mod forms;
pub mod matcher;
pub mod colors;
