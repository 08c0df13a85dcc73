//! Verified core of `nget`, a resumable, multi-connection HTTP downloader.
//!
//! The library holds the downloader's rules: how a file is cut into byte
//! ranges, how progress is booked against those ranges, when a previous
//! download may be resumed, how the server's answer is read, and how the
//! progress display keeps its counters.  The network, the disk and the
//! terminal are driven by the application around it.

pub mod config;
pub mod http_values;
pub mod ranges;
pub mod chunk;
pub mod session;
pub mod state_manager;
pub mod report;
pub mod progress;

pub use config::{Cli, DownloadConfig, DownloadRange, DownloadState};
pub use progress::ProgressTracker;
pub use session::{DownloadError, RemoteInfo, StartPlan, TransferMode};
pub use state_manager::StateManager;
