use vstd::prelude::*;

verus! {

/// Static configuration of the torrent client.
#[derive(Debug, Clone)]
pub struct TorrentConfig {
    pub download_directory: String,
    pub listen_port_start: u16,
    pub listen_port_end: u16,
    pub enable_dht: bool,
    pub enable_upnp: bool,
    pub sequential_by_default: bool,
}

/// What to do with a torrent once its seeding limits are reached.
#[derive(Debug, Clone, Copy, PartialEq, Eq, Structural)]
pub enum SeedLimitAction {
    Pause,
    Remove,
}

/// Lifecycle of a torrent.
#[derive(Debug, Clone, Copy, PartialEq, Eq, Structural)]
pub enum TorrentState {
    Initializing,
    Downloading,
    Seeding,
    Paused,
    Checking,
    Error,
    Queued,
}

/// A request to add a torrent, by magnet link or file.
#[derive(Debug, Clone)]
pub struct AddTorrentParams {
    pub source: String,
    pub source_type: String,
    pub output_folder: Option<String>,
    pub selected_files: Option<Vec<usize>>,
    pub paused: bool,
    pub sequential: bool,
}

/// Session-wide transfer speed limits, in bytes per second.
#[derive(Debug, Clone)]
pub struct SpeedLimits {
    pub download_limit_bytes: Option<u64>,
    pub upload_limit_bytes: Option<u64>,
}

} // verus!
