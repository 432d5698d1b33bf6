//! The pollable singleton status rows: scan progress and artist-sync
//! progress. The HTTP layer reads them; the coordinator and the sync
//! service write them.

use vstd::prelude::*;

verus! {

/// The singleton scan status row.
#[derive(Debug, Clone, PartialEq, Eq)]
pub struct ScanStatus {
    pub is_scanning: bool,
    pub current_count: u32,
    pub total_count: u32,
    /// Seconds-since-epoch of the last completed run, if any.
    pub last_scan_at: Option<u64>,
}

/// The singleton artist-sync status row.
#[derive(Debug, Clone, PartialEq, Eq)]
pub struct ArtistSyncStatus {
    pub is_syncing: bool,
    pub current_count: u32,
    pub total_count: u32,
    /// Seconds-since-epoch of the last completed batch, if any.
    pub last_sync_at: Option<u64>,
    /// The last per-item failure of the current batch, if any.
    pub last_error: Option<String>,
}

/// The wire shape in which the scan status is reported to clients.
#[derive(Debug, Clone, PartialEq, Eq)]
pub struct ScanStatusResponse {
    pub is_scanning: bool,
    pub current_count: u32,
    pub total_count: u32,
}

impl ScanStatus {
    /// A fresh, idle status row.
    pub fn new() -> (r: ScanStatus)
        ensures
            !r.is_scanning,
            r.current_count == 0,
            r.total_count == 0,
            r.last_scan_at is None,
    {
        ScanStatus { is_scanning: false, current_count: 0, total_count: 0, last_scan_at: None }
    }

    /// The snapshot handed to a polling client; a missing row reads as
    /// an idle zero row on the wire, which this type cannot be missing.
    pub fn to_response(&self) -> (r: ScanStatusResponse)
        ensures
            r.is_scanning == self.is_scanning,
            r.current_count == self.current_count,
            r.total_count == self.total_count,
    {
        ScanStatusResponse {
            is_scanning: self.is_scanning,
            current_count: self.current_count,
            total_count: self.total_count,
        }
    }
}

impl ArtistSyncStatus {
    /// A fresh, idle status row.
    pub fn new() -> (r: ArtistSyncStatus)
        ensures
            !r.is_syncing,
            r.current_count == 0,
            r.total_count == 0,
            r.last_sync_at is None,
            r.last_error is None,
    {
        ArtistSyncStatus {
            is_syncing: false,
            current_count: 0,
            total_count: 0,
            last_sync_at: None,
            last_error: None,
        }
    }
}

} // verus!
