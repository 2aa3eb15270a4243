//! Progress reports of an extraction, for the caller to show as it likes.

use vstd::prelude::*;

verus! {

/// Receives progress reports during an extraction. Every method has a
/// default that ignores the report.
pub trait ExtractProgress {
    /// An entry of the package is about to be extracted to `path`.
    fn entry_start(&self, _path: &str, _current: usize, _total: usize) {
    }

    /// An entry is skipped (it cannot be decrypted, for one).
    fn entry_skipped(&self, _path: &str, _reason: &str) {
    }

    /// All the entries are done.
    fn entries_completed(&self, _extracted: usize, _skipped: usize) {
    }

    /// The files of the PFS are about to be extracted.
    fn pfs_start(&self, _total_items: usize) {
    }

    /// A directory of the PFS is being created.
    fn pfs_directory(&self, _path: &str) {
    }

    /// A file of the PFS is about to be extracted.
    fn pfs_file(&self, _path: &str, _size: u64) {
    }

    /// A file of the PFS has been written.
    fn pfs_file_completed(&self, _written: u64) {
    }

    /// The PFS is done.
    fn pfs_completed(&self) {
    }
}

/// Progress that is not reported anywhere.
pub struct SilentProgress;

impl ExtractProgress for SilentProgress {
}

} // verus!
