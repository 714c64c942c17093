//! The change-detection engine: owns the snapshot of the watched file's last
//! observed content and turns each freshly read content into a diff report.
//!
//! The engine does no I/O itself. The caller reads the file and hands the
//! bytes in; the engine diffs them against its snapshot, replaces the
//! snapshot with the new content, and returns the report.

use vstd::prelude::*;
use crate::diff::{compute_diff, diff_entries, DiffReport};

verus! {

/// Owns the last observed content of the watched file. Between notification
/// cycles the snapshot equals, byte for byte, the content the caller last
/// handed in: the engine never reports a diff against bytes it has not
/// stored.
pub struct Engine {
    snapshot: Vec<u8>,
}

impl Engine {
    /// The bytes of the last observed content.
    pub closed spec fn snapshot_bytes(&self) -> Seq<u8> {
        self.snapshot@
    }

    /// Starts the engine from the initially read content, which becomes the
    /// first snapshot.
    pub fn new(initial_content: Vec<u8>) -> (e: Engine)
        ensures
            e.snapshot_bytes() == initial_content@,
    {
        Engine { snapshot: initial_content }
    }

    /// Handles one change notification: diffs the snapshot (old) against the
    /// freshly read content (new), replaces the snapshot with that content,
    /// and returns the report. The report carries a size-change notice
    /// exactly when the two lengths differ, and one entry per differing
    /// position, in increasing position order.
    pub fn process_notification(&mut self, new_content: Vec<u8>) -> (r: DiffReport)
        ensures
            final(self).snapshot_bytes() == new_content@,
            r.entries@ == diff_entries(old(self).snapshot_bytes(), new_content@),
            r.size_change == if old(self).snapshot_bytes().len() == new_content@.len() {
                None::<(usize, usize)>
            } else {
                (
                Some(
                    (
                        old(self).snapshot_bytes().len() as usize,
                        new_content@.len() as usize,
                    ),
                )
                )
            },
    {
        let report = compute_diff(&self.snapshot, &new_content);
        self.snapshot = new_content;
        report
    }

    /// Read access to the current snapshot.
    pub fn snapshot(&self) -> (s: &Vec<u8>)
        ensures
            s@ == self.snapshot_bytes(),
    {
        &self.snapshot
    }
}

} // verus!
