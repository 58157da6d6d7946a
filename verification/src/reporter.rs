//! The progress reporter: turns byte counters into throttled edit
//! operations. At most one edit is pending at any time, and the final
//! report is emitted exactly once.

use vstd::prelude::*;

verus! {

/// Throttling thresholds; tunable configuration.
pub struct ReporterConfig {
    /// Seconds that must pass since the last report before a new edit.
    pub min_interval_secs: u64,
    /// Bytes that must accumulate since the last report before a new edit.
    pub min_bytes: u64,
}

/// What one progress edit says.
pub struct EditPayload {
    /// Bytes transferred so far.
    pub bytes: u64,
    /// Total bytes, when known.
    pub total: Option<u64>,
    /// Whether this is the final report.
    pub done: bool,
}

/// Per-task progress state, written by the transfer engine and turned into
/// edits here.
pub struct ProgressReporter {
    /// Bytes transferred so far.
    pub bytes_transferred: u64,
    /// Total bytes, unknown until the source reports it.
    pub total_bytes: Option<u64>,
    /// When the last report was emitted.
    pub last_reported_at: u64,
    /// The byte counter at the last report.
    pub last_reported_bytes: u64,
    /// Whether an emitted edit has not completed yet.
    pub pending_edit: bool,
    /// Whether the final report has been emitted.
    pub final_reported: bool,
    /// The thresholds in force.
    pub cfg: ReporterConfig,
}

/// Whether an update at `now` with the counter at `bytes` crosses both
/// throttling thresholds of `s` while no edit is pending.
pub open spec fn update_emits(s: ProgressReporter, now: int, bytes: int) -> bool {
    &&& !s.pending_edit
    &&& !s.final_reported
    &&& now >= s.last_reported_at + s.cfg.min_interval_secs
    &&& bytes >= s.last_reported_bytes + s.cfg.min_bytes
}

impl ProgressReporter {
    /// A fresh reporter, started at `started_at`.
    pub fn new(cfg: ReporterConfig, started_at: u64) -> (r: Self)
        ensures
            r.bytes_transferred == 0,
            r.total_bytes is None,
            r.last_reported_at == started_at,
            r.last_reported_bytes == 0,
            !r.pending_edit,
            !r.final_reported,
            r.cfg == cfg,
    {
        ProgressReporter {
            bytes_transferred: 0,
            total_bytes: None,
            last_reported_at: started_at,
            last_reported_bytes: 0,
            pending_edit: false,
            final_reported: false,
            cfg,
        }
    }

    /// Records the total size once the source reports it.
    pub fn set_total(&mut self, total: u64)
        ensures
            *final(self) == (ProgressReporter { total_bytes: Some(total), ..*old(self) }),
    {
        self.total_bytes = Some(total);
    }

    /// Accounts `delta` freshly transferred bytes at time `now`, and emits
    /// an edit exactly when both thresholds are crossed and no earlier
    /// edit is still pending: never more than one pending edit at a time.
    pub fn update(&mut self, now: u64, delta: u64) -> (r: Option<EditPayload>)
        requires
            old(self).bytes_transferred + delta <= u64::MAX,
            now >= old(self).last_reported_at,
            !old(self).final_reported,
        ensures
            final(self).bytes_transferred == old(self).bytes_transferred + delta,
            final(self).total_bytes == old(self).total_bytes,
            final(self).cfg == old(self).cfg,
            !final(self).final_reported,
            r is Some <==> update_emits(
                *old(self),
                now as int,
                old(self).bytes_transferred + delta,
            ),
            old(self).pending_edit ==> r is None,
            match r {
                Some(p) => {
                    &&& p.bytes == old(self).bytes_transferred + delta
                    &&& p.total == old(self).total_bytes
                    &&& !p.done
                    &&& final(self).pending_edit
                    &&& final(self).last_reported_at == now
                    &&& final(self).last_reported_bytes == final(self).bytes_transferred
                },
                None => {
                    &&& final(self).pending_edit == old(self).pending_edit
                    &&& final(self).last_reported_at == old(self).last_reported_at
                    &&& final(self).last_reported_bytes == old(self).last_reported_bytes
                },
            },
    {
        self.bytes_transferred = self.bytes_transferred + delta;
        let interval_ok = now - self.last_reported_at >= self.cfg.min_interval_secs;
        let bytes_ok = self.bytes_transferred >= self.last_reported_bytes
            && self.bytes_transferred - self.last_reported_bytes >= self.cfg.min_bytes;
        if !self.pending_edit && interval_ok && bytes_ok {
            self.pending_edit = true;
            self.last_reported_at = now;
            self.last_reported_bytes = self.bytes_transferred;
            Some(
                EditPayload {
                    bytes: self.bytes_transferred,
                    total: self.total_bytes,
                    done: false,
                },
            )
        } else {
            None
        }
    }

    /// Marks the pending edit as delivered.
    pub fn edit_done(&mut self)
        ensures
            *final(self) == (ProgressReporter { pending_edit: false, ..*old(self) }),
    {
        self.pending_edit = false;
    }

    /// Emits the final report. The first call returns it, whatever the
    /// thresholds say; every later call returns nothing: exactly once.
    pub fn finalize(&mut self, now: u64) -> (r: Option<EditPayload>)
        ensures
            final(self).final_reported,
            final(self).bytes_transferred == old(self).bytes_transferred,
            final(self).total_bytes == old(self).total_bytes,
            final(self).cfg == old(self).cfg,
            r is Some <==> !old(self).final_reported,
            match r {
                Some(p) => {
                    &&& p.bytes == old(self).bytes_transferred
                    &&& p.total == old(self).total_bytes
                    &&& p.done
                    &&& final(self).pending_edit
                    &&& final(self).last_reported_at == now
                    &&& final(self).last_reported_bytes == old(self).bytes_transferred
                },
                None => *final(self) == *old(self),
            },
    {
        if self.final_reported {
            None
        } else {
            self.final_reported = true;
            self.pending_edit = true;
            self.last_reported_at = now;
            self.last_reported_bytes = self.bytes_transferred;
            Some(
                EditPayload {
                    bytes: self.bytes_transferred,
                    total: self.total_bytes,
                    done: true,
                },
            )
        }
    }
}

/// While an edit is pending, no update emits another, whatever the time
/// and the counters: a task never has two edits in flight.
pub proof fn lemma_single_pending_edit(s: ProgressReporter, now: int, bytes: int)
    ensures
        s.pending_edit ==> !update_emits(s, now, bytes),
{
}

/// Once the final report is out, neither an update nor a second finalize
/// emits again: the final state is reported exactly once.
pub proof fn lemma_final_report_once(s: ProgressReporter, now: int, bytes: int)
    ensures
        s.final_reported ==> !update_emits(s, now, bytes),
{
}

} // verus!
