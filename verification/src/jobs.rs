//! The single active download: starting one is refused while another runs,
//! a cancellation is remembered, and the end of a download is reported as
//! cancelled only when that very download was cancelled.

use vstd::prelude::*;
use crate::catalog::opt_text;
use crate::text::str_equals;

verus! {

/// The download in progress.
pub struct ActiveDownload {
    pub job_id: String,
    pub cancelled: bool,
}

/// The slot that holds at most one active download.
pub struct DownloadSlot {
    active: Option<ActiveDownload>,
}

/// The job id and cancellation flag of the active download, if any.
pub type SlotState = Option<(Seq<char>, bool)>;

impl View for DownloadSlot {
    type V = SlotState;

    closed spec fn view(&self) -> SlotState {
        match self.active {
            Some(a) => Some((a.job_id@, a.cancelled)),
            None => None,
        }
    }
}

/// The state after a download with id `job_id` starts.
pub open spec fn begun(job_id: Seq<char>) -> SlotState {
    Some((job_id, false))
}

/// The state after a cancellation request.
pub open spec fn cancelled(s: SlotState) -> SlotState {
    match s {
        Some((id, _)) => Some((id, true)),
        None => None,
    }
}

/// Whether the end of download `job_id` counts as cancelled in state `s`.
pub open spec fn ended_cancelled(s: SlotState, job_id: Seq<char>) -> bool {
    match s {
        Some((id, c)) => c && id == job_id,
        None => false,
    }
}

impl DownloadSlot {
    /// An empty slot.
    pub fn new() -> (slot: Self)
        ensures
            slot@ is None,
    {
        DownloadSlot { active: None }
    }

    /// Refuses while a download is active.
    pub fn ensure_idle(&self) -> (r: Result<(), String>)
        ensures
            r is Ok <==> self@ is None,
            r matches Err(e) ==> e@ == "Wait for the active download to finish first"@,
    {
        if self.active.is_some() {
            return Err(String::from_str("Wait for the active download to finish first"));
        }
        Ok(())
    }

    /// Records download `job_id` as active and not cancelled.
    pub fn begin(&mut self, job_id: String)
        ensures
            final(self)@ == begun(job_id@),
    {
        self.active = Some(ActiveDownload { job_id, cancelled: false });
    }

    /// Marks the active download as cancelled; returns whether there was one,
    /// whose processes must then be terminated.
    pub fn cancel(&mut self) -> (r: bool)
        ensures
            r == old(self)@ is Some,
            final(self)@ == cancelled(old(self)@),
    {
        match self.active.take() {
            Some(a) => {
                self.active = Some(ActiveDownload { job_id: a.job_id, cancelled: true });
                true
            },
            None => false,
        }
    }

    /// Empties the slot at the end of download `job_id`; returns whether it
    /// was cancelled.
    pub fn finish(&mut self, job_id: &str) -> (r: bool)
        ensures
            final(self)@ is None,
            r == ended_cancelled(old(self)@, job_id@),
    {
        match self.active.take() {
            Some(a) => a.cancelled && str_equals(a.job_id.as_str(), job_id),
            None => false,
        }
    }
}

/// The report at the end of a download.
pub struct DownloadDone {
    pub job_id: String,
    pub success: bool,
    pub cancelled: bool,
    pub exit_code: Option<i32>,
    pub error: Option<String>,
}

/// How a download process ended: its exit status (success and code), or
/// the error of waiting for it.
pub struct ExitOutcome {
    pub status: Result<(bool, Option<i32>), String>,
}

/// The report of download `job_id`: successful only when the process
/// succeeded and was not cancelled.
pub fn download_done(job_id: String, cancelled: bool, outcome: ExitOutcome) -> (d: DownloadDone)
    ensures
        d.job_id@ == job_id@,
        d.cancelled == cancelled,
        match outcome.status {
            Ok((success, code)) => d.success == (success && !cancelled) && d.exit_code == code
                && d.error is None,
            Err(e) => !d.success && d.exit_code is None && opt_text(d.error) == Some(e@),
        },
{
    match outcome.status {
        Ok((success, code)) => DownloadDone {
            job_id,
            success: success && !cancelled,
            cancelled,
            exit_code: code,
            error: None,
        },
        Err(e) => DownloadDone { job_id, success: false, cancelled, exit_code: None, error: Some(e) },
    }
}

/// A download ends as cancelled exactly when it was cancelled after it
/// began, whatever came before it.
pub proof fn law_cancel_then_finish(job_id: Seq<char>)
    ensures
        ended_cancelled(cancelled(begun(job_id)), job_id),
        !ended_cancelled(begun(job_id), job_id),
        !ended_cancelled(None, job_id),
{
}

} // verus!
