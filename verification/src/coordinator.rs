//! The coordinator's status-loop decisions and the control messages.
//!
//! The queues, the barrier and the one-second timeout are runtime plumbing;
//! the decision each status message forces is pure and lives here.

use vstd::prelude::*;

verus! {

/// Status reported by the workers to the coordinator.
pub enum StatusMessage {
    PlaybackReady,
    CaptureReady,
    PlaybackError { message: String },
    CaptureError { message: String },
    PlaybackDone,
    CaptureDone,
}

/// Control sent to the capture worker. The speed ratio adjustment is a
/// fixed-point multiplicative factor.
pub enum CommandMessage {
    Exit,
    SetSpeed { speed: i64 },
}

/// What the coordinator does in response to one status message.
#[derive(Clone, Copy, PartialEq, Eq, Structural, Debug)]
pub enum CoordinatorAction {
    Continue,
    ReleaseBarrier,
    FinishOk,
    FinishError,
}

/// The coordinator's startup state: which workers have reported ready and
/// whether the start barrier has been released.
pub struct Coordinator {
    pub pb_ready: bool,
    pub cap_ready: bool,
    pub released: bool,
}

impl Coordinator {
    pub fn new() -> (r: Coordinator)
        ensures
            !r.pb_ready,
            !r.cap_ready,
            !r.released,
    {
        Coordinator { pb_ready: false, cap_ready: false, released: false }
    }

    /// Process one status message.
    ///
    /// The barrier is released exactly once, at the moment both workers
    /// have reported ready, so no audio can flow before both backends are
    /// open. `PlaybackDone` ends the run successfully; either error ends
    /// it with a failure; `CaptureDone` only notes that playback will
    /// drain and finish on its own.
    pub fn handle_status(&mut self, msg: &StatusMessage) -> (act: CoordinatorAction)
        requires
            old(self).released ==> old(self).pb_ready && old(self).cap_ready,
        ensures
            final(self).pb_ready == (old(self).pb_ready || msg is PlaybackReady),
            final(self).cap_ready == (old(self).cap_ready || msg is CaptureReady),
            final(self).released == (old(self).released || (final(self).pb_ready
                && final(self).cap_ready && (msg is PlaybackReady || msg is CaptureReady))),
            act is ReleaseBarrier <==> (final(self).released && !old(self).released),
            final(self).released ==> final(self).pb_ready && final(self).cap_ready,
            act is FinishOk <==> msg is PlaybackDone,
            act is FinishError <==> (msg is PlaybackError || msg is CaptureError),
    {
        match msg {
            StatusMessage::PlaybackReady => {
                self.pb_ready = true;
                if self.cap_ready && !self.released {
                    self.released = true;
                    CoordinatorAction::ReleaseBarrier
                } else {
                    CoordinatorAction::Continue
                }
            },
            StatusMessage::CaptureReady => {
                self.cap_ready = true;
                if self.pb_ready && !self.released {
                    self.released = true;
                    CoordinatorAction::ReleaseBarrier
                } else {
                    CoordinatorAction::Continue
                }
            },
            StatusMessage::PlaybackDone => CoordinatorAction::FinishOk,
            StatusMessage::PlaybackError { .. } => CoordinatorAction::FinishError,
            StatusMessage::CaptureError { .. } => CoordinatorAction::FinishError,
            StatusMessage::CaptureDone => CoordinatorAction::Continue,
        }
    }
}

} // verus!
