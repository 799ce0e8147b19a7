//! Printer events and printer states, as far as notifications and the API
//! decide on them.
use vstd::prelude::*;

verus! {

/// What happened at the printer.
#[derive(Debug, Clone)]
pub enum EventKind {
    PrintStarted,
    PrintFinished,
    PrintPaused,
    PrintResumed,
    PrintStopped,
    /// Print progress reached this many percent.
    ProgressMilestone(u8),
    FailureNotifyThreshold,
    FailurePauseThreshold,
    AutoPaused,
    CameraLost,
    CameraRestored,
    Connected,
    Disconnected,
    /// The machine reported a status code, with its description.
    PhaseChanged(i64, String),
    DetectionEngineError,
}

/// One event of the printer, with the snapshot file taken for it, if any.
#[derive(Debug, Clone)]
pub struct PrinterEvent {
    pub kind: EventKind,
    pub snapshot: Option<String>,
}

impl EventKind {
    pub fn duplicate(&self) -> (r: EventKind)
        ensures
            r == *self,
    {
        match self {
            EventKind::PrintStarted => EventKind::PrintStarted,
            EventKind::PrintFinished => EventKind::PrintFinished,
            EventKind::PrintPaused => EventKind::PrintPaused,
            EventKind::PrintResumed => EventKind::PrintResumed,
            EventKind::PrintStopped => EventKind::PrintStopped,
            EventKind::ProgressMilestone(p) => EventKind::ProgressMilestone(*p),
            EventKind::FailureNotifyThreshold => EventKind::FailureNotifyThreshold,
            EventKind::FailurePauseThreshold => EventKind::FailurePauseThreshold,
            EventKind::AutoPaused => EventKind::AutoPaused,
            EventKind::CameraLost => EventKind::CameraLost,
            EventKind::CameraRestored => EventKind::CameraRestored,
            EventKind::Connected => EventKind::Connected,
            EventKind::Disconnected => EventKind::Disconnected,
            EventKind::PhaseChanged(c, s) => EventKind::PhaseChanged(*c, s.clone()),
            EventKind::DetectionEngineError => EventKind::DetectionEngineError,
        }
    }
}

impl PrinterEvent {
    pub fn duplicate(&self) -> (r: PrinterEvent)
        ensures
            r == *self,
    {
        PrinterEvent {
            kind: self.kind.duplicate(),
            snapshot: match &self.snapshot {
                Some(s) => Some(s.clone()),
                None => None,
            },
        }
    }
}

/// Whether a print job is under way.
#[derive(Debug, Clone, Copy, PartialEq, Eq, Structural)]
pub enum PrintState {
    Printing,
    Paused,
    /// Any state without an active job.
    Inactive,
}

/// The machine status, reduced to what the API checks.
#[derive(Debug, Clone, Copy, PartialEq, Eq, Structural)]
pub enum NormalizedStatus {
    Idle,
    Printing,
    PrintCompleted,
    Canceled,
    /// Any other machine status.
    Busy,
}

} // verus!
