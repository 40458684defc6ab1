//! The run-wide keep policy: whether destruction is suppressed.  Signals
//! may change it while adapters run, so every read sees the policy of that
//! moment.
use vstd::prelude::*;

use std::sync::atomic::AtomicBool;
use std::sync::Arc;

verus! {

/// Whether destruction is suppressed; shared with the signal handlers that
/// change it.
pub struct KeepMode {
    pub enabled: Arc<AtomicBool>,
}

impl KeepMode {
    /// A policy that starts as `enabled`.
    pub fn new(enabled: bool) -> (r: KeepMode) {
        KeepMode { enabled: Arc::new(AtomicBool::new(enabled)) }
    }

    /// The policy at this moment.
    pub fn enabled(&self) -> (r: bool) {
        self.enabled.load(std::sync::atomic::Ordering::SeqCst)
    }
}

/// The message printed for a keep-mode notification byte.
pub open spec fn notification_text(notification: u8) -> Seq<char> {
    if notification == 1 {
        "\n\nCVD: keep mode enabled (SIGUSR1)\n"@
    } else {
        "\n\nCVD: keep mode disabled (SIGUSR2)\n"@
    }
}

/// The message printed for a keep-mode notification byte: `1` when a
/// signal enabled keep mode, anything else when one disabled it.
pub fn notification_message(notification: u8) -> (r: &'static str)
    ensures
        r@ == notification_text(notification),
{
    if notification == 1 {
        "\n\nCVD: keep mode enabled (SIGUSR1)\n"
    } else {
        "\n\nCVD: keep mode disabled (SIGUSR2)\n"
    }
}

/// What a notification reader does after one read.
pub enum ReadOutcome {
    /// The read returned these bytes.
    Data(Vec<u8>),
    /// The writing end is closed.
    Closed,
    /// The read was interrupted before any byte arrived.
    Interrupted,
    /// The read failed.
    Failed,
}

/// What the notification listener does next: print these messages and
/// read again, or stop.
pub enum ListenerStep {
    Print(Vec<&'static str>),
    Retry,
    Stop,
}

/// The next step of the notification listener after a read.  A failure to
/// print never stops it: only a closed or failed reader does.
pub fn listener_step(outcome: &ReadOutcome) -> (r: ListenerStep)
    ensures
        outcome is Closed || outcome is Failed <==> r is Stop,
        outcome is Interrupted <==> r is Retry,
        outcome matches ReadOutcome::Data(bytes) ==> r matches ListenerStep::Print(messages) && messages@.len()
            == bytes@.len() && forall|i: int|
            0 <= i < bytes@.len() ==> (#[trigger] messages@[i])@ == notification_text(bytes@[i]),
{
    match outcome {
        ReadOutcome::Data(bytes) => {
            let mut messages: Vec<&'static str> = Vec::new();
            let mut i: usize = 0;
            while i < bytes.len()
                invariant
                    i <= bytes@.len(),
                    messages@.len() == i,
                    forall|j: int| 0 <= j < i ==> (#[trigger] messages@[j])@ == notification_text(bytes@[j]),
                decreases bytes.len() - i,
            {
                messages.push(notification_message(bytes[i]));
                i = i + 1;
            }
            ListenerStep::Print(messages)
        },
        ReadOutcome::Closed => ListenerStep::Stop,
        ReadOutcome::Interrupted => ListenerStep::Retry,
        ReadOutcome::Failed => ListenerStep::Stop,
    }
}

} // verus!
