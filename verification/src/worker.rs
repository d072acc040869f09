//! Export worker orchestrator: the state machine that drives a streaming
//! export for the HTTP path. The caller runs the concurrent loop — reading
//! byte chunks, diagnostic records and the task's exit — and feeds each
//! observation in; the orchestrator decides what to do, fixes the terminal
//! status the handler is waiting on exactly once, and directs the forced
//! termination of the task when the client has gone away.

use vstd::prelude::*;
use crate::engine::ExportStatus;

verus! {

/// The severity of a diagnostic record.
#[derive(Clone, Copy, Debug, PartialEq, Eq, Structural)]
pub enum LogLevel {
    Info,
    Error,
}

/// One diagnostic record re-emitted by the orchestrator.
pub struct LogRecord {
    pub level: LogLevel,
    pub message: String,
}

/// Re-emits a decoded diagnostic record as it is; a line that did not
/// decode is emitted at error severity with its raw text.
pub fn classify_diag(rec: Option<LogRecord>, raw: String) -> (r: LogRecord)
    ensures
        match rec {
            Option::Some(rc) => r == rc,
            Option::None => r.level == LogLevel::Error && r.message == raw,
        },
{
    match rec {
        Some(rc) => rc,
        None => LogRecord { level: LogLevel::Error, message: raw },
    }
}

/// Where the orchestrator stands: multiplexing the stream, draining after a
/// terminal condition, or done.
#[derive(Clone, Copy, Debug, PartialEq, Eq, Structural)]
pub enum Phase {
    Streaming,
    Draining,
    Done,
}

/// One observation the loop feeds in: the task ended, the client's channel
/// closed, the diagnostic channel closed or yielded a record, a byte chunk
/// arrived (0 bytes is end of stream), a send succeeded or failed, or the
/// task's final exit status became known.
#[derive(Clone, Copy, Debug, PartialEq, Eq, Structural)]
pub enum StreamEvent {
    TaskExited,
    OutputClosed,
    DiagClosed,
    Diag,
    Chunk(u64),
    SendOk(u64),
    SendFailed,
    FinalStatus(bool),
}

/// What the loop must do after a step: carry on, notify the handler that
/// bytes are coming and send the chunk, send the chunk, leave the streaming
/// loop, deliver the terminal status, or nothing more.
#[derive(Clone, Copy, Debug, PartialEq, Eq, Structural)]
pub enum Directive {
    Proceed,
    SignalAndSend,
    Send,
    Drain,
    Notify(ExportStatus),
    Finished,
}

/// The orchestrator's state: the phase, how many bytes were handed to the
/// client, the terminal status already fixed for the handler (if any), and
/// whether the client disconnected.
pub struct Orchestrator {
    pub phase: Phase,
    pub bytes_sent: u64,
    pub notified: Option<ExportStatus>,
    pub client_closed: bool,
}

/// The fresh state a request starts in.
pub open spec fn spec_init() -> Orchestrator {
    Orchestrator {
        phase: Phase::Streaming,
        bytes_sent: 0,
        notified: Option::None,
        client_closed: false,
    }
}

/// Which events may be fed in: stream observations while streaming, and the
/// task's final status while draining.
pub open spec fn spec_event_allowed(o: Orchestrator, ev: StreamEvent) -> bool {
    match ev {
        StreamEvent::FinalStatus(_) => o.phase == Phase::Draining,
        _ => o.phase == Phase::Streaming,
    }
}

/// A byte count so many higher, stopping at the top of the range.
pub open spec fn add_sat(w: u64, n: u64) -> u64 {
    if w + n > u64::MAX {
        u64::MAX
    } else {
        (w + n) as u64
    }
}

/// One step of the orchestrator: the next state and what the loop must do.
/// The first byte chunk fixes the terminal status at success; the task
/// finishing first fixes it at `no_packet` on a clean exit with no bytes and
/// `error` otherwise; a closed client channel or failed send marks the
/// client gone, which the drain turns into a forced task termination.
pub open spec fn spec_step(o: Orchestrator, ev: StreamEvent) -> (Orchestrator, Directive) {
    match ev {
        StreamEvent::TaskExited => (
            Orchestrator { phase: Phase::Draining, ..o },
            Directive::Drain,
        ),
        StreamEvent::OutputClosed => (
            Orchestrator { phase: Phase::Draining, client_closed: true, ..o },
            Directive::Drain,
        ),
        StreamEvent::DiagClosed => (
            Orchestrator { phase: Phase::Draining, ..o },
            Directive::Drain,
        ),
        StreamEvent::Diag => (o, Directive::Proceed),
        StreamEvent::Chunk(n) => if n == 0 {
            (Orchestrator { phase: Phase::Draining, ..o }, Directive::Drain)
        } else if o.notified is None {
            (
                Orchestrator { notified: Option::Some(ExportStatus::Success), ..o },
                Directive::SignalAndSend,
            )
        } else {
            (o, Directive::Send)
        },
        StreamEvent::SendOk(n) => (
            Orchestrator { bytes_sent: add_sat(o.bytes_sent, n), ..o },
            Directive::Proceed,
        ),
        StreamEvent::SendFailed => (
            Orchestrator { phase: Phase::Draining, client_closed: true, ..o },
            Directive::Drain,
        ),
        StreamEvent::FinalStatus(success) => if o.notified is None {
            (
                Orchestrator {
                    phase: Phase::Done,
                    notified: Option::Some(
                        if success {
                            ExportStatus::NoPacket
                        } else {
                            ExportStatus::Error
                        },
                    ),
                    ..o
                },
                Directive::Notify(
                    if success {
                        ExportStatus::NoPacket
                    } else {
                        ExportStatus::Error
                    },
                ),
            )
        } else {
            (Orchestrator { phase: Phase::Done, ..o }, Directive::Finished)
        },
    }
}

impl Orchestrator {
    /// The state a request starts in.
    pub fn new() -> (r: Self)
        ensures
            r == spec_init(),
    {
        Orchestrator {
            phase: Phase::Streaming,
            bytes_sent: 0,
            notified: None,
            client_closed: false,
        }
    }

    /// Feeds one observation in and returns what to do next.
    pub fn on_event(&mut self, ev: StreamEvent) -> (d: Directive)
        requires
            spec_event_allowed(*old(self), ev),
        ensures
            *final(self) == spec_step(*old(self), ev).0,
            d == spec_step(*old(self), ev).1,
    {
        match ev {
            StreamEvent::TaskExited => {
                self.phase = Phase::Draining;
                Directive::Drain
            },
            StreamEvent::OutputClosed => {
                self.phase = Phase::Draining;
                self.client_closed = true;
                Directive::Drain
            },
            StreamEvent::DiagClosed => {
                self.phase = Phase::Draining;
                Directive::Drain
            },
            StreamEvent::Diag => Directive::Proceed,
            StreamEvent::Chunk(n) => {
                if n == 0 {
                    self.phase = Phase::Draining;
                    Directive::Drain
                } else if self.notified.is_none() {
                    self.notified = Some(ExportStatus::Success);
                    Directive::SignalAndSend
                } else {
                    Directive::Send
                }
            },
            StreamEvent::SendOk(n) => {
                if n > u64::MAX - self.bytes_sent {
                    self.bytes_sent = u64::MAX;
                } else {
                    self.bytes_sent = self.bytes_sent + n;
                }
                Directive::Proceed
            },
            StreamEvent::SendFailed => {
                self.phase = Phase::Draining;
                self.client_closed = true;
                Directive::Drain
            },
            StreamEvent::FinalStatus(success) => {
                self.phase = Phase::Done;
                if self.notified.is_none() {
                    let status = if success {
                        ExportStatus::NoPacket
                    } else {
                        ExportStatus::Error
                    };
                    self.notified = Some(status);
                    Directive::Notify(status)
                } else {
                    Directive::Finished
                }
            },
        }
    }

    /// Whether the drain must forcibly terminate the export task: exactly
    /// when the client already disconnected.
    pub fn drain_kill(&self) -> (kill: bool)
        requires
            self.phase == Phase::Draining,
        ensures
            kill == self.client_closed,
    {
        self.client_closed
    }
}

/// The HTTP status each terminal export status is answered with.
pub fn response_status(s: ExportStatus) -> (c: u16)
    ensures
        s is Success ==> c == 200,
        s is NoPacket ==> c == 404,
        s is Error ==> c == 500,
{
    match s {
        ExportStatus::Success => 200,
        ExportStatus::NoPacket => 404,
        ExportStatus::Error => 500,
    }
}

/// The state a run of events from `o` ends in.
pub open spec fn spec_run(o: Orchestrator, evs: Seq<StreamEvent>) -> Orchestrator
    decreases evs.len(),
{
    if evs.len() == 0 {
        o
    } else {
        spec_run(spec_step(o, evs.first()).0, evs.drop_first())
    }
}

/// Every event of the run is fed in a phase that allows it.
pub open spec fn valid_trace(o: Orchestrator, evs: Seq<StreamEvent>) -> bool
    decreases evs.len(),
{
    if evs.len() == 0 {
        true
    } else {
        spec_event_allowed(o, evs.first()) && valid_trace(
            spec_step(o, evs.first()).0,
            evs.drop_first(),
        )
    }
}

/// How many steps of the run notify the handler of a terminal status.
pub open spec fn notify_count(o: Orchestrator, evs: Seq<StreamEvent>) -> nat
    decreases evs.len(),
{
    if evs.len() == 0 {
        0
    } else {
        let d = spec_step(o, evs.first()).1;
        (if d is SignalAndSend || d is Notify {
            1nat
        } else {
            0nat
        }) + notify_count(spec_step(o, evs.first()).0, evs.drop_first())
    }
}

/// How many steps of the run hand a byte chunk to the client.
pub open spec fn send_count(o: Orchestrator, evs: Seq<StreamEvent>) -> nat
    decreases evs.len(),
{
    if evs.len() == 0 {
        0
    } else {
        let d = spec_step(o, evs.first()).1;
        (if d is SignalAndSend || d is Send {
            1nat
        } else {
            0nat
        }) + send_count(spec_step(o, evs.first()).0, evs.drop_first())
    }
}

/// A notification is emitted exactly when the fixed status goes from none
/// to some, so a run emits as many notifications as it fixes statuses.
proof fn lemma_notify_tracks_notified(o: Orchestrator, evs: Seq<StreamEvent>)
    ensures
        notify_count(o, evs) + (if o.notified is Some {
            1int
        } else {
            0int
        }) == (if spec_run(o, evs).notified is Some {
            1int
        } else {
            0int
        }) || (o.notified is Some && notify_count(o, evs) == 0 && spec_run(
            o,
            evs,
        ).notified is Some),
    decreases evs.len(),
{
    if evs.len() > 0 {
        lemma_notify_tracks_notified(spec_step(o, evs.first()).0, evs.drop_first());
    }
}

/// Single-notification law: a run started fresh notifies the HTTP handler
/// of a terminal status at most once, and exactly once when the run ends
/// with the task's final status.
pub proof fn lemma_single_notification(evs: Seq<StreamEvent>)
    requires
        valid_trace(spec_init(), evs),
    ensures
        notify_count(spec_init(), evs) <= 1,
        evs.len() > 0 && (evs.last() matches StreamEvent::FinalStatus(_)) ==> notify_count(
            spec_init(),
            evs,
        ) == 1,
    decreases evs.len(),
{
    lemma_notify_tracks_notified(spec_init(), evs);
    lemma_run_final_notifies(spec_init(), evs);
}

/// After a final-status event the fixed status is always set.
proof fn lemma_run_final_notifies(o: Orchestrator, evs: Seq<StreamEvent>)
    ensures
        evs.len() > 0 && (evs.last() matches StreamEvent::FinalStatus(_)) ==> spec_run(
            o,
            evs,
        ).notified is Some,
    decreases evs.len(),
{
    if evs.len() > 0 {
        lemma_run_final_notifies(spec_step(o, evs.first()).0, evs.drop_first());
        if evs.len() == 1 {
            assert(evs.last() == evs.first());
        } else {
            assert(evs.drop_first().last() == evs.last());
            assert(evs.drop_first().len() > 0);
        }
    }
}

/// Once the orchestrator has left the streaming phase, a valid run sends
/// the client nothing further.
proof fn lemma_no_sends_after_streaming(o: Orchestrator, evs: Seq<StreamEvent>)
    requires
        o.phase != Phase::Streaming,
        valid_trace(o, evs),
    ensures
        send_count(o, evs) == 0,
    decreases evs.len(),
{
    if evs.len() > 0 {
        lemma_no_sends_after_streaming(spec_step(o, evs.first()).0, evs.drop_first());
    }
}

/// Disconnect law: when the client's channel closes mid-stream, the
/// orchestrator enters the draining phase with the client marked gone — so
/// the drain forcibly terminates the export task — and no valid
/// continuation delivers another byte to the client.
pub proof fn lemma_disconnect_cancels(o: Orchestrator, evs: Seq<StreamEvent>)
    requires
        o.phase == Phase::Streaming,
        valid_trace(spec_step(o, StreamEvent::OutputClosed).0, evs),
    ensures
        spec_step(o, StreamEvent::OutputClosed).0.phase == Phase::Draining,
        spec_step(o, StreamEvent::OutputClosed).0.client_closed,
        spec_step(o, StreamEvent::OutputClosed).1 == Directive::Drain,
        send_count(spec_step(o, StreamEvent::OutputClosed).0, evs) == 0,
{
    lemma_no_sends_after_streaming(spec_step(o, StreamEvent::OutputClosed).0, evs);
}

} // verus!
