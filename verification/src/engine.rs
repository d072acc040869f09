//! Export engine: the per-packet decisions of a filtered, time-windowed
//! scan over capture files, the running export state, and how read errors
//! end a file or the whole run.

use vstd::prelude::*;
use crate::strutil::{contains_seq, str_chars, chars_contain};

verus! {

/// The terminal state of an export: packets were written, none matched, or
/// the run failed.
#[derive(Clone, Copy, Debug, PartialEq, Eq, Structural)]
pub enum ExportStatus {
    Success,
    NoPacket,
    Error,
}

/// What the scan does with one packet: pass over it, write it out, or end
/// the whole run.
#[derive(Clone, Copy, Debug, PartialEq, Eq, Structural)]
pub enum PacketAction {
    Skip,
    Write,
    Stop,
}

/// A packet timestamped `secs` lies inside the export window: at or after
/// the start, and no later than start plus duration when one is set; with no
/// start bound every packet lies inside.
pub open spec fn spec_in_window(start: Option<i64>, duration: Option<i64>, secs: int) -> bool {
    match start {
        Option::None => true,
        Option::Some(st) => secs >= st && match duration {
            Option::None => true,
            Option::Some(d) => secs <= st + d,
        },
    }
}

/// The scan's decision for one packet: a packet before the window is
/// skipped without stopping the scan; one after the window ends the whole
/// run, relying on time-ordered input; anything else is written.
pub open spec fn spec_packet_action(
    start: Option<i64>,
    duration: Option<i64>,
    secs: i64,
) -> PacketAction {
    match start {
        Option::None => PacketAction::Write,
        Option::Some(st) => if secs < st {
            PacketAction::Skip
        } else {
            match duration {
                Option::Some(d) => if secs > st + d {
                    PacketAction::Stop
                } else {
                    PacketAction::Write
                },
                Option::None => PacketAction::Write,
            }
        },
    }
}

/// Decides what the scan does with a packet timestamped `secs`.
pub fn packet_action(start: Option<i64>, duration: Option<i64>, secs: i64) -> (a: PacketAction)
    ensures
        a == spec_packet_action(start, duration, secs),
        a is Write <==> spec_in_window(start, duration, secs as int),
{
    match start {
        None => PacketAction::Write,
        Some(st) => {
            if secs < st {
                PacketAction::Skip
            } else {
                match duration {
                    Some(d) => {
                        if (secs as i128) > (st as i128) + (d as i128) {
                            PacketAction::Stop
                        } else {
                            PacketAction::Write
                        }
                    },
                    None => PacketAction::Write,
                }
            }
        },
    }
}

/// A packet count one higher, stopping at the top of the range.
pub open spec fn inc_sat(w: u64) -> u64 {
    if w == u64::MAX {
        w
    } else {
        (w + 1) as u64
    }
}

/// The terminal status of a finished run that wrote this many packets.
pub open spec fn spec_job_status(written: u64) -> ExportStatus {
    if written > 0 {
        ExportStatus::Success
    } else {
        ExportStatus::NoPacket
    }
}

/// The running state of one export: how many packets have been written.
/// The output stream itself is created lazily by the caller on the first
/// written packet, so a finished job with no packets leaves no artifact.
pub struct ExportJob {
    pub written: u64,
}

impl ExportJob {
    /// A fresh export: nothing written.
    pub fn new() -> (r: Self)
        ensures
            r.written == 0,
    {
        ExportJob { written: 0 }
    }

    /// Decides one packet and counts it when it is written.
    pub fn on_packet(&mut self, start: Option<i64>, duration: Option<i64>, secs: i64) -> (a:
        PacketAction)
        ensures
            a == spec_packet_action(start, duration, secs),
            final(self).written == if a is Write {
                inc_sat(old(self).written)
            } else {
                old(self).written
            },
    {
        let a = packet_action(start, duration, secs);
        if let PacketAction::Write = a {
            if self.written < u64::MAX {
                self.written = self.written + 1;
            }
        }
        a
    }

    /// The terminal status once the scan is over: `ok` exactly when some
    /// packet was written, else `no_packet`.
    pub fn status(&self) -> (s: ExportStatus)
        ensures
            s == spec_job_status(self.written),
    {
        if self.written > 0 {
            ExportStatus::Success
        } else {
            ExportStatus::NoPacket
        }
    }
}

/// Timestamps never descend.
pub open spec fn sorted_times(times: Seq<i64>) -> bool {
    forall|i: int, j: int| 0 <= i < j < times.len() ==> times[i] <= times[j]
}

/// How many packets of a matched, time-ordered stream the scan writes: the
/// count up to the first packet past the window.
pub open spec fn run_written(times: Seq<i64>, start: Option<i64>, duration: Option<i64>) -> nat
    decreases times.len(),
{
    if times.len() == 0 {
        0
    } else {
        match spec_packet_action(start, duration, times.first()) {
            PacketAction::Stop => 0,
            PacketAction::Write => 1 + run_written(times.drop_first(), start, duration),
            PacketAction::Skip => run_written(times.drop_first(), start, duration),
        }
    }
}

/// The status such a run ends in.
pub open spec fn run_status(times: Seq<i64>, start: Option<i64>, duration: Option<i64>)
    -> ExportStatus {
    spec_job_status(run_written(times, start, duration) as u64)
}

/// Export-status law: over a time-ordered stream of filter-matched packets,
/// the run writes nothing and reports `no_packet` exactly when no packet
/// lies in the window, and reports success with a positive count exactly when
/// some packet does.
pub proof fn lemma_export_status(times: Seq<i64>, start: Option<i64>, duration: Option<i64>)
    requires
        sorted_times(times),
        run_written(times, start, duration) <= u64::MAX,
    ensures
        run_written(times, start, duration) == 0 <==> (forall|i: int|
            0 <= i < times.len() ==> !spec_in_window(start, duration, #[trigger] times[i] as int)),
        run_status(times, start, duration) == ExportStatus::NoPacket <==> (forall|i: int|
            0 <= i < times.len() ==> !spec_in_window(start, duration, #[trigger] times[i] as int)),
        run_status(times, start, duration) == ExportStatus::Success <==> (exists|i: int|
            0 <= i < times.len() && spec_in_window(start, duration, #[trigger] times[i] as int)),
    decreases times.len(),
{
    if times.len() > 0 {
        let rest = times.drop_first();
        assert(sorted_times(rest)) by {
            assert(forall|i: int, j: int|
                0 <= i < j < rest.len() ==> rest[i] == times[i + 1] && rest[j] == times[j + 1]);
        }
        match spec_packet_action(start, duration, times.first()) {
            PacketAction::Stop => {
                let st = start.unwrap();
                let d = duration.unwrap();
                assert forall|i: int| 0 <= i < times.len() implies !spec_in_window(
                    start,
                    duration,
                    #[trigger] times[i] as int,
                ) by {
                    assert(times[0] > st + d);
                    assert(times[i] >= times[0]);
                }
            },
            PacketAction::Write => {
                lemma_export_status(rest, start, duration);
                assert(spec_in_window(start, duration, times[0] as int));
            },
            PacketAction::Skip => {
                lemma_export_status(rest, start, duration);
                assert(!spec_in_window(start, duration, times[0] as int));
                assert forall|i: int|
                    0 <= i < rest.len() ==> rest[i] == times[i + 1] by {}
                if run_written(times, start, duration) == 0 {
                    assert forall|i: int| 0 <= i < times.len() implies !spec_in_window(
                        start,
                        duration,
                        #[trigger] times[i] as int,
                    ) by {
                        if i > 0 {
                            assert(times[i] == rest[i - 1]);
                        }
                    }
                } else {
                    let w = choose|i: int|
                        0 <= i < rest.len() && spec_in_window(
                            start,
                            duration,
                            #[trigger] rest[i] as int,
                        );
                    assert(times[w + 1] == rest[w]);
                }
            },
        }
    }
}

/// How a read error is classified by the caller that drives the capture
/// reader.
#[derive(Clone, Copy, Debug, PartialEq, Eq, Structural)]
pub enum ReadErrorKind {
    EndOfFile,
    Truncated,
    Other,
}

/// What the run does after a file's scan ends on a read error.
#[derive(Clone, Copy, Debug, PartialEq, Eq, Structural)]
pub enum RunDirective {
    NextFile,
    AbortRun,
}

/// End-of-file and declared truncation end only that file; any other read
/// error ends the file and, in a direct single-shot invocation, the whole
/// run — a streaming export goes on to the next file.
pub fn after_read_error(kind: ReadErrorKind, streaming: bool) -> (r: RunDirective)
    ensures
        kind is EndOfFile || kind is Truncated ==> r == RunDirective::NextFile,
        kind is Other ==> r == (if streaming {
            RunDirective::NextFile
        } else {
            RunDirective::AbortRun
        }),
{
    match kind {
        ReadErrorKind::EndOfFile => RunDirective::NextFile,
        ReadErrorKind::Truncated => RunDirective::NextFile,
        ReadErrorKind::Other => {
            if streaming {
                RunDirective::NextFile
            } else {
                RunDirective::AbortRun
            }
        },
    }
}

/// Whether a capture reader's error message declares a truncated file,
/// which counts as normal termination for that file.
pub fn message_is_truncation(msg: &str) -> (r: bool)
    ensures
        r == contains_seq(msg@, "truncated"@),
{
    let v = str_chars(msg);
    let needle = str_chars("truncated");
    proof {
        reveal_strlit("truncated");
    }
    chars_contain(&v, &needle)
}

/// In the unordered fallback scan, a file is passed over exactly when its
/// modification time precedes the window start.
pub fn skip_file_unordered(modified: u64, start_time: Option<i64>) -> (r: bool)
    requires
        start_time matches Some(st) ==> st >= 0,
    ensures
        r == match start_time {
            Option::Some(st) => (modified as int) < st as int,
            Option::None => false,
        },
{
    match start_time {
        Some(st) => modified < st as u64,
        None => false,
    }
}

} // verus!
