use dumpy::engine::{
    after_read_error, message_is_truncation, packet_action, skip_file_unordered, ExportJob,
    ExportStatus, PacketAction, ReadErrorKind, RunDirective,
};
use dumpy::worker::{
    classify_diag, response_status, Directive, LogLevel, LogRecord, Orchestrator, StreamEvent,
};

#[test]
fn packet_window_decisions() {
    assert_eq!(packet_action(None, None, 5), PacketAction::Write);
    assert_eq!(packet_action(Some(10), None, 5), PacketAction::Skip);
    assert_eq!(packet_action(Some(10), None, 50), PacketAction::Write);
    assert_eq!(packet_action(Some(10), Some(5), 15), PacketAction::Write);
    assert_eq!(packet_action(Some(10), Some(5), 16), PacketAction::Stop);
    // the window bound is computed without overflowing
    assert_eq!(packet_action(Some(i64::MAX), Some(i64::MAX), 7), PacketAction::Skip);
}

#[test]
fn export_counts_and_status() {
    // window [8, 23]: 5 is skipped, 10 and 20 written, 30 stops the run
    let mut job = ExportJob::new();
    let start = Some(8);
    let dur = Some(15);
    let mut stopped = false;
    for t in [5i64, 10, 20, 30] {
        match job.on_packet(start, dur, t) {
            PacketAction::Stop => {
                stopped = true;
                break;
            }
            _ => {}
        }
    }
    assert!(stopped);
    assert_eq!(job.written, 2);
    assert_eq!(job.status(), ExportStatus::Success);
}

#[test]
fn export_no_match_reports_no_packet() {
    let mut job = ExportJob::new();
    for t in [1i64, 2, 3] {
        job.on_packet(Some(10), Some(5), t);
    }
    assert_eq!(job.written, 0);
    assert_eq!(job.status(), ExportStatus::NoPacket);
}

#[test]
fn read_error_handling() {
    assert_eq!(after_read_error(ReadErrorKind::EndOfFile, false), RunDirective::NextFile);
    assert_eq!(after_read_error(ReadErrorKind::Truncated, true), RunDirective::NextFile);
    assert_eq!(after_read_error(ReadErrorKind::Other, true), RunDirective::NextFile);
    assert_eq!(after_read_error(ReadErrorKind::Other, false), RunDirective::AbortRun);
    assert!(message_is_truncation("file appears truncated at packet 9"));
    assert!(!message_is_truncation("permission denied"));
}

#[test]
fn unordered_fallback_skip() {
    assert!(skip_file_unordered(5, Some(10)));
    assert!(!skip_file_unordered(10, Some(10)));
    assert!(!skip_file_unordered(5, None));
}

#[test]
fn orchestrator_first_byte_fixes_success() {
    let mut o = Orchestrator::new();
    assert_eq!(o.on_event(StreamEvent::Diag), Directive::Proceed);
    assert_eq!(o.on_event(StreamEvent::Chunk(100)), Directive::SignalAndSend);
    assert_eq!(o.on_event(StreamEvent::SendOk(100)), Directive::Proceed);
    assert_eq!(o.on_event(StreamEvent::Chunk(50)), Directive::Send);
    assert_eq!(o.on_event(StreamEvent::SendOk(50)), Directive::Proceed);
    assert_eq!(o.bytes_sent, 150);
    assert_eq!(o.on_event(StreamEvent::Chunk(0)), Directive::Drain);
    assert!(!o.drain_kill());
    // the handler was already notified with the first byte
    assert_eq!(o.on_event(StreamEvent::FinalStatus(true)), Directive::Finished);
}

#[test]
fn orchestrator_clean_exit_without_bytes() {
    let mut o = Orchestrator::new();
    assert_eq!(o.on_event(StreamEvent::TaskExited), Directive::Drain);
    assert!(!o.drain_kill());
    assert_eq!(
        o.on_event(StreamEvent::FinalStatus(true)),
        Directive::Notify(ExportStatus::NoPacket)
    );
}

#[test]
fn orchestrator_failure_without_bytes() {
    let mut o = Orchestrator::new();
    assert_eq!(o.on_event(StreamEvent::DiagClosed), Directive::Drain);
    assert_eq!(
        o.on_event(StreamEvent::FinalStatus(false)),
        Directive::Notify(ExportStatus::Error)
    );
}

#[test]
fn disconnect_kills_task() {
    // a disconnect mid-stream drains with the kill directive set
    let mut o = Orchestrator::new();
    assert_eq!(o.on_event(StreamEvent::Chunk(10)), Directive::SignalAndSend);
    assert_eq!(o.on_event(StreamEvent::OutputClosed), Directive::Drain);
    assert!(o.drain_kill());

    // a failed send means the same
    let mut o = Orchestrator::new();
    assert_eq!(o.on_event(StreamEvent::Chunk(10)), Directive::SignalAndSend);
    assert_eq!(o.on_event(StreamEvent::SendFailed), Directive::Drain);
    assert!(o.drain_kill());
}

#[test]
fn response_codes() {
    assert_eq!(response_status(ExportStatus::Success), 200);
    assert_eq!(response_status(ExportStatus::NoPacket), 404);
    assert_eq!(response_status(ExportStatus::Error), 500);
}

#[test]
fn diagnostic_classification() {
    let rec = LogRecord { level: LogLevel::Info, message: "scanning".to_string() };
    let out = classify_diag(Some(rec), "raw".to_string());
    assert_eq!(out.level, LogLevel::Info);
    assert_eq!(out.message, "scanning");

    let out = classify_diag(None, "not json".to_string());
    assert_eq!(out.level, LogLevel::Error);
    assert_eq!(out.message, "not json");
}
