use dsd_util::logs::{
    display_name, format_error_line, format_log_line, LineKind, LogLine, LogMux, StreamKind,
    WorkerEvent,
};

fn line(stream: StreamKind, ts: &str, text: &str) -> WorkerEvent {
    WorkerEvent::Line { stream, timestamp: ts.to_string(), text: text.to_string() }
}

#[test]
fn plain_log_line_format() {
    assert_eq!(format_log_line("2024-01-01 10:00:00", "web", "hello", false), "[2024-01-01 10:00:00 | web] hello");
}

#[test]
fn colored_log_line_format() {
    assert_eq!(
        format_log_line("T", "web", "hello", true),
        "[\x1b[1;36mT\x1b[0m | \x1b[1;32mweb\x1b[0m] hello"
    );
}

#[test]
fn error_line_format() {
    assert_eq!(format_error_line("web", false), "[ERROR] - Failed to log web");
    assert_eq!(format_error_line("web", true), "\x1b[1;31m[ERROR] - Failed to log web\x1b[0m");
}

#[test]
fn display_name_uses_lookup_for_ids() {
    assert_eq!(display_name("3f2a", true, Some("/web\n")), "web");
}

#[test]
fn display_name_falls_back_to_target() {
    assert_eq!(display_name("3f2a", true, None), "3f2a");
    assert_eq!(display_name("3f2a", true, Some("\n")), "3f2a");
    assert_eq!(display_name("web", false, Some("/other")), "web");
}

#[test]
fn two_targets_lines_are_attributed_and_stream_closes() {
    let mut mux = LogMux::new(vec!["a".to_string(), "b".to_string()]);
    let mut seen: Vec<LogLine> = Vec::new();
    let events = vec![
        (0, WorkerEvent::Started),
        (1, WorkerEvent::Started),
        (0, line(StreamKind::Stdout, "t1", "a1")),
        (1, line(StreamKind::Stderr, "t2", "b1")),
        (0, line(StreamKind::Stdout, "t3", "a2")),
        (0, WorkerEvent::Closed(StreamKind::Stdout)),
        (0, WorkerEvent::Closed(StreamKind::Stderr)),
        (1, WorkerEvent::Closed(StreamKind::Stdout)),
    ];
    for (w, e) in events {
        assert!(!mux.is_finished());
        if let Some(l) = mux.handle(w, e) {
            seen.push(l);
        }
    }
    assert!(!mux.is_finished());
    assert!(mux.handle(1, WorkerEvent::Closed(StreamKind::Stderr)).is_none());
    assert!(mux.is_finished());
    assert_eq!(seen.len(), 3);
    let a: Vec<&LogLine> = seen.iter().filter(|l| l.source == "a").collect();
    assert_eq!(a.len(), 2);
    assert_eq!(a[0].text, "a1");
    assert_eq!(a[1].text, "a2");
    assert!(a.iter().all(|l| l.kind == LineKind::Output(StreamKind::Stdout)));
    let b: Vec<&LogLine> = seen.iter().filter(|l| l.source == "b").collect();
    assert_eq!(b.len(), 1);
    assert_eq!(b[0].text, "b1");
    assert_eq!(b[0].kind, LineKind::Output(StreamKind::Stderr));
    assert_eq!(b[0].render(false), "[t2 | b] b1");
}

#[test]
fn failed_spawn_gives_error_line_and_others_stream() {
    let mut mux = LogMux::new(vec!["a".to_string(), "b".to_string(), "c".to_string()]);
    let mut seen: Vec<LogLine> = Vec::new();
    let events = vec![
        (0, WorkerEvent::Started),
        (1, WorkerEvent::SpawnFailed),
        (2, WorkerEvent::Started),
        (0, line(StreamKind::Stdout, "t", "a1")),
        (2, line(StreamKind::Stderr, "t", "c1")),
        (0, WorkerEvent::Closed(StreamKind::Stdout)),
        (0, WorkerEvent::Closed(StreamKind::Stderr)),
        (2, WorkerEvent::Closed(StreamKind::Stderr)),
        (2, WorkerEvent::Closed(StreamKind::Stdout)),
    ];
    for (w, e) in events {
        if let Some(l) = mux.handle(w, e) {
            seen.push(l);
        }
    }
    assert!(mux.is_finished());
    assert_eq!(seen.len(), 3);
    let err: Vec<&LogLine> = seen.iter().filter(|l| l.kind == LineKind::SpawnError).collect();
    assert_eq!(err.len(), 1);
    assert_eq!(err[0].source, "b");
    assert_eq!(err[0].render(false), "[ERROR] - Failed to log b");
    assert!(seen.iter().any(|l| l.source == "a" && l.text == "a1"));
    assert!(seen.iter().any(|l| l.source == "c" && l.text == "c1"));
}

#[test]
fn lines_after_a_stream_closed_are_dropped() {
    let mut mux = LogMux::new(vec!["a".to_string()]);
    assert!(mux.handle(0, line(StreamKind::Stdout, "t", "early")).is_none());
    assert!(mux.handle(0, WorkerEvent::Started).is_none());
    assert!(mux.handle(0, WorkerEvent::Closed(StreamKind::Stdout)).is_none());
    assert!(mux.handle(0, line(StreamKind::Stdout, "t", "late")).is_none());
    assert!(mux.handle(0, line(StreamKind::Stderr, "t", "err")).is_some());
    assert!(!mux.is_finished());
}

#[test]
fn no_targets_is_finished_at_once() {
    let mux = LogMux::new(Vec::new());
    assert_eq!(mux.len(), 0);
    assert!(mux.is_finished());
}
