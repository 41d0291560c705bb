use nostra::logging::record::{
    bounded_text, configured_level, encode_record, encode_record_at, is_recorded, parse_log_line,
    record_line, sanitize, LogLevel, ParsedLogLine, LOG_RECORD_MAX_BYTES,
};
use nostra::logging::writer::{
    backup_path, fallback_notice, log_file_paths, rotate, Batch, ConfigProblem, EnqueueError,
    FallbackNotice, LogConfig, LogFile, Move, WorkerAction, WorkerEvent, FLUSH_BATCH_SIZE,
};

const TRUNCATED_SUFFIX: &str = "… [truncated]";

#[test]
fn level_names_are_stable() {
    assert_eq!(LogLevel::Error.as_str(), "ERROR");
    assert_eq!(LogLevel::Warn.as_str(), "WARN");
    assert_eq!(LogLevel::Info.as_str(), "INFO");
}

#[test]
fn parse_log_line_reads_the_current_record_shape() {
    let record = encode_record("ERROR providers: boom");
    let parsed = parse_log_line(record.trim_end());
    assert!(
        parsed.timestamp.as_ref().is_some_and(|timestamp| timestamp.contains('T')),
        "{parsed:?}"
    );
    assert_eq!(parsed.level, Some(LogLevel::Error));
    assert_eq!(parsed.rest, "providers: boom");
}

#[test]
fn parse_log_line_keeps_malformed_rows() {
    let parsed = parse_log_line("not a log line");
    assert_eq!(
        parsed,
        ParsedLogLine { timestamp: None, level: None, rest: "not a log line".into() }
    );
}

#[test]
fn safe_default_is_warning_and_detailed_mode_adds_info() {
    assert_eq!(configured_level(false), LogLevel::Warn);
    assert_eq!(configured_level(true), LogLevel::Info);
    assert!(LogLevel::Error <= configured_level(false));
    assert!(LogLevel::Info > configured_level(false));
}

#[test]
fn successful_enqueue_does_not_rearm_the_overflow_notice() {
    let mut overflow_reported = false;
    let mut disconnected_reported = false;

    assert_eq!(
        fallback_notice(
            Err(EnqueueError::Full),
            &mut overflow_reported,
            &mut disconnected_reported,
        ),
        Some(FallbackNotice::QueueFull)
    );
    assert_eq!(
        fallback_notice(Ok(()), &mut overflow_reported, &mut disconnected_reported),
        None
    );
    assert_eq!(
        fallback_notice(
            Err(EnqueueError::Full),
            &mut overflow_reported,
            &mut disconnected_reported,
        ),
        None,
        "one transient success must not rearm stderr flooding under sustained pressure"
    );
}

#[test]
fn records_are_bounded_without_splitting_utf8() {
    let record = encode_record(&"界".repeat(LOG_RECORD_MAX_BYTES));
    assert!(record.len() <= LOG_RECORD_MAX_BYTES);
    assert!(record.trim_end().ends_with(TRUNCATED_SUFFIX));
    assert!(std::str::from_utf8(record.as_bytes()).is_ok());
}

#[test]
fn physical_records_stay_within_the_byte_budget_after_escaping() {
    let line = format!("WARN test: {}", "\\".repeat(LOG_RECORD_MAX_BYTES));
    let record = encode_record(&line);
    assert!(
        record.len() <= LOG_RECORD_MAX_BYTES,
        "one physical record must stay within the configured 8 KiB budget"
    );
    assert_eq!(record.bytes().filter(|byte| *byte == b'\n').count(), 1);
}

#[test]
fn writer_persists_records_and_flattens_multiline_messages() {
    let contents = encode_record("ERROR persistence: first line\nsecond line\r");
    assert!(contents.contains("ERROR persistence: first line\\nsecond line\\r"));
    assert!(contents.ends_with('\n'));
}

#[test]
fn writer_rotates_before_the_next_oversized_record() {
    let first = encode_record("INFO test: 1234567890").len() as u64;
    let mut file = LogFile { bytes: 0 };
    assert!(!file.must_rotate(first, 32));
    file.written(first);
    let second = encode_record("INFO test: abcdefghij").len() as u64;
    assert!(file.must_rotate(second, 32));
    assert_eq!(
        rotate(2),
        vec![Move { source: 1, destination: 2 }, Move { source: 0, destination: 1 }]
    );
    assert_eq!(backup_path("nostra.log", 1), "nostra.log.1");
}

#[test]
fn records_have_their_exact_form() {
    let line = record_line(LogLevel::Warn, "session", "kept \\ and\nbroken");
    assert_eq!(line, "WARN session: kept \\ and\nbroken");
    assert_eq!(
        encode_record_at("2026-01-02T03:04:05.678Z", &line),
        "2026-01-02T03:04:05.678Z WARN session: kept \\\\ and\\nbroken\n"
    );
    assert_eq!(sanitize("a\r\n\\n"), "a\\r\\n\\\\n");
}

#[test]
fn timestamps_have_milliseconds_and_a_zone() {
    let record = encode_record("INFO a: b");
    let (timestamp, rest) = record.split_once(' ').expect("a timestamp comes first");
    assert_eq!(timestamp.len(), 24, "{timestamp}");
    assert_eq!(timestamp.as_bytes()[10], b'T');
    assert_eq!(timestamp.as_bytes()[19], b'.');
    assert!(timestamp.ends_with('Z'));
    assert_eq!(rest, "INFO a: b\n");
}

#[test]
fn long_texts_are_cut_and_marked() {
    assert_eq!(bounded_text("short", 5), "short");
    let cut = bounded_text(&"界".repeat(10), 20);
    assert_eq!(cut, format!("界{TRUNCATED_SUFFIX}"));
    assert_eq!(bounded_text("longer", 3), TRUNCATED_SUFFIX);
}

#[test]
fn records_read_back_at_every_level() {
    for level in [LogLevel::Error, LogLevel::Warn, LogLevel::Info] {
        let record = encode_record_at(
            "2026-01-02T03:04:05.678Z",
            &record_line(level, "part", "what happened\r\n"),
        );
        assert_eq!(
            parse_log_line(&record),
            ParsedLogLine {
                timestamp: Some("2026-01-02T03:04:05.678Z".into()),
                level: Some(level),
                rest: "part: what happened\\r\\n".into(),
            }
        );
    }
}

#[test]
fn lines_of_other_forms_keep_what_is_known() {
    let parsed = parse_log_line("2026T x\r\n");
    assert_eq!(
        parsed,
        ParsedLogLine { timestamp: Some("2026T".into()), level: None, rest: "x".into() }
    );
    let parsed = parse_log_line("2026T DEBUG x y");
    assert_eq!(
        parsed,
        ParsedLogLine { timestamp: Some("2026T".into()), level: None, rest: "DEBUG x y".into() }
    );
    assert_eq!(
        parse_log_line("word\n"),
        ParsedLogLine { timestamp: None, level: None, rest: "word".into() }
    );
}

#[test]
fn only_severe_enough_events_are_recorded() {
    assert!(is_recorded(LogLevel::Error, LogLevel::Warn));
    assert!(is_recorded(LogLevel::Warn, LogLevel::Warn));
    assert!(!is_recorded(LogLevel::Info, LogLevel::Warn));
    assert!(is_recorded(LogLevel::Info, LogLevel::Info));
    assert!(!is_recorded(LogLevel::Warn, LogLevel::Error));
}

#[test]
fn a_stopped_writer_is_reported_once() {
    let mut overflow = true;
    let mut disconnected = false;
    assert_eq!(
        fallback_notice(Err(EnqueueError::Disconnected), &mut overflow, &mut disconnected),
        Some(FallbackNotice::Disconnected)
    );
    assert!(disconnected);
    assert_eq!(
        fallback_notice(Err(EnqueueError::Disconnected), &mut overflow, &mut disconnected),
        None
    );
}

#[test]
fn batches_flush_when_full_when_urgent_and_at_their_deadline() {
    let mut batch = Batch::new();
    assert_eq!(batch.step(WorkerEvent::FlushDeadline), WorkerAction::Wait);
    for _ in 1..FLUSH_BATCH_SIZE {
        assert_eq!(
            batch.step(WorkerEvent::Appended { flush_immediately: false }),
            WorkerAction::Wait
        );
        assert!(batch.started);
    }
    assert_eq!(
        batch.step(WorkerEvent::Appended { flush_immediately: false }),
        WorkerAction::Flush
    );
    assert_eq!(batch.step(WorkerEvent::Flushed), WorkerAction::Wait);
    assert_eq!(batch, Batch { unflushed: 0, started: false });
    assert_eq!(
        batch.step(WorkerEvent::Appended { flush_immediately: true }),
        WorkerAction::Flush
    );
    assert_eq!(batch.step(WorkerEvent::FlushDeadline), WorkerAction::Flush);
    assert_eq!(batch.step(WorkerEvent::Failed), WorkerAction::Stop);
    assert_eq!(batch.step(WorkerEvent::Disconnected), WorkerAction::FlushAndStop);
}

#[test]
fn configurations_without_room_are_refused() {
    let config = LogConfig { queue_capacity: 0, max_bytes: 1, backups: 2 };
    assert_eq!(config.validate(), Err(ConfigProblem::NoQueue));
    assert_eq!(ConfigProblem::NoQueue.as_str(), "log queue capacity must be positive");
    let config = LogConfig { queue_capacity: 1, max_bytes: 0, backups: 2 };
    assert_eq!(config.validate(), Err(ConfigProblem::NoRoom));
    assert_eq!(ConfigProblem::NoRoom.as_str(), "log size limit must be positive");
    let config = LogConfig { queue_capacity: 1, max_bytes: 1, backups: 0 };
    assert_eq!(config.validate(), Ok(()));
}

#[test]
fn files_are_listed_from_the_oldest() {
    assert_eq!(
        log_file_paths("nostra.log", 2),
        vec!["nostra.log.2".to_string(), "nostra.log.1".into(), "nostra.log".into()]
    );
    assert!(rotate(0).is_empty());
    let full = LogFile { bytes: u64::MAX };
    assert!(!full.must_rotate(1, u64::MAX));
    assert!(full.must_rotate(1, 5));
}
