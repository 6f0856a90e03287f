use logstats::parser::{classify_line, ClassifyError};
use logstats::stats::Stats;
use logstats::types::{Level, LineMessage, StatRecord};

// Epoch milliseconds of 2025-01-01T00:00:00Z.
const T0: i64 = 1_735_689_600_000;

#[test]
fn classify_well_formed_lines() {
    let info = LineMessage::new(
        "[2025-01-01T00:00:00Z] INFO  - IP:10.0.0.1 hello".to_string(),
        T0,
    );
    match classify_line(&info) {
        Ok(StatRecord::OK(ok)) => {
            assert_eq!(ok.received_millis, T0);
            assert_eq!(ok.logged_millis, T0);
            assert_eq!(ok.level, Level::INFO);
            assert_eq!(ok.message, "hello");
        }
        other => panic!("expected a parsed record, got {:?}", other),
    }
    let error = LineMessage::new(
        "[2025-01-01T00:00:00Z] ERROR - IP:10.0.0.1 Error 7 - boom".to_string(),
        T0 + 5,
    );
    match classify_line(&error) {
        Ok(StatRecord::OK(ok)) => {
            assert_eq!(ok.level, Level::ERROR);
            // The error-number prefix is part of the grammar, not the message.
            assert_eq!(ok.message, "boom");
            assert_eq!(ok.received_millis, T0 + 5);
        }
        other => panic!("expected a parsed record, got {:?}", other),
    }
    let debug = LineMessage::new(
        "[2025-01-01T00:00:01Z] DEBUG - IP:fe80::1 tick".to_string(),
        T0 + 1_000,
    );
    match classify_line(&debug) {
        Ok(StatRecord::OK(ok)) => {
            assert_eq!(ok.level, Level::DEBUG);
            assert_eq!(ok.logged_millis, T0 + 1_000);
            assert_eq!(ok.message, "tick");
        }
        other => panic!("expected a parsed record, got {:?}", other),
    }
}

#[test]
fn classify_malformed_line() {
    let bad = LineMessage::new("xxx not a log line xxx".to_string(), T0 + 7);
    match classify_line(&bad) {
        Ok(StatRecord::Malformed(err)) => {
            assert_eq!(err.received_millis, T0 + 7);
            assert_eq!(err.line.as_deref(), Some("xxx not a log line xxx"));
        }
        other => panic!("expected a malformed marker, got {:?}", other),
    }
}

#[test]
fn classify_impossible_timestamp() {
    // Matches the grammar shape but names no real instant.
    let bad = LineMessage::new(
        "[2025-13-99T00:00:00Z] INFO  - IP:10.0.0.1 hello".to_string(),
        T0,
    );
    match classify_line(&bad) {
        Err(e) => assert_eq!(e, ClassifyError::BadTimestamp),
        other => panic!("expected a timestamp error, got {:?}", other),
    }
}

#[test]
fn baseline_scenario() {
    let mut st = Stats::new();
    let lines = [
        "[2025-01-01T00:00:00Z] INFO  - IP:10.0.0.1 hello",
        "[2025-01-01T00:00:00Z] ERROR - IP:10.0.0.1 Error 7 - boom",
        "xxx not a log line xxx",
    ];
    for (i, text) in lines.iter().enumerate() {
        let msg = LineMessage::new(text.to_string(), T0 + i as i64);
        let rec = classify_line(&msg).expect("all three lines classify");
        st.process_record(rec, T0 + i as i64);
    }
    // The malformed path defers eviction; the reporting tick catches up.
    st.cleanup_and_adjust(T0 + 3);
    assert_eq!(st.stat.entries, 3);
    assert_eq!(st.stat.infos, 1);
    assert_eq!(st.stat.errors, 1);
    assert_eq!(st.stat.malformed, 1);
    assert_eq!(st.stat.debugs, 0);
    let boom = st.msg_id("boom");
    assert_eq!(st.stat.error_msg_counts, vec![(boom, 1)]);
}

#[test]
fn line_message_times() {
    let msg = LineMessage::new("anything".to_string(), 12_345);
    assert_eq!(msg.recv_time_millis, 12_345);
    assert_eq!(msg.recv_time(), 12);
}
