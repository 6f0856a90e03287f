use logstats::stats::Stats;
use logstats::types::{InnerOKRecord, InnerRecord, Level, StatErrRecord, StatErrType, StatOKRecord, StatRecord};
use logstats::window::{Act, WindowState};

fn ok_record(recv: i64, logged: i64, level: Level, message: &str) -> StatOKRecord {
    StatOKRecord {
        received_millis: recv,
        logged_millis: logged,
        level,
        message: message.to_string(),
    }
}

fn err_record(recv: i64) -> StatErrRecord {
    StatErrRecord {
        received_millis: recv,
        error_type: StatErrType::Malformed,
        line: None,
    }
}

// Epoch milliseconds of 2025-01-01T00:00:00Z.
const T0: i64 = 1_735_689_600_000;

#[test]
fn counter_coherence_concrete() {
    let mut st = Stats::new();
    st.process_ok(ok_record(T0, T0, Level::INFO, "hello"), T0);
    st.process_ok(ok_record(T0 + 1, T0, Level::ERROR, "boom"), T0 + 1);
    st.process_err(err_record(T0 + 2));
    st.process_ok(ok_record(T0 + 3, T0, Level::DEBUG, "dbg"), T0 + 3);
    let sum = st.stat.errors + st.stat.infos + st.stat.debugs + st.stat.malformed;
    assert_eq!(sum, st.records.len() as u64);
    assert_eq!(st.stat.errors, 1);
    assert_eq!(st.stat.infos, 1);
    assert_eq!(st.stat.debugs, 1);
    assert_eq!(st.stat.malformed, 1);
}

#[test]
fn histogram_coherence_concrete() {
    let mut st = Stats::new();
    for _ in 0..3 {
        st.process_ok(ok_record(T0, T0, Level::ERROR, "boom"), T0);
    }
    for _ in 0..2 {
        st.process_ok(ok_record(T0, T0 + 5_000, Level::ERROR, "boom"), T0);
    }
    st.process_ok(ok_record(T0, T0, Level::ERROR, "other"), T0);
    for &(id, count) in st.stat.error_msg_counts.iter() {
        let total: u64 = st
            .stat
            .error_msg_per_sec
            .iter()
            .filter(|e| e.1 == id)
            .map(|e| e.2)
            .sum();
        assert_eq!(count, total);
    }
    assert_eq!(st.stat.error_msg_counts.len(), 2);
}

#[test]
fn per_sec_pruning() {
    let mut st = Stats::new();
    st.process_ok(ok_record(T0, T0, Level::ERROR, "boom"), T0);
    st.process_ok(ok_record(T0 + 1, T0 + 1_000, Level::ERROR, "boom"), T0 + 1);
    // Evict everything: every per-second entry must go with its records.
    st.cleanup_and_adjust(T0 + 500_000);
    assert!(st.records.is_empty());
    assert!(st.stat.error_msg_per_sec.is_empty());
    assert!(st.stat.error_msg_counts.is_empty());
    // While entries exist, no zero counts are stored.
    let mut st2 = Stats::new();
    st2.process_ok(ok_record(T0, T0, Level::ERROR, "boom"), T0);
    assert!(st2.stat.error_msg_per_sec.iter().all(|e| e.2 >= 1));
    assert!(st2.stat.error_msg_counts.iter().all(|e| e.1 >= 1));
}

#[test]
fn window_clamped_after_adaptation() {
    let mut st = Stats::new();
    // About five thousand records per second of receive time.
    for i in 0..5000i64 {
        let recv = T0 + i / 5;
        st.process_ok(ok_record(recv, T0, Level::INFO, "x"), recv);
    }
    assert!(st.stat.window_ms >= 30_000);
    assert!(st.stat.window_ms <= 120_000);
    // The sustained rate calls for the smallest window.
    assert_eq!(st.stat.window_ms, 30_000);
    assert_eq!(st.stat.previous_window_ms, 60_000);
}

#[test]
fn eviction_leaves_only_windowed_records() {
    let mut st = Stats::new();
    for i in 0..100i64 {
        let recv = T0 + i * 1_000;
        st.process_ok(ok_record(recv, recv, Level::INFO, "x"), recv);
    }
    let now = T0 + 99_000 + 200_000;
    st.cleanup_and_adjust(now);
    assert_eq!(st.records.len(), 0);
    assert_eq!(st.stat.entries, 0);
    assert_eq!(st.stat.infos, 0);
    assert!(st.stat.error_msg_per_sec.is_empty());
    // Partial eviction: only records inside the window survive. At one
    // record per second the controller widens the window to its cap.
    let mut st2 = Stats::new();
    for i in 0..100i64 {
        let recv = T0 + i * 1_000;
        st2.process_ok(ok_record(recv, recv, Level::INFO, "x"), recv);
    }
    assert_eq!(st2.stat.window_ms, 120_000);
    let now2 = T0 + 150_000;
    st2.cleanup_and_adjust(now2);
    let cutoff = now2 - st2.stat.window_ms as i64;
    assert_eq!(st2.records.len(), 70);
    assert_eq!(st2.stat.entries, 70);
    assert!(st2.records.iter().all(|r| r.recv_timestamp_millis() >= cutoff));
}

#[test]
fn eviction_boundary_is_strict() {
    let mut st = Stats::new();
    st.process_ok(ok_record(T0, T0, Level::INFO, "x"), T0);
    let window = st.stat.window_ms as i64;
    // A record whose receive time sits exactly on the cutoff stays.
    st.cleanup_and_adjust(T0 + window);
    assert_eq!(st.records.len(), 1);
    // One millisecond further, it goes.
    st.cleanup_and_adjust(T0 + window + 1);
    assert_eq!(st.records.len(), 0);
}

#[test]
fn apply_symmetry_concrete() {
    let mut ws = WindowState::new();
    let rec = InnerRecord::OK(InnerOKRecord {
        received_millis: T0,
        logged_millis: T0,
        level: Level::ERROR,
        msg_id: 7,
    });
    ws.apply(rec, Act::Inc);
    assert_eq!(ws.errors, 1);
    assert_eq!(ws.error_msg_counts, vec![(7, 1)]);
    ws.apply(rec, Act::Dec);
    let fresh = WindowState::new();
    assert_eq!(ws.errors, fresh.errors);
    assert_eq!(ws.infos, fresh.infos);
    assert_eq!(ws.debugs, fresh.debugs);
    assert_eq!(ws.malformed, fresh.malformed);
    assert_eq!(ws.error_msg_counts, fresh.error_msg_counts);
    assert_eq!(ws.error_msg_per_sec, fresh.error_msg_per_sec);
    assert_eq!(ws.window_ms, fresh.window_ms);
}

#[test]
fn apply_symmetry_existing_key() {
    let mut ws = WindowState::new();
    let rec = InnerRecord::OK(InnerOKRecord {
        received_millis: T0,
        logged_millis: T0,
        level: Level::ERROR,
        msg_id: 3,
    });
    ws.apply(rec, Act::Inc);
    ws.apply(rec, Act::Inc);
    let counts_before = ws.error_msg_counts.clone();
    let per_sec_before = ws.error_msg_per_sec.clone();
    ws.apply(rec, Act::Inc);
    ws.apply(rec, Act::Dec);
    assert_eq!(ws.error_msg_counts, counts_before);
    assert_eq!(ws.error_msg_per_sec, per_sec_before);
    assert_eq!(ws.errors, 2);
}

#[test]
fn interner_stability() {
    let mut st = Stats::new();
    let a = st.msg_id("connection reset");
    let b = st.msg_id("disk full");
    let c = st.msg_id("connection reset");
    assert_eq!(a, c);
    assert_ne!(a, b);
    assert_eq!(st.msg_by_id(a), "connection reset");
    assert_eq!(st.msg_by_id(b), "disk full");
    assert_eq!(st.msg_by_id(999), "N/A");
}

#[test]
fn rate_formula_exact() {
    let mut st = Stats::new();
    // Eleven records spanning exactly one second of receive time.
    for i in 0..11i64 {
        let recv = T0 + i * 100;
        st.process_ok(ok_record(recv, recv, Level::INFO, "x"), recv);
    }
    assert_eq!(st.stat.entries, 11);
    assert_eq!(st.stat.collected_interval_ms, 1_000);
    assert_eq!(st.stat.rate, 11);
    assert!(st.stat.peak_rate >= 11);
}

#[test]
fn error_rate_permille_exact() {
    let mut st = Stats::new();
    st.process_ok(ok_record(T0, T0, Level::ERROR, "boom"), T0);
    st.process_ok(ok_record(T0, T0, Level::INFO, "a"), T0);
    st.process_ok(ok_record(T0, T0, Level::INFO, "b"), T0);
    st.process_ok(ok_record(T0, T0, Level::INFO, "c"), T0);
    assert_eq!(st.stat.error_rate_permille, 250);
}

#[test]
fn last_second_tracker() {
    let mut st = Stats::new();
    let now = T0 + 10_000;
    st.process_ok(ok_record(now - 3_000, now - 3_000, Level::INFO, "x"), now - 3_000);
    st.process_ok(ok_record(now - 900, now - 900, Level::INFO, "x"), now - 900);
    st.process_ok(ok_record(now - 10, now - 10, Level::INFO, "x"), now);
    let snap = st.snapshot(now);
    assert_eq!(snap.current_per_second_rate, 2);
}

#[test]
fn top_error_messages_order_and_ties() {
    let mut st = Stats::new();
    for _ in 0..5 {
        st.process_ok(ok_record(T0, T0, Level::ERROR, "a"), T0);
    }
    for _ in 0..7 {
        st.process_ok(ok_record(T0, T0, Level::ERROR, "b"), T0);
    }
    for _ in 0..5 {
        st.process_ok(ok_record(T0, T0, Level::ERROR, "c"), T0);
    }
    for _ in 0..2 {
        st.process_ok(ok_record(T0, T0, Level::ERROR, "d"), T0);
    }
    let id_a = st.msg_id("a");
    let id_b = st.msg_id("b");
    let id_c = st.msg_id("c");
    let snap = st.snapshot(T0 + 1);
    assert_eq!(snap.top_counts, vec![(id_b, 7), (id_a, 5), (id_c, 5)]);
    assert_eq!(snap.errors, 19);
}

#[test]
fn trend_rising_beats_fading() {
    let mut st = Stats::new();
    let t = T0 + 100_000;
    let mut feed = |logged: i64, n: usize, msg: &str| {
        for _ in 0..n {
            st.process_ok(ok_record(t, logged, Level::ERROR, msg), t);
        }
    };
    feed(t - 14_000, 1, "rising");
    feed(t - 13_000, 2, "rising");
    feed(t - 14_000, 10, "fading");
    feed(t - 13_000, 10, "fading");
    feed(t - 2_000, 10, "rising");
    feed(t - 2_000, 1, "fading");
    feed(t - 1_000, 12, "rising");
    feed(t - 1_000, 1, "fading");
    st.cleanup_and_adjust(t);
    let id_rising = st.msg_id("rising");
    let id_fading = st.msg_id("fading");
    let rate_of = |id: u64| -> u64 {
        st.stat
            .error_msg_rates
            .iter()
            .find(|e| e.0 == id)
            .map(|e| e.1)
            .unwrap()
    };
    let scale = logstats::trend::TREND_SCALE;
    assert!(rate_of(id_rising) > scale);
    assert!(rate_of(id_fading) < scale);
    let snap = st.snapshot(t);
    assert_eq!(snap.top_trends[0].0, id_rising);
}

#[test]
fn malformed_burst() {
    let mut st = Stats::new();
    for i in 0..1000i64 {
        st.process_err(err_record(T0 + i));
    }
    st.cleanup_and_adjust(T0 + 1_000);
    assert_eq!(st.stat.malformed, 1000);
    assert_eq!(st.stat.errors, 0);
    assert_eq!(st.stat.infos, 0);
    assert_eq!(st.stat.debugs, 0);
    assert!(st.stat.error_msg_per_sec.is_empty());
    assert!(st.stat.error_msg_counts.is_empty());
}

#[test]
fn stop_record_halts_consumer() {
    let mut st = Stats::new();
    let cont = st.process_record(
        StatRecord::OK(ok_record(T0, T0, Level::INFO, "x")),
        T0,
    );
    assert!(cont);
    let cont = st.process_record(StatRecord::Stop, T0);
    assert!(!cont);
    assert_eq!(st.stat.infos, 1);
}

#[test]
fn snapshot_mirrors_state() {
    let mut st = Stats::new();
    st.process_ok(ok_record(T0, T0, Level::ERROR, "boom"), T0);
    st.process_ok(ok_record(T0, T0 + 3_000, Level::ERROR, "boom"), T0);
    st.process_ok(ok_record(T0, T0, Level::INFO, "ok"), T0);
    let snap = st.snapshot(T0 + 5);
    assert_eq!(snap.at_ms, T0 + 5);
    assert_eq!(snap.entries, st.stat.entries);
    assert_eq!(snap.errors, 2);
    assert_eq!(snap.infos, 1);
    assert_eq!(snap.window_ms, st.stat.window_ms);
    // Two distinct logged seconds carry the two error records.
    assert_eq!(snap.per_sec_table_size, 2);
}

#[test]
fn received_millis_readings() {
    let ok = StatRecord::OK(ok_record(T0, T0, Level::INFO, "x"));
    assert_eq!(ok.received_millis(), T0);
    assert_eq!(ok.received(), T0 / 1000);
    let stop = StatRecord::Stop;
    assert_eq!(stop.received_millis(), -1);
    assert_eq!(stop.received(), 0);
    let inner = InnerRecord::Malformed(logstats::types::InnerErrRecord {
        received_millis: 2_500,
        err_type: StatErrType::Malformed,
    });
    assert_eq!(inner.recv_timestamp_millis(), 2_500);
    assert_eq!(inner.recv_timestamp(), 2);
    assert_eq!(inner.log_timestamp_millis(), 2_500);
    assert_eq!(inner.log_timestamp(), 2);
}
