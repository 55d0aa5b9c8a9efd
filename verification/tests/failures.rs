//! The record of failures: missed fires, signatures, storms, double fires.
use chrono::{DateTime, Duration, TimeZone, Utc};
use hex_harness::failures::{
    alert_key, cadence_secs, compiled_module_basenames, cron_expectations, duplicate_fires,
    evaluate, failure_signatures, modules_not_landed, prev_fire, registered_triggers,
    signature_head, storm_min_workers, storm_signatures, CronExpectation, EventRecord, FailureRow,
    Moment, RegisteredTrigger, TriggerSpec, Worker, STORM_MIN_WORKERS,
};

fn at(y: i32, mo: u32, d: u32, h: u32, mi: u32, s: u32) -> DateTime<Utc> {
    Utc.with_ymd_and_hms(y, mo, d, h, mi, s).unwrap()
}

fn moment(t: DateTime<Utc>) -> Moment {
    Moment { secs: t.timestamp(), nanos: t.timestamp_subsec_nanos() }
}

fn row(fid: &str, ts: DateTime<Utc>, duration_ms: i64) -> EventRecord {
    EventRecord { event: fid.to_string(), ts: Some(ts.to_rfc3339()), duration_ms: Some(duration_ms) }
}

fn row_d(fid: &str, ts: DateTime<Utc>, status: &str, detail: &str) -> FailureRow {
    FailureRow {
        event: fid.to_string(),
        status: status.to_string(),
        detail: Some(detail.to_string()),
        ts: ts.to_rfc3339(),
    }
}

fn expect(worker: &str, fid: &str, expr: &str) -> CronExpectation {
    CronExpectation { worker: worker.to_string(), fid: fid.to_string(), expr: expr.to_string() }
}

#[test]
fn missed_fires_alert_when_expected_fire_has_no_row() {
    let now = at(2026, 6, 11, 12, 0, 0);
    let rows = vec![row("a::daily", now - Duration::days(2), 1000)];
    let exp = vec![expect("a", "a::daily", "0 0 4 * * * *")];
    let report = evaluate(&exp, Some(&rows), moment(now), &Vec::new()).unwrap();
    assert_eq!(report.missed.len(), 1, "{:?}", report.missed);
    assert_eq!(report.missed[0].fid, "a::daily");
    assert_eq!(report.missed[0].expected_at, at(2026, 6, 11, 4, 0, 0).timestamp());
}

#[test]
fn malformed_event_rows_are_counted_not_silently_dropped() {
    let now = at(2026, 6, 11, 12, 0, 0);
    let mut rows = vec![row("a::daily", now - Duration::hours(1), 1000)];
    rows.push(EventRecord {
        event: "a::daily".to_string(),
        ts: Some("not-a-timestamp".to_string()),
        duration_ms: None,
    });
    let exp = vec![expect("a", "a::daily", "0 0 4 * * * *")];
    let report = evaluate(&exp, Some(&rows), moment(now), &Vec::new()).unwrap();
    assert_eq!(report.malformed_rows, 1, "corrupt ts row must be counted");
}

#[test]
fn a_row_whose_time_cannot_be_read_is_counted() {
    let now = at(2026, 6, 11, 12, 0, 0);
    let unread =
        |event: &str| EventRecord { event: event.to_string(), ts: None, duration_ms: Some(1) };
    let rows = vec![unread("b::other"), row("a::daily", now - Duration::hours(1), 1000)];
    let exp = vec![expect("a", "a::daily", "0 0 4 * * * *")];
    let report = evaluate(&exp, Some(&rows), moment(now), &Vec::new()).unwrap();
    assert_eq!(report.malformed_rows, 1);
    assert!(report.missed.is_empty() && report.never_ran.is_empty());

    let rows = vec![row("a::daily", now - Duration::hours(1), 1000), unread("a::daily")];
    let error = evaluate(&exp, Some(&rows), moment(now), &Vec::new()).unwrap_err();
    assert_eq!(error.fid, "a::daily");

    let fire = at(2026, 6, 11, 4, 0, 0);
    let rows = vec![row("a::daily", fire, 100), unread("a::daily")];
    assert!(duplicate_fires(&exp, Some(&rows), moment(now)).is_empty());
}

#[test]
fn not_missed_within_duration_slack() {
    let now = at(2026, 6, 11, 12, 7, 0);
    let rows = vec![row("a::quarter", now - Duration::minutes(40), 1_800_000)];
    let exp = vec![expect("a", "a::quarter", "0 */15 * * * * *")];
    let report = evaluate(&exp, Some(&rows), moment(now), &Vec::new()).unwrap();
    assert!(report.missed.is_empty(), "{:?}", report.missed);
}

#[test]
fn never_ran_listed_not_missed() {
    let now = at(2026, 6, 11, 12, 0, 0);
    let exp = vec![expect("a", "a::daily", "0 0 4 * * * *")];
    let report = evaluate(&exp, Some(&Vec::new()), moment(now), &Vec::new()).unwrap();
    assert!(report.missed.is_empty());
    assert_eq!(report.never_ran.len(), 1);
}

#[test]
fn downtime_excuses_missed_and_reports_once() {
    let now = at(2026, 6, 11, 12, 0, 0);
    let mut rows: Vec<EventRecord> = Vec::new();
    let mut t = now - Duration::hours(10);
    while t < now {
        let in_hole = t > now - Duration::hours(9) && t < now - Duration::hours(4);
        if !in_hole {
            rows.push(row("hb::quarter", t, 10));
        }
        t += Duration::minutes(15);
    }
    rows.push(row("a::daily", now - Duration::days(1) - Duration::hours(8), 1000));
    let exp = vec![
        expect("hb", "hb::quarter", "0 */15 * * * * *"),
        expect("a", "a::daily", "0 0 4 * * * *"),
    ];
    let report = evaluate(&exp, Some(&rows), moment(now), &Vec::new()).unwrap();
    assert!(
        report.missed.iter().all(|m| m.fid != "a::daily"),
        "downtime must excuse a::daily: {:?}",
        report.missed
    );
    assert_eq!(report.downtime.len(), 1);
    assert!(report.downtime[0].excused_fids.contains(&"a::daily".to_string()));
}

#[test]
fn an_excused_trigger_is_not_missed() {
    let now = at(2026, 6, 11, 12, 0, 0);
    let rows = vec![row("a::daily", now - Duration::days(2), 1000)];
    let exp = vec![expect("a", "a::daily", "0 0 4 * * * *")];
    let report = evaluate(&exp, Some(&rows), moment(now), &vec!["a::daily".to_string()]).unwrap();
    assert!(report.missed.is_empty());
    assert!(report.never_ran.is_empty());
}

#[test]
fn signatures_group_and_flag_new() {
    let now = at(2026, 6, 11, 12, 0, 0);
    let mut rows: Vec<FailureRow> = Vec::new();
    for d in 1..=5 {
        rows.push(row_d(
            "old::daily",
            now - Duration::days(d),
            "error",
            "`hex` exited 2: error: unrecognized subcommand backup",
        ));
    }
    rows.push(row_d(
        "new::daily",
        now - Duration::hours(2),
        "error",
        "`hex` exited 1: gate battery BLOCKED",
    ));
    let sigs = failure_signatures(Some(rows), moment(now), 24);
    let newsig = sigs.iter().find(|s| s.fid == "new::daily").unwrap();
    assert!(newsig.is_new);
    assert_eq!(newsig.head, "`hex` exited #: gate battery BLOCKED");
    let oldsig = sigs.iter().find(|s| s.fid == "old::daily").unwrap();
    assert!(!oldsig.is_new);
    assert_eq!(oldsig.count, 5);
}

#[test]
fn double_fire_detected_per_expected_window() {
    let now = at(2026, 6, 11, 12, 0, 0);
    let fire = at(2026, 6, 11, 3, 59, 59);
    let rows = vec![
        row("a::daily", fire, 100),
        row("a::daily", fire + Duration::milliseconds(150), 100),
    ];
    let exp = vec![expect("a", "a::daily", "0 0 4 * * * *")];
    let dups = duplicate_fires(&exp, Some(&rows), moment(now));
    assert_eq!(dups.len(), 1);
    assert_eq!(dups[0].fid, "a::daily");
    assert_eq!(dups[0].rows_in_window, 2);
    assert_eq!(dups[0].window_start, at(2026, 6, 11, 4, 0, 0).timestamp());
}

#[test]
fn one_row_in_a_window_is_no_double_fire() {
    let now = at(2026, 6, 11, 12, 0, 0);
    let rows = vec![
        row("a::daily", at(2026, 6, 11, 4, 0, 0), 100),
        row("a::daily", at(2026, 6, 11, 3, 58, 59), 100),
    ];
    let exp = vec![expect("a", "a::daily", "0 0 4 * * * *")];
    assert!(duplicate_fires(&exp, Some(&rows), moment(now)).is_empty());
}

#[test]
fn signature_head_normalizes_digits() {
    assert_eq!(
        signature_head("`hex` exited 2: slice 12345 failed\nsecond line"),
        "`hex` exited #: slice # failed"
    );
}

#[test]
fn a_signature_is_cut_at_eighty_characters() {
    assert_eq!(signature_head(&"é".repeat(200)).chars().count(), 80);
    assert_eq!(signature_head(""), "");
    assert_eq!(signature_head(&format!("{}x", "0".repeat(160))), "#x");
}

#[test]
fn fresh_install_no_db_returns_empty_not_crash() {
    let now = at(2026, 6, 11, 12, 0, 0);
    let exp = vec![expect("a", "a::daily", "0 0 4 * * * *")];
    let report = evaluate(&exp, None, moment(now), &Vec::new()).unwrap();
    assert!(report.missed.is_empty() && report.never_ran.is_empty());
    assert!(failure_signatures(None, moment(now), 24).is_empty());
    assert!(duplicate_fires(&exp, None, moment(now)).is_empty());
    assert!(storm_signatures(None, moment(now), 24, 3).is_empty());
}

const SPAWN: &str = "spawn failed for `hex`: No such file or directory (os error 2)";

#[test]
fn storm_detected_when_three_distinct_fids_share_head() {
    let now = at(2026, 6, 11, 12, 0, 0);
    let rows: Vec<FailureRow> = ["a::x", "b::y", "c::z"]
        .iter()
        .map(|fid| row_d(fid, now - Duration::hours(1), "error", SPAWN))
        .collect();
    let storms = storm_signatures(Some(rows), moment(now), 24, STORM_MIN_WORKERS);
    assert_eq!(storms.len(), 1, "{:?}", storms);
    assert_eq!(storms[0].distinct_fids, 3);
    assert_eq!(storms[0].sample_fids, vec!["a::x", "b::y", "c::z"]);
    assert_eq!(storms[0].total_rows, 3);
}

#[test]
fn two_distinct_fids_is_not_a_storm() {
    let now = at(2026, 6, 11, 12, 0, 0);
    let rows: Vec<FailureRow> = ["a::x", "b::y"]
        .iter()
        .map(|fid| row_d(fid, now - Duration::hours(1), "error", SPAWN))
        .collect();
    let storms = storm_signatures(Some(rows), moment(now), 24, storm_min_workers(None));
    assert!(storms.is_empty(), "{:?}", storms);
}

#[test]
fn three_rows_from_one_fid_is_not_a_storm() {
    let now = at(2026, 6, 11, 12, 0, 0);
    let rows: Vec<FailureRow> =
        (0..3).map(|_| row_d("a::x", now - Duration::hours(1), "error", SPAWN)).collect();
    let storms = storm_signatures(Some(rows), moment(now), 24, storm_min_workers(None));
    assert!(storms.is_empty(), "{:?}", storms);
}

#[test]
fn storm_collapses_digit_variation_in_head() {
    let now = at(2026, 6, 11, 12, 0, 0);
    let hour = now - Duration::hours(1);
    let rows = vec![
        row_d("a::x", hour, "error", "`hex` exited 1: spawn failed"),
        row_d("b::y", hour, "error", "`hex` exited 2: spawn failed"),
        row_d("c::z", hour, "error", "`hex` exited 3: spawn failed"),
    ];
    let storms = storm_signatures(Some(rows), moment(now), 24, storm_min_workers(None));
    assert_eq!(storms.len(), 1, "{:?}", storms);
    assert_eq!(storms[0].distinct_fids, 3);
}

#[test]
fn a_storm_that_has_passed_is_left_out() {
    let now = at(2026, 6, 11, 12, 0, 0);
    let rows: Vec<FailureRow> = ["a::x", "b::y", "c::z"]
        .iter()
        .map(|fid| row_d(fid, now - Duration::hours(30), "error", SPAWN))
        .collect();
    assert!(storm_signatures(Some(rows), moment(now), 24, 3).is_empty());
}

#[test]
fn only_workers_inside_the_window_make_a_storm() {
    let now = at(2026, 6, 11, 12, 0, 0);
    let old = at(2026, 6, 6, 12, 0, 0);
    let hour = at(2026, 6, 11, 11, 0, 0);
    let mut rows = vec![
        row_d("a::x", old, "error", "spawn failed"),
        row_d("b::y", old, "error", "spawn failed"),
        row_d("c::z", hour, "error", "spawn failed"),
    ];
    let threshold = storm_min_workers(None);
    assert!(storm_signatures(Some(rows.clone()), moment(now), 24, threshold).is_empty());
    rows.push(row_d("a::x", hour, "error", "spawn failed"));
    assert!(storm_signatures(Some(rows.clone()), moment(now), 24, threshold).is_empty());
    rows.push(row_d("d::w", hour, "panic", "spawn failed"));
    let storms = storm_signatures(Some(rows), moment(now), 24, threshold);
    assert_eq!(storms.len(), 1, "{storms:?}");
    assert_eq!((storms[0].distinct_fids, storms[0].total_rows), (3, 3));
    assert_eq!(storms[0].sample_fids, vec!["a::x", "c::z", "d::w"]);
    assert_eq!(storms[0].first_ts, hour.to_rfc3339());
}

#[test]
fn storm_alert_key_is_stable_and_sanitized() {
    let key1 = alert_key("storm", SPAWN);
    let key2 = alert_key("storm", SPAWN);
    assert_eq!(key1, key2, "alert_key must be deterministic for the same head");
    assert!(key1.starts_with("failures-storm-"));
    assert!(
        key1.chars().all(|c| c.is_ascii_alphanumeric() || c == '.' || c == '_' || c == '-'),
        "alert key must be path-safe: {key1}"
    );
    assert!(!key1.contains(' ') && !key1.contains('`') && !key1.contains(':'));
}

#[test]
fn a_cleaned_identifier_stays_as_it_is() {
    let key = alert_key("storm", "--a b::c.d_e//-f ü");
    assert_eq!(key, "failures-storm-a-b-c.d_e-f");
    assert_eq!(alert_key("storm", "a-b-c.d_e-f"), key);
    assert_eq!(alert_key("storm", "::"), "failures-storm-");
}

#[test]
fn storm_min_workers_env_override_and_garbage_fallback() {
    let now = at(2026, 6, 11, 12, 0, 0);
    let rows: Vec<FailureRow> = ["a::x", "b::y"]
        .iter()
        .map(|fid| row_d(fid, now - Duration::hours(1), "error", SPAWN))
        .collect();
    let two = storm_min_workers(Some("2"));
    let storms = storm_signatures(Some(rows.clone()), moment(now), 24, two);
    assert_eq!(storms.len(), 1, "{:?}", storms);
    assert_eq!(storms[0].distinct_fids, 2);
    let fallback = storm_min_workers(Some("garbage"));
    assert_eq!(fallback, 3);
    assert!(storm_signatures(Some(rows), moment(now), 24, fallback).is_empty());
    assert_eq!(storm_min_workers(Some("0")), 3);
}

#[test]
fn detects_disk_module_missing_from_binary() {
    let found = vec![
        "/w/.hex/modules/orbstack_prune.worker.rs".to_string(),
        "/w/.hex/modules/known.worker.rs".to_string(),
        "/w/.hex/modules/notes.md".to_string(),
    ];
    let compiled = vec!["known.worker.rs".to_string()];
    let missing = modules_not_landed(&found, &compiled);
    assert_eq!(missing, vec!["orbstack_prune.worker.rs".to_string()]);
}

#[test]
fn base_names_of_compiled_modules() {
    let paths = vec!["/a/b/one.worker.rs".to_string(), "/".to_string(), "two.rs".to_string()];
    assert_eq!(compiled_module_basenames(&paths), vec!["one.worker.rs", "two.rs"]);
}

#[test]
fn prev_fire_daily_cron() {
    let now = at(2026, 6, 11, 10, 0, 0);
    let prev = prev_fire("0 0 4 * * * *", moment(now)).unwrap();
    assert_eq!(prev, at(2026, 6, 11, 4, 0, 0).timestamp());
}

#[test]
fn prev_fire_weekly_cron() {
    let now = at(2026, 6, 11, 10, 0, 0);
    let prev = prev_fire("0 30 4 * * SUN *", moment(now)).unwrap();
    assert_eq!(prev, at(2026, 6, 7, 4, 30, 0).timestamp());
}

#[test]
fn a_fire_at_this_very_second_counts() {
    let now = at(2026, 6, 11, 4, 0, 0);
    assert_eq!(prev_fire("0 0 4 * * * *", moment(now)), Some(now.timestamp()));
    assert_eq!(prev_fire("no cron", moment(now)), None);
}

#[test]
fn cadence_of_15min_cron_is_900s() {
    let now = at(2026, 6, 11, 10, 7, 0);
    assert_eq!(cadence_secs("0 */15 * * * * *", moment(now)).unwrap(), 900);
}

#[test]
fn expectations_skip_event_triggers_and_disabled() {
    let regs = vec![
        RegisteredTrigger {
            worker: "a".into(),
            fid: "a::daily".into(),
            cron: Some("0 0 4 * * * *".into()),
        },
        RegisteredTrigger { worker: "b".into(), fid: "b::0".into(), cron: None },
        RegisteredTrigger {
            worker: "c".into(),
            fid: "c::daily".into(),
            cron: Some("0 0 5 * * * *".into()),
        },
    ];
    let disabled = vec!["c".to_string()];
    let exp = cron_expectations(&regs, &disabled);
    assert_eq!(exp.len(), 1);
    assert_eq!(exp[0].fid, "a::daily");
}

#[test]
fn alert_keys_are_path_safe() {
    assert_eq!(alert_key("missed", "hex-backup::daily"), "failures-missed-hex-backup-daily");
    assert_eq!(alert_key("missed", "a::b/c"), "failures-missed-a-b-c");
}

#[test]
fn triggers_of_the_registered_workers() {
    let registry = vec![Worker {
        name: "w".to_string(),
        handlers: vec![
            ("w::daily".to_string(), TriggerSpec::Cron("0 0 4 * * * *".to_string())),
            ("w::1".to_string(), TriggerSpec::Queue("q".to_string())),
        ],
    }];
    let t = registered_triggers(&registry);
    assert_eq!(t.len(), 2);
    assert_eq!(t[0].cron.as_deref(), Some("0 0 4 * * * *"));
    assert_eq!(t[1].fid, "w::1");
    assert!(t[1].cron.is_none());
}
