use hex_harness::json::Json;
use hex_harness::log_tail::coalesce::EpisodeCoalescer;
use hex_harness::log_tail::emit::{durable_row, lost_event};
use hex_harness::log_tail::headroom::{numbers_of, payload, stage_numbers, HeadroomStageTimings};
use hex_harness::log_tail::observer::{Latency, LineObserver, Observation, Severity, Stage};
use hex_harness::log_tail::reader::{FileState, TailReader};
use hex_harness::log_tail::{
    checkpoint, checkpoint_key, chosen_observer, drain, flush, following, known_observers, next,
    observer_registry, quiet_window, restore, state_scope, take_line, watched_dir, Effect,
    LogTailConfig, Next, Wake,
};

fn s(v: &str) -> String {
    v.to_string()
}

/// The place of a number in the order of all numbers.
fn rank(x: f64) -> i64 {
    let bits = (x + 0.0).to_bits() as i64;
    if bits < 0 {
        i64::MIN - bits
    } else {
        bits
    }
}

fn latency(x: f64) -> Latency {
    Latency { rank: rank(x), text: format!("{x}"), rounded: x.round() as i64 }
}

fn observer(degraded: f64, stall: f64) -> HeadroomStageTimings {
    HeadroomStageTimings { degraded: rank(degraded), stall: rank(stall) }
}

fn observe(o: &HeadroomStageTimings, line: &str) -> Option<Observation> {
    let stages: Option<Vec<Stage>> = stage_numbers(line).map(|v| {
        v.into_iter().map(|(k, n)| (k, latency(n.parse().unwrap()))).collect()
    });
    o.observe(line, stages.as_ref())
}

fn obs() -> HeadroomStageTimings {
    observer(500.0, 2000.0)
}

const MS: u128 = 1_000_000;

// ── Severity ─────────────────────────────────────────────────────────────────

#[test]
fn classify_bands() {
    let classify = |v: f64, d: f64, st: f64| Severity::classify(rank(v), rank(d), rank(st));
    assert_eq!(classify(10.0, 500.0, 2000.0), Severity::Normal);
    assert_eq!(classify(500.0, 500.0, 2000.0), Severity::Degraded);
    assert_eq!(classify(1999.9, 500.0, 2000.0), Severity::Degraded);
    assert_eq!(classify(2000.0, 500.0, 2000.0), Severity::Stall);
    assert_eq!(classify(8800.0, 500.0, 2000.0), Severity::Stall);
}

#[test]
fn status_strings() {
    assert_eq!(Severity::Normal.status(), "ok");
    assert_eq!(Severity::Degraded.status(), "degraded");
    assert_eq!(Severity::Stall.status(), "stall");
}

#[test]
fn the_worse_of_two_is_kept() {
    assert_eq!(Severity::Degraded.worse(Severity::Stall), Severity::Stall);
    assert_eq!(Severity::Stall.worse(Severity::Normal), Severity::Stall);
    assert_eq!(Severity::Normal.worse(Severity::Degraded), Severity::Degraded);
}

// ── Episodes ─────────────────────────────────────────────────────────────────

#[test]
fn single_breach_then_quiet_closes_episode_of_one() {
    let mut c = EpisodeCoalescer::new(100 * MS);
    let t0 = 5 * MS;
    assert!(c.record_breach(t0, latency(600.0), Severity::Degraded, Some(s("read_request_json"))).is_none());
    assert!(c.tick(t0 + 50 * MS).is_none());
    let ep = c.tick(t0 + 200 * MS).unwrap();
    assert_eq!(ep.count, 1);
    assert_eq!(ep.peak.rank, rank(600.0));
    assert_eq!(ep.peak_severity, Severity::Degraded);
    assert_eq!(ep.dominant_stage.as_deref(), Some("read_request_json"));
}

#[test]
fn burst_within_window_coalesces_into_one_with_peak_and_count() {
    let mut c = EpisodeCoalescer::new(100 * MS);
    let t0 = 0;
    assert!(c.record_breach(t0, latency(600.0), Severity::Degraded, Some(s("a"))).is_none());
    assert!(c.record_breach(t0 + 10 * MS, latency(8800.0), Severity::Stall, Some(s("deep_copy"))).is_none());
    assert!(c.record_breach(t0 + 20 * MS, latency(700.0), Severity::Degraded, Some(s("a"))).is_none());
    let ep = c.tick(t0 + 200 * MS).unwrap();
    assert_eq!(ep.count, 3, "three breaches in one burst → one episode of 3");
    assert_eq!(ep.peak.rank, rank(8800.0), "peak is the worst in the burst");
    assert_eq!(ep.peak_severity, Severity::Stall, "any Stall makes the episode Stall");
    assert_eq!(ep.dominant_stage.as_deref(), Some("deep_copy"), "dominant stage tracks the peak");
}

#[test]
fn all_degraded_burst_stays_degraded() {
    let mut c = EpisodeCoalescer::new(100 * MS);
    c.record_breach(0, latency(600.0), Severity::Degraded, None);
    c.record_breach(10 * MS, latency(700.0), Severity::Degraded, None);
    let ep = c.tick(200 * MS).unwrap();
    assert_eq!(ep.peak_severity, Severity::Degraded, "no Stall in the burst → episode is Degraded, not Stall");
}

#[test]
fn episodes_count_every_breach_once() {
    let mut c = EpisodeCoalescer::new(100 * MS);
    let mut counts = Vec::new();
    let mut breaches = 0;
    let times: [u128; 8] = [0, 50, 151, 151, 400, 410, 900, 950];
    for (i, t) in times.into_iter().enumerate() {
        let closed = c.record_breach(t * MS, latency(600.0 + i as f64), Severity::Degraded, None);
        breaches += 1;
        counts.extend(closed.map(|e| e.count));
        if i % 3 == 0 {
            counts.extend(c.tick((t + 99) * MS).map(|e| e.count));
        }
        let open = c.open.as_ref().map_or(0, |o| o.episode.count);
        assert_eq!(counts.iter().sum::<u64>() + open, breaches);
    }
    assert_eq!(counts, vec![2, 2, 2]);
    assert_eq!(c.tick(1051 * MS).unwrap().peak.rank, rank(607.0));
}

#[test]
fn gap_closes_prior_and_opens_new() {
    let mut c = EpisodeCoalescer::new(100 * MS);
    assert!(c.record_breach(0, latency(600.0), Severity::Degraded, None).is_none());
    let closed = c
        .record_breach(300 * MS, latency(900.0), Severity::Degraded, None)
        .expect("prior episode should close");
    assert_eq!(closed.count, 1);
    assert_eq!(closed.peak.rank, rank(600.0));
    let next = c.tick(500 * MS).unwrap();
    assert_eq!(next.count, 1);
    assert_eq!(next.peak.rank, rank(900.0));
}

#[test]
fn tick_with_nothing_open_is_none() {
    let mut c = EpisodeCoalescer::new(100 * MS);
    assert!(c.tick(7).is_none());
}

// ── Stage timings ────────────────────────────────────────────────────────────

#[test]
fn ignores_non_stage_timings_lines() {
    assert!(observe(&obs(), "2026-06-13 - headroom.proxy - INFO - some other log").is_none());
    assert!(observe(&obs(), "").is_none());
}

#[test]
fn malformed_json_does_not_panic_and_returns_none() {
    assert!(observe(&obs(), "[req] STAGE_TIMINGS {not valid json").is_none());
    assert!(observe(&obs(), "[req] STAGE_TIMINGS {}").is_none());
    assert!(observe(&obs(), r#"[req] STAGE_TIMINGS {"stages": {}}"#).is_none());
    assert!(observe(&obs(), r#"[req] STAGE_TIMINGS {"stages": {"total_pre_upstream": "1"}}"#).is_none());
}

#[test]
fn parses_value_in_ms_without_scaling() {
    let line = r#"... STAGE_TIMINGS {"stages": {"total_pre_upstream": 1.54, "read_request_json": 0.6, "deep_copy": 0.1}}"#;
    let o = observe(&obs(), line).unwrap();
    assert_eq!(o.value.rank, rank(1.54), "value must be ms verbatim, got {}", o.value.text);
    assert_eq!(o.severity, Severity::Normal);
    assert_eq!(o.stage.as_deref(), Some("read_request_json"), "dominant blocking stage");
}

#[test]
fn classifies_degraded_and_stall() {
    let degraded = r#"x STAGE_TIMINGS {"stages": {"total_pre_upstream": 750.0}}"#;
    assert_eq!(observe(&obs(), degraded).unwrap().severity, Severity::Degraded);
    let stall = r#"x STAGE_TIMINGS {"stages": {"total_pre_upstream": 8800.0}}"#;
    assert_eq!(observe(&obs(), stall).unwrap().severity, Severity::Stall);
}

#[test]
fn the_payload_is_read_behind_its_marker() {
    assert_eq!(payload("x STAGE_TIMINGS  junk {\"a\": 1} "), Some(s("{\"a\": 1}")));
    assert_eq!(payload("x STAGE_TIMINGS none"), None);
    let line = r#"STAGE_TIMINGS {"stages": {"b": 2, "a": 1.5, "c": "x", "d": -3}}"#;
    assert_eq!(
        stage_numbers(line),
        Some(vec![(s("a"), s("1.5")), (s("b"), s("2")), (s("d"), s("-3"))])
    );
    let stages = Json::Object(vec![(s("z"), Json::Int(7)), (s("y"), Json::Bool(true)), (s("x"), Json::Number(s("0.5")))]);
    let v = Json::Object(vec![(s("stages"), stages)]);
    assert_eq!(numbers_of(&v), Some(vec![(s("z"), s("7")), (s("x"), s("0.5"))]));
    assert_eq!(numbers_of(&Json::Null), None);
}

// ── The follower ─────────────────────────────────────────────────────────────

fn config() -> LogTailConfig {
    LogTailConfig {
        path: s("/tmp/x"),
        observer: s("headroom-stage-timings"),
        event: s("headroom.overhead"),
        source: s("headroom-proxy"),
        degraded: rank(500.0),
        stall: rank(2000.0),
        quiet_ms: 3000,
        from_start: false,
    }
}

#[test]
fn registry_resolves_headroom_and_rejects_unknown() {
    assert!(observer_registry("headroom-stage-timings", rank(500.0), rank(2000.0)).is_some());
    assert!(observer_registry("does-not-exist", rank(500.0), rank(2000.0)).is_none());
}

#[test]
fn known_observers_all_resolve() {
    for name in known_observers() {
        assert!(observer_registry(name, rank(500.0), rank(2000.0)).is_some(), "{name} must resolve");
    }
}

#[test]
fn registry_threshold_sets_stall_at_four_x() {
    let o = observer_registry("headroom-stage-timings", rank(500.0), rank(4.0 * 500.0)).unwrap();
    let severity = |line: &str| observe(&o, line).unwrap().severity;
    assert_eq!(severity(r#"x STAGE_TIMINGS {"stages":{"total_pre_upstream":1999.0}}"#), Severity::Degraded);
    assert_eq!(severity(r#"x STAGE_TIMINGS {"stages":{"total_pre_upstream":2000.0}}"#), Severity::Stall);
}

#[test]
fn checkpoint_key_is_source_scoped() {
    assert_eq!(checkpoint_key(&config()), "offset:headroom-proxy");
    assert_eq!(state_scope(), "log-tail");
}

#[test]
fn a_follower_is_set_up_from_its_configuration() {
    let cfg = config();
    let o = chosen_observer(&cfg).unwrap();
    assert_eq!(
        following(&cfg, &o),
        "hex log-tail: following /tmp/x via observer 'headroom-stage-timings' → event 'headroom.overhead' (durable source 'headroom-proxy')"
    );
    let unknown = LogTailConfig { observer: s("nope"), ..config() };
    assert_eq!(
        chosen_observer(&unknown).err(),
        Some(s("hex log-tail: unknown observer 'nope' (known: headroom-stage-timings)"))
    );
    assert_eq!(quiet_window(&cfg), 3000);
    assert_eq!(quiet_window(&LogTailConfig { quiet_ms: 0, ..config() }), 50);
    let mut r = TailReader::new("/var/log/x.log", false);
    assert_eq!(restore(&mut r, Ok(Some(40))), None);
    assert_eq!(r.offset(), 40);
    assert!(restore(&mut r, Err(s("locked"))).unwrap().ends_with("locked"));
    assert_eq!(r.offset(), 40);
    assert_eq!(watched_dir(&r), Ok(s("/var/log")));
    assert!(watched_dir(&TailReader::new("/", false)).is_err());
    assert!(matches!(next(Wake::Changed), Next::Drain));
    assert!(matches!(next(Wake::Idle), Next::Flush));
    assert!(matches!(next(Wake::WatchError(s("gone"))), Next::Report(m) if m.contains("gone")));
    assert!(matches!(next(Wake::Disconnected), Next::Exit(_, 1)));
    assert_eq!(checkpoint(5, 5), None);
    assert_eq!(checkpoint(5, 9), Some(9));
}

#[test]
fn a_burst_is_reported_once() {
    let cfg = config();
    let mut c = EpisodeCoalescer::new(100 * MS);
    let o = obs();
    let slow = r#"x STAGE_TIMINGS {"stages": {"total_pre_upstream": 8800.0}}"#;
    let fine = r#"x STAGE_TIMINGS {"stages": {"total_pre_upstream": 1.0}}"#;
    assert!(take_line(&cfg, &mut c, observe(&o, fine), 0).iter().all(|e| e.status == "ok"));
    assert!(take_line(&cfg, &mut c, None, 0).is_empty());
    let mut rows = take_line(&cfg, &mut c, observe(&o, slow), 0);
    rows.extend(take_line(&cfg, &mut c, observe(&o, slow), MS));
    rows.extend(flush(&cfg, &mut c, 300 * MS));
    let stalls: Vec<_> = rows.iter().filter(|e| e.event == "stall_episode").collect();
    assert_eq!(stalls.len(), 1, "{rows:?}");
    assert!(flush(&cfg, &mut c, 900 * MS).is_empty());
    let row = durable_row(stalls[0], s("{}"));
    assert_eq!((row.source.as_str(), row.detail.as_deref()), ("headroom-proxy", Some("{}")));
    assert!(lost_event("bus down").contains("bus down"));
}

#[test]
fn a_drain_reports_before_it_remembers() {
    let cfg = config();
    let mut c = EpisodeCoalescer::new(100 * MS);
    let o = obs();
    let slow = r#"x STAGE_TIMINGS {"stages": {"total_pre_upstream": 8800.0}}"#;
    let seen = vec![(observe(&o, slow), 0), (None, MS), (observe(&o, slow), 200 * MS)];
    let effects = drain(&cfg, &mut c, seen, 0, 90, 400 * MS);
    let kinds: Vec<String> = effects
        .iter()
        .map(|e| match e {
            Effect::Report(a) => a.event.clone(),
            Effect::Checkpoint(n) => format!("at {n}"),
        })
        .collect();
    assert_eq!(kinds, vec!["overhead", "overhead", "stall_episode", "at 90", "stall_episode"]);
    assert!(drain(&cfg, &mut c, Vec::new(), 90, 90, 500 * MS).is_empty());
}

// ── Reading ──────────────────────────────────────────────────────────────────

/// What a reader sees of a file.
fn read(r: &mut TailReader, content: &[u8], inode: u64) -> Vec<String> {
    let len = content.len() as u64;
    let tail = match r.start(len, Some(inode)) {
        Some(from) => content[from as usize..].to_vec(),
        None => Vec::new(),
    };
    r.read_new(Some(FileState { len, inode: Some(inode), tail }))
}

#[test]
fn appends_advance_offset_and_only_complete_lines() {
    let mut r = TailReader::new("/log", true);
    assert_eq!(read(&mut r, b"line one\nline two\n", 1), vec![s("line one"), s("line two")]);
    let off = r.offset();
    assert_eq!(off, 18);
    assert!(read(&mut r, b"line one\nline two\npartial", 1).is_empty());
    assert_eq!(r.offset(), off, "partial line must not advance the offset");
    assert_eq!(read(&mut r, b"line one\nline two\npartial done\n", 1), vec![s("partial done")]);
}

#[test]
fn from_eof_skips_existing_then_reads_new() {
    let mut r = TailReader::new("/log", false);
    assert!(read(&mut r, b"old\n", 1).is_empty());
    assert_eq!(read(&mut r, b"old\nnew\n", 1), vec![s("new")]);
}

#[test]
fn truncation_restarts_from_zero() {
    let mut r = TailReader::new("/log", true);
    assert_eq!(read(&mut r, b"a\nb\n", 1).len(), 2);
    assert_eq!(read(&mut r, b"c\n", 1), vec![s("c")]);
}

#[test]
fn inode_change_restarts_even_when_new_file_is_larger() {
    let mut r = TailReader::new("/log", true);
    assert_eq!(read(&mut r, b"x\n", 1), vec![s("x")]);
    assert_eq!(r.offset(), 2);
    assert_eq!(
        read(&mut r, b"alpha\nbeta\n", 2),
        vec![s("alpha"), s("beta")],
        "inode change must restart from 0 even though the new file is larger"
    );
}

#[test]
fn missing_file_is_not_an_error() {
    let mut r = TailReader::new("/log", true);
    assert!(r.read_new(None).is_empty());
}

#[test]
fn strips_crlf() {
    let mut r = TailReader::new("/log", true);
    assert_eq!(read(&mut r, b"win\r\nunix\n", 1), vec![s("win"), s("unix")]);
}

#[test]
fn bytes_that_are_no_text_are_replaced() {
    let mut r = TailReader::new("/log", true);
    assert_eq!(read(&mut r, b"a\xffb\n", 1), vec![s("a\u{fffd}b")]);
    assert_eq!(r.parent_dir(), Some(s("/")));
}
