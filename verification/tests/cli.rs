use hex_harness::assistant::Assistant;
use hex_harness::calendar::{days_to_ymd, utc_text, EPOCH_DAYS};
use hex_harness::cli::{
    bootstrap_secrets_env, build_harness_spec, distill_line, exposed_note, freshness_end, gate_payload, is_exposed,
    list_module, module_list, module_refusal, module_set_enabled, module_source, module_status, outcome_of, outcome_row,
    run_freshness, secret_settings, selected_ids, show_result, status_lines, trigger_summary,
    workspace, AgentSeen,
};
use hex_harness::failures::{TriggerSpec, Worker};
use hex_harness::harness::{Opt, Prompt, ResultOut};
use hex_harness::json::Json;
use hex_harness::memory::distill::DistillReport;
use hex_harness::scipd::failure;
use hex_harness::telemetry::{
    parse_since, plan_telemetry, print_event_json, print_event_table, print_status_json,
    print_status_table, run_telemetry, EventRow, Shown, Since, StatusRow, StoreReply, StoreRequest,
    TelemetryCommand, TelemetryEvent, Verb,
};
use hex_harness::version::{chosen_version, commit_label};

fn s(v: &str) -> String {
    v.to_string()
}

fn scribe() -> Assistant {
    Assistant::named("scribe")
}

// ── Telemetry ────────────────────────────────────────────────────────────────

fn event_row() -> EventRow {
    EventRow {
        id: 7,
        ts: s("2026-01-01T00:00:00Z"),
        source: s("cron"),
        event: s("x::run"),
        status: s("ok"),
        duration_ms: Some(12),
        exit_code: None,
        detail: None,
    }
}

fn status_row() -> StatusRow {
    StatusRow {
        event: s("x::run"),
        last_ts: s("2026-01-01T00:00:00Z"),
        last_status: s("ok"),
        last_duration_ms: None,
        run_count: 3,
        ok_count: 2,
        error_count: 1,
    }
}

#[test]
fn since_takes_hours_and_days() {
    assert_eq!(parse_since("24h"), Ok(Since::Hours(24)));
    assert_eq!(parse_since("7d"), Ok(Since::Days(7)));
    assert_eq!(parse_since("5"), Ok(Since::Hours(5)));
    assert_eq!(parse_since(""), Err(s("empty --since value")));
    assert_eq!(parse_since("xd"), Err(s("invalid --since number `x`: invalid digit found in string")));
}

#[test]
fn telemetry_is_shown_as_table_or_json() {
    let lines = print_event_table(&vec![event_row()]);
    assert!(lines[0].starts_with("TS                        SOURCE           EVENT"));
    assert!(lines[1].starts_with("2026-01-01T00:00:00Z      cron             x::run"));
    assert!(lines[1].ends_with("      12"));
    let lines = print_status_table(&vec![status_row()]);
    assert!(lines[1].contains("    3     2     1        -"));
    match print_event_json(&vec![event_row()]) {
        Json::Array(v) => assert!(matches!(v[0].get("duration_ms"), Some(Json::Int(12)))),
        other => panic!("{other:?}"),
    }
    match print_status_json(&vec![status_row()]) {
        Json::Array(v) => assert!(matches!(v[0].get("error_count"), Some(Json::Int(1)))),
        other => panic!("{other:?}"),
    }
}

#[test]
fn telemetry_commands_are_planned_and_answered() {
    let (q, v) = plan_telemetry(TelemetryCommand::Recent { limit: 3, json: false }).unwrap();
    assert!(matches!(q, StoreRequest::Recent(3)));
    let r = run_telemetry(v, StoreReply::Events(vec![event_row()]));
    assert!(matches!((r.shown, r.code), (Shown::Lines(l), 0) if l.len() == 2));
    let r = run_telemetry(Verb::Recent { json: true }, StoreReply::Events(vec![event_row()]));
    assert!(matches!(r.shown, Shown::Value(Json::Array(v)) if v.len() == 1));
    let r = run_telemetry(v, StoreReply::Failed(s("locked")));
    assert!(matches!((r.shown, r.code), (Shown::Error(m), 1) if m == "telemetry recent: locked"));
    let (q, v) = plan_telemetry(TelemetryCommand::Failures { since: s("2d"), json: false }).unwrap();
    assert!(matches!((q, v), (StoreRequest::Failures(Since::Days(2)), Verb::Failures { json: false })));
    let e = plan_telemetry(TelemetryCommand::Failures { since: s(""), json: false }).unwrap_err();
    assert!(matches!((e.shown, e.code), (Shown::Error(m), 2) if m == "telemetry failures: empty --since value"));
    let (_, v) = plan_telemetry(TelemetryCommand::Prune { keep_days: 30 }).unwrap();
    let r = run_telemetry(v, StoreReply::Pruned(4));
    assert!(matches!(r.shown, Shown::Lines(l) if l == vec![s("pruned 4 events (kept last 30d)")]));
    let event = TelemetryEvent { source: s("a"), event: s("b"), status: s("ok"), duration_ms: None, exit_code: None, detail: None };
    let (q, v) = plan_telemetry(TelemetryCommand::Record { event }).unwrap();
    assert!(matches!(q, StoreRequest::Record(e) if e.event == "b"));
    let r = run_telemetry(v, StoreReply::Recorded);
    assert!(matches!(r.shown, Shown::Lines(l) if l == vec![s("recorded")]));
    let (q, v) = plan_telemetry(TelemetryCommand::Status { json: true }).unwrap();
    assert!(matches!(q, StoreRequest::Status));
    assert!(matches!(run_telemetry(v, StoreReply::Statuses(vec![status_row()])).shown, Shown::Value(_)));
}

// ── The command line ─────────────────────────────────────────────────────────

#[test]
fn the_workspace_is_named_or_found_at_home() {
    let notes = "SCRIBE.md";
    let w = workspace(Some("/x"), Some("/home/m")).unwrap();
    assert_eq!((w.path.as_str(), w.named), ("/x", true));
    assert_eq!(w.marker(&scribe()), format!("/x/{notes}"));
    assert_eq!(w.refusal(&scribe()), format!("ERROR: HEX_DIR=/x does not contain {notes} — not a valid hex workspace"));
    let w = workspace(None, Some("/home/m")).unwrap();
    assert_eq!(w.refusal(&scribe()), format!("ERROR: default hex dir /home/m/hex does not contain {notes} — set HEX_DIR explicitly"));
    assert_eq!(workspace(None, None).err(), Some(s("ERROR: neither HEX_DIR nor HOME is set")));
}

#[test]
fn stale_agents_are_told() {
    let agent = |name: &str, last_ts: i64| AgentSeen { agent: s(name), last_ts, window: 100 };
    let (reports, stale) = run_freshness(&vec![agent("a", 950), agent("b", 899)], 1000);
    assert_eq!(stale, 1);
    assert_eq!(reports[0].line, "a\tlast_ts=950\tage=50s\twindow=100s\tfresh");
    assert!(reports[0].alert.is_none() && reports[1].alert.is_some());
    assert_eq!(freshness_end(0), (0, None));
    assert_eq!(freshness_end(2), (1, Some(s("hex ledger freshness: 2 stale agent(s)"))));
}

#[test]
fn outcomes_are_read_from_their_payload() {
    let row = |payload: &str| outcome_row(5, s("a"), s("send"), payload);
    assert!(row("{\"success\": true, \"n\": [1, {\"x\": null}]}").unwrap().success);
    assert!(!row("{\"success\": \"true\"}").unwrap().success);
    assert!(!row("{}").unwrap().success);
    assert!(row("{").err().unwrap().starts_with("payload parse (ts=5): EOF"));
    assert_eq!(outcome_of(5, s("a"), s("b"), Err(s("bad"))).err(), Some(s("payload parse (ts=5): bad")));
    let v = Json::Object(vec![(s("success"), Json::Bool(true))]);
    let r = outcome_of(5, s("a"), s("b"), Ok(v)).unwrap();
    assert_eq!((r.agent.as_str(), r.action_class.as_str(), r.success, r.ts), ("a", "b", true, 5));
}

#[test]
fn the_service_runs_the_harness() {
    let spec = build_harness_spec("/h", Some("/usr/bin"));
    assert_eq!(spec.label, "com.hex.harness");
    assert_eq!(spec.program, "/h/.hex/bin/hex");
    assert_eq!(spec.args, vec![s("harness"), s("serve")]);
    assert!(spec.env.iter().any(|(k, v)| k == "PATH" && v.starts_with("/opt/homebrew/bin:") && v.ends_with("/usr/bin")));
    assert!(spec.keep_alive && spec.run_at_load);
}

#[test]
fn secrets_are_read_line_by_line() {
    let content = "# c\nexport A='x y'\nB=\"z\"\n=none\nplain\n C = v \n";
    assert_eq!(
        secret_settings(content),
        vec![(s("A"), s("x y")), (s("B"), s("z")), (s("C"), s("v"))]
    );
    let read = |ext: &str, mode: u32, content: Result<String, String>| {
        let r = bootstrap_secrets_env("/s/a.env", Some(ext), Some(mode), content);
        (r.settings, r.notes)
    };
    assert_eq!(read("env", 0o600, Ok(s("A=1\n"))), (vec![(s("A"), s("1"))], vec![s("hex harness: loaded A from /s/a.env")]));
    assert_eq!(read("env", 0o644, Ok(s("A=1"))).1.len(), 1);
    assert!(read("env", 0o644, Ok(s("A=1"))).0.is_empty());
    assert_eq!(read("env", 0o600, Err(s("denied"))), (Vec::new(), vec![s("hex harness: skipping /s/a.env: denied")]));
    assert_eq!(read("txt", 0o600, Ok(s("A=1"))), (Vec::new(), Vec::new()));
    assert!(!is_exposed(Some(0o600)));
    assert!(is_exposed(Some(0o640)));
    assert!(is_exposed(None));
    assert_eq!(exposed_note("/s"), "hex harness: skipping /s — unsafe permissions (run: chmod 600 /s)");
}

#[test]
fn modules_are_listed_and_switched() {
    let w = Worker {
        name: s("w"),
        handlers: vec![
            (s("a"), TriggerSpec::Cron(s("0 * * * * *"))),
            (s("b"), TriggerSpec::State { scope: s("x"), key: s("k") }),
            (s("c"), TriggerSpec::Queue(s("q"))),
        ],
    };
    assert_eq!(trigger_summary(&w), "cron(0 * * * * *), state(x/k), queue(q)");
    let paths = vec![(s("w"), s("/r/src/modules/w.rs")), (s("p"), s("/h/.hex/modules/p.rs"))];
    assert_eq!(module_source(&paths, "w").0, "core");
    assert_eq!(module_source(&paths, "p"), ("personal", s("/h/.hex/modules/p.rs")));
    assert_eq!(module_source(&paths, "z"), ("builtin", s("")));
    assert!(module_refusal(&vec![s("w")], "w", true).is_none());
    let r = module_refusal(&vec![s("w")], "z", true).unwrap();
    assert_eq!(r.line, "hex module enable: no worker named 'z' in this binary's registry (see: hex module list)");
    let r = module_set_enabled("w", false, Ok(true));
    assert_eq!(r.line, "hex module disable: 'w' disabled (effective at its next fire; no restart needed)");
    assert_eq!(module_set_enabled("w", true, Ok(false)).line, "hex module enable: 'w' already enabled");
    assert_eq!(module_set_enabled("w", true, Err(s("torn"))).exit_code, 1);
    assert!(list_module(&w, "core", true).ends_with("  DISABLED"));
    assert!(list_module(&w, "core", false).starts_with("w                            [core]  cron("));
    assert_eq!(status_lines(&w, "core", "", "enabled").len(), 4);
    assert_eq!(status_lines(&w, "core", "/p", "enabled")[2], "file:     /p");
    let registry = vec![w];
    let l = module_list(&registry, &paths, Ok(vec![s("gone"), s("w")]));
    assert_eq!((l.note, l.lines.len()), (None, 1));
    assert!(l.lines[0].contains("[core]") && l.lines[0].ends_with("  DISABLED"));
    assert_eq!(
        l.drift,
        vec![s("hex module list: WARNING — 'gone' is in the disabled store but not in this binary's registry")]
    );
    let l = module_list(&registry, &paths, Err(s("torn")));
    assert_eq!(l.note.as_deref(), Some("hex module list: disabled-store unreadable (torn) — states shown as enabled"));
    assert!(!l.lines[0].contains("DISABLED") && l.drift.is_empty());
    let st = module_status(&registry, &paths, "w", Ok(vec![s("w")]));
    assert_eq!((st.exit_code, st.lines[4].as_str()), (0, "state:    disabled"));
    let st = module_status(&registry, &paths, "w", Err(s("torn")));
    assert_eq!(st.note.as_deref(), Some("hex module status: disabled-store unreadable (torn)"));
    assert_eq!(st.lines[4], "state:    unknown (store unreadable)");
    let st = module_status(&registry, &paths, "z", Ok(Vec::new()));
    assert_eq!((st.exit_code, st.note.as_deref()), (1, Some("hex module status: no worker named 'z'")));
}

#[test]
fn results_are_shown() {
    assert_eq!(selected_ids(" a, ,b ,"), vec![s("a"), s("b")]);
    let r = ResultOut { event_id: s("E"), status: s("done"), output: s("hi"), prompt: None };
    assert_eq!(show_result(&r), vec![s("hi")]);
    let p = Prompt {
        id: s("Q"),
        text: s("Which?"),
        multi: false,
        options: vec![Opt { id: s("a"), label: s("A"), description: s("the a") }],
    };
    let lines = show_result(&ResultOut { prompt: Some(p), ..r });
    assert_eq!(lines[0], "hex asks (question Q): Which?");
    assert!(lines[1].contains("the a"));
    assert_eq!(
        distill_line(&DistillReport { adds: 1, updates: 2, noops: 3, flags: 4 }),
        "distill: adds=1 updates=2 noops=3 flags=4"
    );
    let g = gate_payload("h", true, &vec![s("r1")], "ls", Some("S"));
    assert_eq!(g.text_at("command"), Some(s("ls")));
    let f = failure("E1", "broken", "mend it");
    assert!(format!("{f:?}").contains("mend it"));
}

// ── Dates and versions ───────────────────────────────────────────────────────

#[test]
fn days_are_dates() {
    assert_eq!(days_to_ymd(0), (1970, 1, 1));
    assert_eq!(days_to_ymd(11_016), (2000, 2, 29));
    assert_eq!(days_to_ymd(20_454), (2026, 1, 1));
    for d in [0u64, 59, 365, 11_016, 20_454, 100_000] {
        let (y, m, day) = days_to_ymd(d);
        let date = chrono::NaiveDate::from_ymd_opt(y as i32, m as u32, day as u32).unwrap();
        assert_eq!((date - chrono::NaiveDate::from_ymd_opt(1970, 1, 1).unwrap()).num_days() as u64, d);
    }
    assert_eq!(utc_text(0), "1970-01-01T00:00:00Z");
    assert_eq!(utc_text(1_767_225_599), "2025-12-31T23:59:59Z");
    assert_eq!(EPOCH_DAYS, 719_528);
}

#[test]
fn versions_fall_back() {
    assert_eq!(chosen_version(Some(" 1.2.3\n"), Some("0.1.0")), "1.2.3");
    assert_eq!(chosen_version(None, Some("0.1.0")), "0.1.0");
    assert_eq!(chosen_version(None, None), "0.0.0-dev");
    assert_eq!(commit_label(Some("abc\n")), "abc");
    assert_eq!(commit_label(None), "unknown");
}
