use hex_harness::assistant::Assistant;
use hex_harness::json::Json;
use hex_harness::llm_config::{
    config_path, is_known_use_case, model_env_key, resolve, transport_env_key, unknown_warnings, validate_transport, LlmEnv, LlmTomlFile, ResolvedLlm,
    SectionFields,
};
use hex_harness::memory::db_path;
use hex_harness::memory::distill::{
    fact_rows, insert_fact_with_history,
    apply_judge_decision, candidate_error, effective_fact, estimated_tokens, forced_failure,
    input_budget, Action as JudgeAction, Candidate, CandidateWrite, Decision, DedupOutcome,
    DistillReport, FactWrite,
};
use hex_harness::memory::distill_run::{run_on_file, Action, Event, FileRun, Move};
use hex_harness::memory::embed::{
    cache_dir, cleared_lock, document_texts, is_stale_lock, query_text, rss_line, rss_mb,
};
use hex_harness::memory::provider::{
    build_request_body, generate, generate_for, health_check, hex_root, load_api_key,
    load_openrouter_key, no_usage_warning, parse_chat_response, reported_usage, Call, ProviderError,
};
use hex_harness::memory::stats::{gather, print_json, print_table, RawStats};
use hex_harness::telemetry::TelemetryEvent;

fn s(v: &str) -> String {
    v.to_string()
}

fn scribe() -> Assistant {
    Assistant::named("scribe")
}

fn object(members: Vec<(&str, Json)>) -> Json {
    Json::Object(members.into_iter().map(|(k, v)| (s(k), v)).collect())
}

fn text(v: &str) -> Json {
    Json::Str(s(v))
}

// ── The configuration of the models ──────────────────────────────────────────

fn no_env() -> LlmEnv {
    LlmEnv { model: None, consolidate_model: None, transport: None }
}

fn fields(model: Option<&str>, max_tokens: Option<u32>) -> SectionFields {
    SectionFields { model: model.map(s), max_tokens, ..SectionFields::default() }
}

fn resolved(use_case: &str, env: &LlmEnv, file: Option<LlmTomlFile>) -> ResolvedLlm {
    resolve(&scribe(), use_case, env, &Ok(file)).expect("resolve ok")
}

#[test]
fn missing_file_uses_builtins() {
    let sonnet = "anthropic/scribe-sonnet-5";
    let r = resolved("memory_extract", &no_env(), None);
    assert_eq!(r.model, sonnet);
    assert_eq!(r.max_tokens, 16384);
    let r = resolved("memory_judge", &no_env(), None);
    assert_eq!(r.model, sonnet);
    assert_eq!(r.max_tokens, 4096);
    let r = resolved("consolidate_audit", &no_env(), None);
    assert_eq!(r.model, sonnet);
    assert_eq!(r.max_tokens, 16384);
    let r = resolved("health_check", &no_env(), None);
    assert_eq!(r.model, "anthropic/scribe-haiku-4.5");
    assert_eq!(r.transport, "http");
}

#[test]
fn a_section_overrides_the_defaults_field_by_field() {
    let file = || {
        Some(LlmTomlFile {
            defaults: Some(fields(Some("defaults/model"), None)),
            use_cases: vec![(s("memory_extract"), fields(Some("uc/extract-model"), Some(999)))],
        })
    };
    let r = resolved("memory_extract", &no_env(), file());
    assert_eq!((r.model.as_str(), r.max_tokens), ("uc/extract-model", 999));
    // A use case without a section has the model of the defaults and the
    // number of tokens that is built in.
    let r = resolved("memory_judge", &no_env(), file());
    assert_eq!(r.model, "defaults/model");
    assert_eq!(r.max_tokens, resolved("memory_judge", &no_env(), None).max_tokens);
}

#[test]
fn env_var_overrides_file() {
    let file = LlmTomlFile { defaults: None, use_cases: vec![(s("memory_extract"), fields(Some("file/model"), None))] };
    let env = LlmEnv { model: Some(s("env/model")), ..no_env() };
    assert_eq!(resolved("memory_extract", &env, Some(file)).model, "env/model");
    assert_eq!(model_env_key("memory_extract"), "HEX_LLM_MODEL_MEMORY_EXTRACT");
    assert_eq!(transport_env_key("memory_extract"), "HEX_LLM_TRANSPORT_MEMORY_EXTRACT");
}

#[test]
fn hex_consolidate_model_alias_still_works() {
    let env = LlmEnv { consolidate_model: Some(s("alias/consolidate")), ..no_env() };
    assert_eq!(resolved("consolidate_audit", &env, None).model, "alias/consolidate");
    assert_ne!(resolved("memory_extract", &env, None).model, "alias/consolidate");
}

#[test]
fn malformed_toml_is_hard_error() {
    let parsed: Result<toml::Value, toml::de::Error> = toml::from_str("this is = = not valid toml [[[");
    let e = format!("parsing llm.toml at /h/.hex/config/llm.toml: {}", parsed.unwrap_err());
    let msg = resolve(&scribe(), "memory_extract", &no_env(), &Err(e)).expect_err("malformed TOML must be a loud error");
    assert!(msg.to_lowercase().contains("llm.toml") || msg.to_lowercase().contains("toml"), "got: {msg}");
}

#[test]
fn only_known_transports_and_use_cases_are_taken() {
    let cli = "scribe-cli";
    assert_eq!(validate_transport(&scribe(), "http", "x"), Ok(()));
    assert_eq!(validate_transport(&scribe(), cli, "x"), Ok(()));
    let e = validate_transport(&scribe(), "carrier-pigeon", "env").unwrap_err();
    assert!(e.contains("carrier-pigeon") && e.ends_with(&format!("known transports are: http, {cli}")));
    let env = LlmEnv { transport: Some(s("carrier-pigeon")), ..no_env() };
    assert!(resolve(&scribe(), "memory_extract", &env, &Ok(None)).is_err());
    assert!(resolve(&scribe(), "no_such_case", &no_env(), &Ok(None)).is_err());
    assert!(is_known_use_case("health_check") && !is_known_use_case("health"));
    let file = LlmTomlFile {
        defaults: None,
        use_cases: vec![(s("health_check"), fields(None, None)), (s("zeta"), fields(None, None))],
    };
    assert_eq!(
        unknown_warnings(&file),
        vec![s("warning: llm.toml contains unknown [use_cases.zeta] — known use cases are: memory_extract, memory_judge, consolidate_audit, health_check")]
    );
}

// ── The provider ─────────────────────────────────────────────────────────────

#[test]
fn defer_when_no_key_present() {
    match generate("hi", "anthropic/scribe-sonnet-4.5", 10, None, None) {
        Err(ProviderError::Deferred(_)) => {}
        _ => panic!("expected Deferred"),
    }
}

#[test]
fn load_api_key_tolerates_export_prefix_in_secrets_file() {
    let secrets = "# comment line\nexport OPENROUTER_API_KEY=test-key-123\n";
    let key = load_api_key("OPENROUTER_API_KEY", None, Some(secrets));
    assert_eq!(key.as_deref(), Some("test-key-123"));
    assert_eq!(load_openrouter_key(Some("env-key"), Some(secrets)).as_deref(), Some("env-key"));
    assert_eq!(load_api_key("OTHER_KEY", None, Some(secrets)), None);
    assert_eq!(hex_root(Some("/x"), Some("/home/m")), "/x");
    assert_eq!(hex_root(None, Some("/home/m")), "/home/m/hex");
    assert_eq!(hex_root(None, None), "/tmp/hex");
}

#[test]
fn anthropic_model_includes_provider_routing() {
    let body = build_request_body("hello", "anthropic/scribe-sonnet-4-5", 100);
    let provider = body.get("provider").expect("provider field must be present for anthropic/* models");
    assert!(matches!(provider.get("allow_fallbacks"), Some(Json::Bool(false))));
    match provider.get("order") {
        Some(Json::Array(order)) => {
            assert_eq!(order.len(), 1);
            assert_eq!(order[0].as_text(), Some("anthropic"));
        }
        other => panic!("order must be an array: {other:?}"),
    }
    assert!(matches!(body.get("max_tokens"), Some(Json::Int(100))));
}

#[test]
fn openai_model_excludes_provider_routing() {
    let body = build_request_body("hello", "openai/gpt-4o", 100);
    assert!(body.get("provider").is_none(), "provider field must NOT be present for non-anthropic models");
}

#[test]
fn non_prefixed_model_excludes_provider_routing() {
    let body = build_request_body("hello", "meta-llama/llama-3", 100);
    assert!(body.get("provider").is_none(), "provider field must NOT be present for non-anthropic models");
}

#[test]
fn generate_for_uses_resolved_api_key_env() {
    let section = SectionFields { api_key_env: Some(s("MY_CUSTOM_LLM_KEY")), ..SectionFields::default() };
    let file = LlmTomlFile { defaults: None, use_cases: vec![(s("memory_extract"), section)] };
    let config = resolve(&scribe(), "memory_extract", &no_env(), &Ok(Some(file)));
    match generate_for(&scribe(), "memory_extract", "hi", &config, None, None) {
        Err(ProviderError::Deferred(msg)) => {
            assert!(msg.contains("MY_CUSTOM_LLM_KEY"), "got: {msg}");
        }
        other => panic!("expected Deferred mentioning MY_CUSTOM_LLM_KEY, got: {other:?}"),
    }
}

#[test]
fn a_call_goes_by_its_transport() {
    let config = resolve(&scribe(), "health_check", &no_env(), &Ok(None));
    match health_check(&scribe(), &config, Some("k"), None) {
        Ok(Call::Http(r)) => {
            assert_eq!((r.use_case.as_str(), r.key.as_str()), ("health_check", "k"));
            assert_eq!(r.model, "anthropic/scribe-haiku-4.5");
        }
        other => panic!("{other:?}"),
    }
    let env = LlmEnv { transport: Some(s("scribe-cli")), ..no_env() };
    let config = resolve(&scribe(), "memory_extract", &env, &Ok(None));
    match generate_for(&scribe(), "memory_extract", "hi", &config, None, None) {
        Ok(Call::ClaudeCli { prompt, max_tokens, .. }) => assert_eq!((prompt.as_str(), max_tokens), ("hi", 16384)),
        other => panic!("{other:?}"),
    }
    match generate_for(&scribe(), "memory_extract", "hi", &Err(s("torn")), None, None) {
        Err(ProviderError::Deferred(m)) => assert_eq!(m, "llm_config::resolve(memory_extract): torn"),
        other => panic!("{other:?}"),
    }
}

fn reply(finish: &str, content: Option<&str>) -> Json {
    let message = object(content.map(|c| ("content", text(c))).into_iter().collect());
    let choice = object(vec![("finish_reason", text(finish)), ("message", message)]);
    object(vec![("choices", Json::Array(vec![choice]))])
}

#[test]
fn parse_chat_response_truncated_with_partial_content_is_err_truncated() {
    match parse_chat_response("memory_judge", &reply("length", Some("{\"action\":\"ADD\"")), "") {
        Err(ProviderError::Truncated(msg)) => {
            assert!(msg.contains("memory_judge"), "got: {msg}");
            assert!(msg.to_lowercase().contains("truncat"), "got: {msg}");
        }
        other => panic!("expected Err(Truncated(_)), got: {other:?}"),
    }
}

#[test]
fn parse_chat_response_truncated_with_no_content_is_truncated_not_upstream() {
    match parse_chat_response("memory_judge", &reply("length", None), "") {
        Err(ProviderError::Truncated(_)) => {}
        other => panic!("expected Err(Truncated(_)), got: {other:?}"),
    }
}

#[test]
fn parse_chat_response_stop_with_content_returns_content() {
    assert_eq!(parse_chat_response("memory_judge", &reply("stop", Some("hello")), "").unwrap(), "hello");
}

#[test]
fn parse_chat_response_no_choices_is_upstream() {
    match parse_chat_response("memory_judge", &object(Vec::new()), "{}") {
        Err(ProviderError::Upstream(m)) => assert_eq!(m, "no content in response: {}"),
        other => panic!("expected Err(Upstream(_)), got: {other:?}"),
    }
}

#[test]
fn usage_is_counted_where_it_is_told() {
    let usage = object(vec![("prompt_tokens", Json::Int(7)), ("completion_tokens", Json::Int(-1))]);
    assert_eq!(reported_usage(&object(vec![("usage", usage)])), Some((7, 0)));
    assert_eq!(reported_usage(&object(Vec::new())), None);
    let large = object(vec![("prompt_tokens", Json::Number(s("18446744073709551615"))), ("completion_tokens", Json::Number(s("1.5")))]);
    assert_eq!(reported_usage(&object(vec![("usage", large)])), Some((u64::MAX, 0)));
    assert!(no_usage_warning("health_check", "m").starts_with("provider: WARNING OpenRouter response for use_case=health_check model=m had no `usage`"));
    assert_eq!(ProviderError::Upstream(s("x")).message(), "provider upstream error: x");
}

// ── Distilling ───────────────────────────────────────────────────────────────

fn candidate() -> Candidate {
    Candidate { subject: s("Mike"), predicate: s("prefers"), object: s("tea") }
}

fn decision(action: JudgeAction, target: Option<&str>, reason: &str) -> Decision {
    Decision { action, target_id: target.map(s), reason: s(reason) }
}

#[test]
fn untargeted_flag_does_not_violate_fk_or_error() {
    let mut report = DistillReport::default();
    let d = decision(JudgeAction::Flag, None, "ambiguous vs existing");
    let w = apply_judge_decision(&candidate(), "prefers", "tea", &d, "/tmp/t.md", &mut report);
    assert_eq!(report.flags, 1);
    match w {
        FactWrite::Event(e) => {
            assert_eq!(e.event, "distill::flag-untargeted");
            assert_eq!(
                e.detail.as_deref(),
                Some("contested, no target: (Mike,prefers,tea) in /tmp/t.md — ambiguous vs existing")
            );
        }
        other => panic!("no fact_history row may be written without a valid target: {other:?}"),
    }
    let d = decision(JudgeAction::Flag, Some(""), "empty");
    assert!(matches!(
        apply_judge_decision(&candidate(), "prefers", "tea", &d, "/t", &mut report),
        FactWrite::Event(_)
    ));
}

#[test]
fn targeted_flag_still_writes_history_row() {
    let mut report = DistillReport::default();
    let d = decision(JudgeAction::Flag, Some("F1"), "contradicts");
    match apply_judge_decision(&candidate(), "prefers", "tea", &d, "/tmp/t.md", &mut report) {
        FactWrite::FlagRow(id, m) => {
            assert_eq!(id, "F1");
            assert_eq!(m, "contested by: (Mike,prefers,tea) — contradicts");
        }
        other => panic!("a targeted FLAG keeps its fact_history row: {other:?}"),
    }
    assert_eq!(report.flags, 1);
}

#[test]
fn the_judge_adds_updates_and_leaves() {
    let mut report = DistillReport::default();
    let mut judge = |d: Decision| apply_judge_decision(&candidate(), "prefers", "tea", &d, "/t", &mut report);
    assert!(matches!(judge(decision(JudgeAction::Add, None, "")), FactWrite::Insert));
    assert!(matches!(judge(decision(JudgeAction::Update, Some("F1"), "")), FactWrite::Update(id) if id == "F1"));
    assert!(matches!(judge(decision(JudgeAction::Update, None, "r")), FactWrite::Event(e)
        if e.detail.as_deref() == Some("judge said UPDATE without target_id for (Mike,prefers,tea) in /t: r")));
    assert!(matches!(judge(decision(JudgeAction::Noop, None, "")), FactWrite::Nothing));
    assert_eq!(report, DistillReport { adds: 1, updates: 1, noops: 1, flags: 1 });
    assert_eq!(effective_fact(&candidate(), false), (s("_unmapped"), s("prefers: tea")));
    assert_eq!(effective_fact(&candidate(), true), (s("prefers"), s("tea")));
}

/// The stored state of one transcript.
struct Stored {
    offset: u64,
    strikes: u32,
    events: Vec<TelemetryEvent>,
    log: Vec<String>,
}

fn told(st: &mut Stored, m: Move) -> Action {
    st.events.extend(m.events);
    st.log.extend(m.log);
    m.action
}

/// One run over a transcript whose extraction fails with `failure`; the cap
/// takes the whole text.
fn failing_run(st: &mut Stored, transcript: &str, failure: &str) -> DistillReport {
    let (mut run, m) = run_on_file("/t.md", 5);
    let mut action = told(st, m);
    loop {
        let event = match action {
            Action::Read(_) => Event::Text(Ok(s(transcript))),
            Action::LastOffset(_) => Event::Offset(Ok(st.offset)),
            Action::Strikes(_) => Event::Strikes { base: None, strikes: Ok(st.strikes) },
            Action::Cap { span, .. } => Event::Cap(span.len()),
            Action::Extract(_) => Event::Extracted(Err(forced_failure(Some(failure)).unwrap())),
            Action::Store { advance_to, strikes } => {
                st.strikes = strikes;
                if let Some(o) = advance_to {
                    st.offset = o;
                }
                Event::Stored(Ok(()))
            }
            Action::Finish(r) => return r.unwrap(),
            other => panic!("{other:?}"),
        };
        let m = run.step(event);
        action = told(st, m);
    }
}

fn fresh() -> Stored {
    Stored { offset: 0, strikes: 0, events: Vec::new(), log: Vec::new() }
}

fn transcript() -> String {
    "This is a line of transcript content with several tokens in it.\n".repeat(200)
}

#[test]
fn deterministically_failing_slice_skipped_after_three_strikes() {
    let mut st = fresh();
    failing_run(&mut st, &transcript(), "1");
    assert_eq!(st.offset, 0, "strike 1: watermark must not advance on extract failure");
    assert_eq!(st.strikes, 1);
    failing_run(&mut st, &transcript(), "1");
    assert_eq!(st.offset, 0, "strike 2: watermark must not advance on extract failure");
    failing_run(&mut st, &transcript(), "1");
    assert!(st.offset > 0, "strike 3: watermark MUST advance past the poisoned slice");
    assert_eq!((st.offset, st.strikes), (transcript().len() as u64, 0));
    let slice_row = st.events.iter().rev().find(|r| r.event == "distill::slice").unwrap();
    assert_eq!(slice_row.status, "skipped");
    assert!(slice_row.detail.as_deref().unwrap_or("").contains("reason="));
    assert!(st.events.iter().any(|r| r.event == "distill::strike-warning" && r.status == "error"));
    assert!(st.events.iter().any(|r| r.event == "distill::poison-skip" && r.status == "error"));
    assert!(st.log.last().unwrap().starts_with("[distill] POISON SLICE SKIP: file=/t.md bytes=0..12800 strikes=3 budget_tokens=12000"));
}

#[test]
fn deferred_extract_failure_leaves_strikes_and_watermark_untouched() {
    let mut st = fresh();
    for tick in 1..=3 {
        failing_run(&mut st, &transcript(), "deferred");
        assert_eq!(st.offset, 0, "tick {tick}: Deferred must NOT advance the watermark");
        assert_eq!(st.strikes, 0, "tick {tick}: Deferred must NOT increment strikes");
        let slice_row = st.events.last().unwrap();
        assert_eq!((slice_row.event.as_str(), slice_row.status.as_str()), ("distill::slice", "deferred"));
        assert!(slice_row.detail.as_deref().unwrap_or("").contains("reason="));
    }
}

/// A run that has extracted these candidates.
fn extracted(found: Vec<(Candidate, bool)>) -> (FileRun, Move) {
    let (mut run, _) = run_on_file("/t.md", 1);
    run.step(Event::Text(Ok(s("one two three\nfour"))));
    run.step(Event::Offset(Ok(4)));
    run.step(Event::Strikes { base: Some(8000), strikes: Ok(1) });
    let m = run.step(Event::Cap(10));
    assert!(matches!(m.action, Action::Extract(t) if t == "two three\n"));
    assert!(m.log.unwrap().contains("slice_bytes=10 est_tokens=3 bytes_remaining=4 budget_tokens=4000 strikes=1"));
    let m = run.step(Event::Extracted(Ok(found)));
    assert!(matches!(m.action, Action::Begin));
    (run, m)
}

#[test]
fn a_slice_is_taken_in_candidate_by_candidate() {
    let (mut run, _) = extracted(vec![(candidate(), true), (candidate(), false), (candidate(), true), (candidate(), true), (candidate(), true)]);
    assert!(matches!(run.step(Event::Begun(Ok(()))).action, Action::Savepoint));
    // A new fact is counted once it is written.
    let m = run.step(Event::Savepoint(Ok(())));
    assert!(matches!(m.action, Action::Classify { index: 0, predicate, object } if predicate == "prefers" && object == "tea"));
    let m = run.step(Event::Classified(Ok(DedupOutcome::CleanAdd)));
    assert!(matches!(m.action, Action::Write { index: 0, write: CandidateWrite::Fact(FactWrite::Insert), .. }));
    assert!(matches!(run.step(Event::Written(Ok(()))).action, Action::Release));
    assert!(matches!(run.step(Event::Released(Ok(()))).action, Action::Savepoint));
    // An unknown predicate is kept in the object; a failed write is rolled back.
    let m = run.step(Event::Savepoint(Ok(())));
    assert!(matches!(m.action, Action::Classify { index: 1, predicate, object } if predicate == "_unmapped" && object == "prefers: tea"));
    run.step(Event::Classified(Ok(DedupOutcome::CleanAdd)));
    let m = run.step(Event::Written(Err(s("constraint"))));
    assert!(matches!(m.action, Action::Rollback));
    assert_eq!(m.events[0].event, "distill::candidate-error");
    assert_eq!(
        m.log.as_deref(),
        Some("[distill] candidate failed (rolled back, slice continues): (Mike,prefers,tea) in /t.md: constraint")
    );
    assert!(matches!(run.step(Event::RolledBack).action, Action::Savepoint));
    // A fact that is there is touched.
    run.step(Event::Savepoint(Ok(())));
    let m = run.step(Event::Classified(Ok(DedupOutcome::Noop(s("F7")))));
    assert!(matches!(m.action, Action::Write { write: CandidateWrite::Touch(id), .. } if id == "F7"));
    run.step(Event::Written(Ok(())));
    run.step(Event::Released(Ok(())));
    // A judge that fails costs a flag.
    run.step(Event::Savepoint(Ok(())));
    let m = run.step(Event::Classified(Ok(DedupOutcome::Judged(Err(s("timeout"))))));
    assert!(matches!(m.action, Action::Release));
    assert_eq!(m.events[0].event, "distill::judge-error");
    assert!(m.log.unwrap().ends_with(": timeout — recording FLAG and continuing"));
    run.step(Event::Released(Ok(())));
    // A candidate that cannot be looked up is rolled back.
    run.step(Event::Savepoint(Ok(())));
    assert!(matches!(run.step(Event::Classified(Err(s("no index")))).action, Action::Rollback));
    let m = run.step(Event::RolledBack);
    assert!(matches!(m.action, Action::Close { advance_to: 14 }));
    let m = run.step(Event::Stored(Ok(())));
    assert_eq!(m.events[0].status, "ok");
    match m.action {
        Action::Finish(Ok(r)) => assert_eq!(r, DistillReport { adds: 1, updates: 0, noops: 1, flags: 1 }),
        other => panic!("{other:?}"),
    }
}

#[test]
fn a_run_that_cannot_go_on_says_why() {
    let failed = |m: Move| matches!(m.action, Action::Finish(Err(e)) if e == "boom");
    let e = || Err(s("boom"));
    assert!(failed(run_on_file("/t", 1).0.step(Event::Text(Err(s("boom"))))));
    let (mut run, _) = run_on_file("/t", 1);
    run.step(Event::Text(Ok(s("a b"))));
    assert!(failed(run.step(Event::Offset(Err(s("boom"))))));
    let (mut run, _) = extracted(vec![(candidate(), true)]);
    assert!(failed(run.step(Event::Begun(e()))));
    let (mut run, _) = extracted(Vec::new());
    assert!(matches!(run.step(Event::Begun(Ok(()))).action, Action::Close { .. }));
    assert!(failed(run.step(Event::Stored(e()))));
}

#[test]
fn a_run_resumes_at_the_start_of_a_character() {
    let begin = |full: &str, stored: u64, min: usize| {
        let (mut run, _) = run_on_file("/t", min);
        run.step(Event::Text(Ok(s(full))));
        run.step(Event::Offset(Ok(stored)))
    };
    let done = |m: &Move| matches!(&m.action, Action::Finish(Ok(r)) if *r == DistillReport::default());
    let m = begin("aä b", 2, 1);
    assert!(matches!(m.action, Action::Strikes(_)));
    assert_eq!(m.log.as_deref(), Some("[distill] resume reset: stored offset 2 not a UTF-8 boundary for /t — rounding down to 1"));
    let m = begin("ab", 9, 1);
    assert_eq!(m.log.as_deref(), Some("[distill] resume reset: stored offset 9 > file length 2 for /t — restarting at 0"));
    assert!(done(&begin("ab", 2, 1)));
    assert!(done(&begin("a b c", 0, 4)));
    assert!(!done(&begin("a b c d", 0, 4)));
}

#[test]
fn budgets_and_estimates_are_exact() {
    assert_eq!(input_budget(None, 0), 48_000);
    assert_eq!(input_budget(None, 1), 24_000);
    assert_eq!(input_budget(Some(10_000), 2), 2_500);
    assert_eq!(input_budget(Some(10_000), 9), 2_000);
    assert_eq!(estimated_tokens(0), 0);
    assert_eq!(estimated_tokens(7), 2);
    assert_eq!(estimated_tokens(8), 3);
    for n in [1u64, 3, 3500, 12_800, 1_000_003] {
        assert_eq!(estimated_tokens(n), (n as f64 / 3.5).ceil() as u32);
    }
    assert!(forced_failure(None).is_none() && forced_failure(Some("")).is_none());
    assert!(matches!(forced_failure(Some("DEFERRED")), Some(ProviderError::Deferred(_))));
    assert!(candidate_error(&candidate(), "/t", "x").detail.unwrap().starts_with("candidate rolled back (Mike,prefers,tea) in /t: x"));
}

// ── Embedding ────────────────────────────────────────────────────────────────

#[test]
fn clear_stale_locks_removes_old_but_keeps_fresh() {
    let secs = |n: u128| Some(n * 1_000_000_000);
    assert!(is_stale_lock(Some("lock"), secs(600)), "stale lock should be removed");
    assert!(!is_stale_lock(Some("lock"), secs(0)), "fresh lock (<60s) should be kept");
    assert!(!is_stale_lock(Some("lock"), secs(60)));
    assert!(!is_stale_lock(Some("onnx"), secs(600)), "non-lock files untouched");
    assert!(!is_stale_lock(None, None));
    assert!(is_stale_lock(Some("lock"), None));
    assert_eq!(cleared_lock("/c/abc.lock"), "hex memory: cleared stale fastembed lock /c/abc.lock");
}

#[test]
fn texts_for_the_embedder_are_marked() {
    assert_eq!(document_texts(&vec![s("a"), s("b")]), vec![s("search_document: a"), s("search_document: b")]);
    assert_eq!(query_text("q"), "search_query: q");
    assert_eq!(cache_dir("/h"), "/h/.fastembed_cache");
    assert_eq!(rss_mb("9000 512 3\n"), Some(2));
    assert_eq!(rss_mb("9000"), None);
    assert_eq!(rss_mb("9000 x"), None);
    assert_eq!(rss_line("start", Some(2)), "[rss] start: 2 MB");
    assert_eq!(rss_line("start", None), "[rss] start: (unavailable on this platform)");
    assert_eq!(db_path("/h"), "/h/.hex/memory.db");
}

// ── Statistics ───────────────────────────────────────────────────────────────

fn raw() -> RawStats {
    RawStats {
        files_indexed: Some(2),
        total_facts: Some(3),
        top_predicates: vec![(s("prefers"), 2), (s("uses"), 1)],
        top_subjects: vec![(s("mike"), 2)],
        db_size_bytes: Some(2048),
        last_consolidated: None,
        schema_version: Some(5),
        transcripts: Vec::new(),
        unembedded_chunks: Some(2),
        orphan_vectors: Some(1),
    }
}

#[test]
fn stats_output_contains_expected_headers() {
    let report = gather(raw());
    assert_eq!(report.files_indexed, 2, "should count 2 files");
    assert_eq!(report.total_facts, 3, "should count 3 live facts");
    assert!(!report.top_predicates.is_empty(), "should have predicates");
    assert_eq!(report.schema_version, Some(5));
    let lines = print_table(&report, "2.0");
    assert!(lines.contains(&s("Top predicates:")) && lines.contains(&s("Top subjects:")));
    assert!(lines.join("\n").contains("never"));
}

#[test]
fn stats_reads_last_consolidated_from_metadata() {
    assert!(gather(raw()).last_consolidated.is_none(), "should be unset before a run");
    let stamped = RawStats { last_consolidated: Some(s("2026-06-03T00:00:00-04:00")), ..raw() };
    let report = gather(stamped);
    assert_eq!(report.last_consolidated.as_deref(), Some("2026-06-03T00:00:00-04:00"));
    assert!(print_table(&report, "2.0").join("\n").contains("2026-06-03T00:00:00-04:00"));
}

#[test]
fn stats_reports_backfill_pending_bytes_from_transcript_files() {
    let report = gather(RawStats { transcripts: vec![(Some(1000), 400), (None, 7), (Some(5), 9)], ..raw() });
    assert_eq!(report.backfill_pending_bytes, 600);
}

#[test]
fn stats_reports_unembedded_chunks_and_orphan_vectors() {
    let report = gather(raw());
    assert_eq!(report.unembedded_chunks, 2);
    assert_eq!(report.orphan_vectors, 1);
    let report = gather(RawStats { unembedded_chunks: None, orphan_vectors: None, ..raw() });
    assert_eq!((report.unembedded_chunks, report.orphan_vectors), (-1, -1));
}

#[test]
fn stats_are_printed_as_json() {
    let v = print_json(&gather(raw()));
    assert!(matches!(v.get("files_indexed"), Some(Json::Int(2))));
    assert!(matches!(v.get("last_consolidated"), Some(Json::Null)));
}

#[test]
fn a_new_fact_and_its_history_share_an_id() {
    let rows = insert_fact_with_history("Asterfall", "deploy-command", "ship", "raw/t.md");
    assert_eq!(rows.id.len(), 26);
    assert!(rows.id.chars().all(|c| "0123456789ABCDEFGHJKMNPQRSTVWXYZ".contains(c)));
    assert_eq!(rows.id, rows.history_id);
    assert_eq!((rows.history_op, rows.history_value.as_str()), ("ADD", "ship"));
    assert_eq!((rows.subject.as_str(), rows.source_ref.as_str()), ("Asterfall", "raw/t.md"));
    let other = insert_fact_with_history("Asterfall", "deploy-command", "ship", "raw/t.md");
    assert_ne!(rows.id, other.id);
    assert_eq!(fact_rows(s("X"), "a", "b", "c", "d").history_id, "X");
}

#[test]
fn the_file_of_settings_is_found() {
    assert_eq!(config_path(Some("/w"), Some("/home/a")), "/w/.hex/config/llm.toml");
    assert_eq!(config_path(None, Some("/home/a")), "/home/a/hex/.hex/config/llm.toml");
    assert_eq!(config_path(None, None), "./hex/.hex/config/llm.toml");
}
