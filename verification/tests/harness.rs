use hex_harness::harness::{
    answer_value, mirror, mirror_row, prompt_value, submit, submit_with_root, Action, Answer, Event,
    Opt, Prompt, Resolved, StoredMessage, WorkerOutput,
};
use hex_harness::hook::user_prompt_submit::{emit_context, plan, plan_for, write_error, HookStep};
use hex_harness::json::Json;
use serde_json::Value;

fn s(v: &str) -> String {
    v.to_string()
}

fn prompt() -> Prompt {
    Prompt {
        id: s("Q"),
        text: s("Rebuy?"),
        multi: false,
        options: vec![Opt { id: s("b"), label: s("tilt"), description: s("sell ETH on rebuy") }],
    }
}

fn event(reply_to: Option<&str>, answer: Option<Answer>, body: Option<&str>) -> Event {
    Event {
        id: s("E"),
        source: s("mike-cli"),
        kind: s("request"),
        body: body.map(s),
        reply_to: reply_to.map(s),
        answer,
        refs: None,
        scope: None,
        ts: s("t1"),
    }
}

fn pick(id: &str) -> Option<Answer> {
    Some(Answer { selected: vec![s(id)], free_text: None })
}

#[test]
fn submit_reply_pins_choice_and_persists() {
    let mut stored: Vec<StoredMessage> = Vec::new();
    let (run, action) = submit(event(Some("Q"), pick("b"), None));
    assert!(matches!(action, Action::Lookup(id) if id == "Q"));
    let (run, action) = run.found(Ok(Some(Some(prompt()))));
    let (p, a) = match action {
        Action::Resolve(p, a) => (p, a),
        other => panic!("{other:?}"),
    };
    assert_eq!(a.selected, vec![s("b")]);
    let pin = format!("{} — {}", p.options[0].label, p.options[0].description);
    let (run, action) = run.resolved(Ok(Resolved { query: s("rebuy"), pin }));
    match action {
        Action::Store(m) => stored.push(m),
        other => panic!("{other:?}"),
    }
    let (run, action) = run.stored(Ok(()));
    assert!(matches!(action, Action::Assemble { query, root: None } if query == "rebuy"));
    let (run, action) = run.assembled("");
    let input = match action {
        Action::Work(input) => input,
        other => panic!("{other:?}"),
    };
    let (_, action) = run.worked(Ok(WorkerOutput::Answer(format!("SAW::{input}"))));
    let r = match action {
        Action::Finish(Ok(r)) => r,
        other => panic!("{other:?}"),
    };
    assert_eq!(r.status, "done");
    assert!(r.output.contains("sell ETH on rebuy"), "pin reached worker: {}", r.output);
    assert!(stored.iter().any(|m| m.id == "E" && m.reply_to.as_deref() == Some("Q")));
}

fn failure(action: Action) -> String {
    match action {
        Action::Finish(Err(e)) => e,
        other => panic!("{other:?}"),
    }
}

#[test]
fn a_reply_to_nothing_goes_nowhere() {
    let begin = |answer| submit(event(Some("Q"), answer, None)).0;
    assert_eq!(failure(begin(None).found(Err(s("locked"))).1), "messages lookup failed: locked");
    assert_eq!(
        failure(begin(None).found(Ok(None)).1),
        "reply_to target \"Q\" not found (referential integrity)"
    );
    assert_eq!(
        failure(begin(None).found(Ok(Some(Some(prompt())))).1),
        "reply to question Q carried no answer"
    );
    let (run, _) = begin(pick("z")).found(Ok(Some(Some(prompt()))));
    assert_eq!(failure(run.resolved(Err(s("no option z"))).1), "no option z");
}

#[test]
fn a_reply_to_a_plain_message_is_a_note() {
    let (run, _) = submit(event(Some("Q\"x"), None, Some("hello")));
    let (run, action) = run.found(Ok(Some(None)));
    assert!(matches!(action, Action::Store(_)));
    let (run, action) = run.stored(Ok(()));
    assert!(matches!(action, Action::Assemble { query, .. } if query == "(reply to non-question Q\"x) hello"));
    let (_, action) = run.assembled("CTX");
    assert!(matches!(action, Action::Work(i) if i == "CTX\n\nNote: reply_to target Q\"x is not a question.\n"));
}

#[test]
fn the_debug_form_of_an_identifier_is_escaped() {
    let (run, _) = submit(event(Some("a\"b"), None, None));
    assert_eq!(
        failure(run.found(Ok(None)).1),
        "reply_to target \"a\\\"b\" not found (referential integrity)"
    );
}

#[test]
fn nothing_runs_for_an_event_that_was_not_stored() {
    let (run, action) = submit_with_root("/h", event(None, None, Some("hi")));
    assert!(matches!(action, Action::Store(m) if m.body.as_deref() == Some("hi")));
    assert_eq!(failure(run.stored(Err(s("full"))).1), "messages insert failed (fatal): full");
}

#[test]
fn a_question_of_the_worker_is_stored() {
    let (run, _) = submit_with_root("/h", event(None, None, Some("hi")));
    let (run, action) = run.stored(Ok(()));
    assert!(matches!(action, Action::Assemble { query, root: Some(r) } if query == "hi" && r == "/h"));
    let (run, action) = run.assembled(" \n");
    assert!(matches!(action, Action::Work(i) if i == "hi"));
    let (run, action) = run.worked(Ok(WorkerOutput::Question(prompt())));
    assert!(matches!(action, Action::StoreQuestion { id, source, ts, .. } if id == "Q" && source == "hex" && ts == "t1"));
    let (_, action) = run.asked(Ok(()));
    match action {
        Action::Finish(Ok(r)) => {
            assert_eq!(r.event_id, "E");
            assert_eq!(r.prompt.unwrap().text, "Rebuy?");
        }
        other => panic!("{other:?}"),
    }
    let (run, _) = submit(event(None, None, None)).0.stored(Ok(()));
    let (run, _) = run.assembled("");
    assert_eq!(failure(run.worked(Err(s("dead"))).1), "dead");
}

/// The text of a value, and the value that is read from it.
fn reread(j: &Json) -> Value {
    fn value(j: &Json) -> Value {
        match j {
            Json::Null => Value::Null,
            Json::Bool(b) => Value::Bool(*b),
            Json::Int(n) => Value::from(*n),
            Json::Number(t) => serde_json::from_str(t).unwrap(),
            Json::Str(t) => Value::String(t.clone()),
            Json::Array(v) => Value::Array(v.iter().map(value).collect()),
            Json::Object(v) => {
                Value::Object(v.iter().map(|(k, x)| (k.clone(), value(x))).collect())
            }
        }
    }
    serde_json::from_str(&serde_json::to_string(&value(j)).unwrap()).unwrap()
}

fn text_at(j: &Json, key: &str) -> String {
    j.text_at(key).unwrap()
}

#[test]
fn event_and_prompt_roundtrip_json() {
    let p = Prompt {
        id: s("Q1"),
        text: s("pick"),
        multi: false,
        options: vec![Opt { id: s("a"), label: s("A"), description: s("the a") }],
    };
    let back = reread(&prompt_value(&p));
    assert_eq!(back["id"], "Q1");
    assert_eq!(back["text"], "pick");
    assert_eq!(back["multi"], false);
    assert_eq!(back["options"][0]["id"], "a");
    assert_eq!(back["options"][0]["label"], "A");
    assert_eq!(back["options"][0]["description"], "the a");

    let e = Event {
        id: s("E1"),
        source: s("mike-cli"),
        kind: s("request"),
        body: None,
        reply_to: Some(s("Q1")),
        answer: Some(Answer { selected: vec![s("a")], free_text: None }),
        refs: None,
        scope: None,
        ts: s("2026-06-05T00:00:00Z"),
    };
    let (run, action) = submit(e);
    assert!(matches!(action, Action::Lookup(id) if id == "Q1"));
    let (run, _) = run.found(Ok(Some(Some(p))));
    let (_, action) = run.resolved(Ok(Resolved { query: s("q"), pin: s("p") }));
    let m = match action {
        Action::Store(m) => m,
        other => panic!("{other:?}"),
    };
    assert_eq!((m.id.as_str(), m.source.as_str()), ("E1", "mike-cli"));
    assert_eq!((m.kind.as_str(), m.ts.as_str()), ("request", "2026-06-05T00:00:00Z"));
    assert_eq!(m.reply_to.as_deref(), Some("Q1"));
    let written = reread(&answer_value(m.answer.as_ref().unwrap()));
    assert_eq!(written["selected"], Value::from(vec!["a"]));
    let back = reread(&mirror(&m));
    assert_eq!(back["id"], "E1");
    assert_eq!(back["kind"], "request");
    assert_eq!(back["answer"]["selected"], Value::from(vec!["a"]));
}

#[test]
fn a_stored_message_is_mirrored() {
    let m = StoredMessage {
        id: s("E"),
        source: s("cli"),
        kind: s("request"),
        body: Some(s("hi")),
        reply_to: None,
        answer: None,
        prompt: None,
        ts: s("t1"),
    };
    assert_eq!(text_at(&mirror(&m), "id"), "E");
    let row = mirror_row(&m, s("{}"));
    assert_eq!((row.source.as_str(), row.event.as_str(), row.status.as_str()), ("cli", "message", "ok"));
    assert_eq!(row.detail.as_deref(), Some("{}"));
}

// ── The hook ─────────────────────────────────────────────────────────────────

fn input(text: &str) -> Result<String, String> {
    Ok(format!("{{\"prompt\": \"{text}\", \"n\": [1, 2.5, null, {{}}]}}"))
}

#[test]
fn emit_context_is_valid_hook_json() {
    let v = emit_context(true, "hello").unwrap();
    let out = v.get("hookSpecificOutput").unwrap();
    assert_eq!(text_at(out, "hookEventName"), "UserPromptSubmit");
    assert_eq!(text_at(out, "additionalContext"), "hello");
    assert!(emit_context(false, "hello").is_none());
}

#[test]
fn the_hook_recalls_for_a_prompt_in_a_workspace() {
    match plan(input("what is it"), Some("/h"), Some("/p")) {
        HookStep::Recall { root, prompt } => assert_eq!((root.as_str(), prompt.as_str()), ("/h", "what is it")),
        other => panic!("{other:?}"),
    }
    match plan(input("what is it"), None, Some("/p")) {
        HookStep::Recall { root, .. } => assert_eq!(root, "/p"),
        other => panic!("{other:?}"),
    }
    assert!(matches!(plan(input("what is it"), None, None), HookStep::Report(_)));
    let said = |step: HookStep| match step {
        HookStep::Report(m) => m,
        other => panic!("{other:?}"),
    };
    assert_eq!(said(plan(Err(s("eof")), Some("/h"), None)), "[hook/user-prompt-submit] read hook input: eof");
    assert!(said(plan(Ok(s("{")), Some("/h"), None)).starts_with("[hook/user-prompt-submit] parse hook input: EOF"));
    assert_eq!(
        said(plan(Ok(s("{\"prompt\": 3}")), Some("/h"), None)),
        "[hook/user-prompt-submit] hook input has no string prompt"
    );
    assert_eq!(said(plan_for(Err(s("bad")), Some("/h"), None)), "[hook/user-prompt-submit] parse hook input: bad");
    assert_eq!(
        said(plan_for(Ok(Json::Null), Some("/h"), None)),
        "[hook/user-prompt-submit] hook input has no string prompt"
    );
    assert!(write_error("pipe").contains("pipe"));
}
