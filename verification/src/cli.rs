//! What the commands of the program decide and print.
use crate::assistant::Assistant;
use crate::failures::{TriggerSpec, Worker};
use crate::harness::ResultOut;
use crate::json::{self, Json, JsonText};
use crate::memory::distill::DistillReport;
use crate::memory::index;
use crate::memory::provider;
use crate::paths;
use crate::text::{self, str_eq};
use vstd::prelude::*;

verus! {

// ── The workspace ────────────────────────────────────────────────────────────
/// Where the workspace should be, and whether it was named.
#[derive(Debug, Clone)]
pub struct Workspace {
    pub path: String,
    pub named: bool,
}

/// Where the workspace should be: where `HEX_DIR` says, else `hex` below the
/// home directory.
pub fn workspace(hex_dir: Option<&str>, home: Option<&str>) -> (r: Result<Workspace, String>)
    ensures
        match r {
            Ok(w) => match provider::opt_str(hex_dir) {
                Some(d) => w.named && w.path@ == d,
                None => !w.named && home is Some && w.path@ == paths::joined(home->0@, "hex"@),
            },
            Err(e) => hex_dir is None && home is None && e@
                == "ERROR: neither HEX_DIR nor HOME is set"@,
        },
{
    match hex_dir {
        Some(d) => Ok(Workspace { path: d.to_owned(), named: true }),
        None => match home {
            Some(h) => Ok(Workspace { path: paths::join(h, "hex"), named: false }),
            None => Err("ERROR: neither HEX_DIR nor HOME is set".to_owned()),
        },
    }
}

impl Workspace {
    /// The file that every workspace has.
    pub fn marker(&self, assistant: &Assistant) -> (r: String)
        ensures
            r@ == paths::joined(self.path@, assistant.notes@),
    {
        paths::join(self.path.as_str(), assistant.notes.as_str())
    }

    /// What is said where that file is missing.
    pub fn refusal(&self, assistant: &Assistant) -> (r: String)
        ensures
            r@ == if self.named {
                "ERROR: HEX_DIR="@ + self.path@ + " does not contain "@ + assistant.notes@
                    + " — not a valid hex workspace"@
            } else {
                "ERROR: default hex dir "@ + self.path@ + " does not contain "@
                    + assistant.notes@ + " — set HEX_DIR explicitly"@
            },
    {
        if self.named {
            let mut r = "ERROR: HEX_DIR=".to_owned();
            r.append(self.path.as_str());
            r.append(" does not contain ");
            r.append(assistant.notes.as_str());
            r.append(" — not a valid hex workspace");
            r
        } else {
            let mut r = "ERROR: default hex dir ".to_owned();
            r.append(self.path.as_str());
            r.append(" does not contain ");
            r.append(assistant.notes.as_str());
            r.append(" — set HEX_DIR explicitly");
            r
        }
    }
}

// ── Freshness of the agents ──────────────────────────────────────────────────
/// When an agent was last seen, and how long it may be silent, in seconds.
#[derive(Debug, Clone)]
pub struct AgentSeen {
    pub agent: String,
    pub last_ts: i64,
    pub window: i64,
}

/// What is reported of one agent.
#[derive(Debug)]
pub struct AgentReport {
    /// The line that is printed.
    pub line: String,
    /// The alert of a stale agent, and what is said of it.
    pub alert: Option<(Json, String)>,
}

pub open spec fn is_stale(a: AgentSeen, now: i64) -> bool {
    now - a.last_ts > a.window
}

pub open spec fn agent_line(a: AgentSeen, now: i64) -> Seq<char> {
    a.agent@ + "\tlast_ts="@ + text::signed_numeral(a.last_ts as int) + "\tage="@
        + text::signed_numeral(now - a.last_ts) + "s\twindow="@ + text::signed_numeral(
        a.window as int,
    ) + "s\t"@ + if is_stale(a, now) {
        "STALE"@
    } else {
        "fresh"@
    }
}

pub open spec fn stale_alert(a: AgentSeen, now: i64) -> JsonText {
    JsonText::Object(
        seq![
            ("stale_agent"@, JsonText::Str(a.agent@)),
            ("last_ts"@, JsonText::Int(a.last_ts as int)),
            ("age_seconds"@, JsonText::Int(now - a.last_ts)),
            ("window_seconds"@, JsonText::Int(a.window as int)),
        ],
    )
}

pub open spec fn stale_note(a: AgentSeen, now: i64) -> Seq<char> {
    "hex ledger freshness: ALERT — '"@ + a.agent@ + "' stale (age="@ + text::signed_numeral(
        now - a.last_ts,
    ) + "s, window="@ + text::signed_numeral(a.window as int) + "s)"@
}

/// Whether a report says of an agent what it should.
pub open spec fn is_agent_report(r: AgentReport, a: AgentSeen, now: i64) -> bool {
    &&& r.line@ == agent_line(a, now)
    &&& match r.alert {
        Some(p) => is_stale(a, now) && p.0@ == stale_alert(a, now) && p.1@ == stale_note(a, now),
        None => !is_stale(a, now),
    }
}

/// How many of the first `n` agents are stale.
pub open spec fn stale_count(v: Seq<AgentSeen>, now: i64, n: int) -> int
    decreases n,
{
    if n <= 0 {
        0
    } else {
        stale_count(v, now, n - 1) + if is_stale(v[n - 1], now) {
            1int
        } else {
            0
        }
    }
}

fn agent_report(a: &AgentSeen, now: i64) -> (r: AgentReport)
    requires
        i64::MIN <= now - a.last_ts <= i64::MAX,
    ensures
        is_agent_report(r, *a, now),
{
    let age: i64 = now - a.last_ts;
    let last = text::signed_decimal(a.last_ts);
    let age_text = text::signed_decimal(age);
    let window = text::signed_decimal(a.window);
    let mut line = a.agent.as_str().to_owned();
    line.append("\tlast_ts=");
    line.append(last.as_str());
    line.append("\tage=");
    line.append(age_text.as_str());
    line.append("s\twindow=");
    line.append(window.as_str());
    line.append("s\t");
    if age <= a.window {
        line.append("fresh");
        return AgentReport { line, alert: None };
    }
    line.append("STALE");
    let mut m: Vec<(String, Json)> = Vec::new();
    json::put(&mut m, "stale_agent", json::text_value(a.agent.as_str()));
    json::put(&mut m, "last_ts", Json::Int(a.last_ts));
    json::put(&mut m, "age_seconds", Json::Int(age));
    json::put(&mut m, "window_seconds", Json::Int(a.window));
    proof {
        assert(json::member_texts(m@) =~= stale_alert(*a, now)->Object_0);
    }
    let mut note = "hex ledger freshness: ALERT — '".to_owned();
    note.append(a.agent.as_str());
    note.append("' stale (age=");
    note.append(age_text.as_str());
    note.append("s, window=");
    note.append(window.as_str());
    note.append("s)");
    AgentReport { line, alert: Some((json::object(m), note)) }
}

/// What is reported of the agents, and how many of them are stale; the exit
/// code is 0 only where none is.
pub fn run_freshness(rows: &Vec<AgentSeen>, now: i64) -> (r: (Vec<AgentReport>, usize))
    requires
        forall|i: int|
            0 <= i < rows@.len() ==> i64::MIN <= now - (#[trigger] rows@[i]).last_ts <= i64::MAX,
    ensures
        r.0@.len() == rows@.len(),
        forall|i: int|
            0 <= i < rows@.len() ==> is_agent_report(#[trigger] r.0@[i], rows@[i], now),
        r.1 == stale_count(rows@, now, rows@.len() as int),
{
    let mut out: Vec<AgentReport> = Vec::new();
    let mut stale: usize = 0;
    let mut i: usize = 0;
    while i < rows.len()
        invariant
            i <= rows@.len(),
            out@.len() == i,
            stale <= i,
            forall|k: int|
                0 <= k < rows@.len() ==> i64::MIN <= now - (#[trigger] rows@[k]).last_ts
                    <= i64::MAX,
            forall|k: int| 0 <= k < i ==> is_agent_report(#[trigger] out@[k], rows@[k], now),
            stale == stale_count(rows@, now, i as int),
        decreases rows.len() - i,
    {
        let r = agent_report(&rows[i], now);
        if r.alert.is_some() {
            stale += 1;
        }
        out.push(r);
        i += 1;
    }
    (out, stale)
}

/// The exit code of the check, and what is said at its end.
pub fn freshness_end(stale: usize) -> (r: (i32, Option<String>))
    ensures
        stale == 0 ==> r.0 == 0 && r.1 is None,
        stale > 0 ==> r.0 == 1 && r.1 is Some && r.1->0@ == "hex ledger freshness: "@
            + text::numeral(stale as nat) + " stale agent(s)"@,
{
    if stale == 0 {
        return (0, None);
    }
    let mut m = "hex ledger freshness: ".to_owned();
    let n = text::decimal(stale as u64);
    m.append(n.as_str());
    m.append(" stale agent(s)");
    (1, Some(m))
}

// ── Outcomes ─────────────────────────────────────────────────────────────────
/// One outcome of an agent's action.
#[derive(Debug, Clone)]
pub struct OutcomeRow {
    pub agent: String,
    pub action_class: String,
    pub success: bool,
    pub ts: i64,
}

/// Whether a payload says that an action succeeded.
pub open spec fn succeeded(payload: JsonText) -> bool {
    json::member_of(payload, "success"@) == Some(JsonText::Bool(true))
}

/// An outcome from a row of the ledger, with its payload read as JSON or not,
/// or why it is none.
pub open spec fn is_outcome(
    r: Result<OutcomeRow, String>,
    ts: i64,
    agent: Seq<char>,
    action_class: Seq<char>,
    payload: Result<JsonText, Seq<char>>,
) -> bool {
    match payload {
        Ok(v) => r is Ok && r->Ok_0.agent@ == agent && r->Ok_0.action_class@ == action_class
            && r->Ok_0.ts == ts && r->Ok_0.success == succeeded(v),
        Err(e) => r is Err && r->Err_0@ == "payload parse (ts="@ + text::signed_numeral(ts as int)
            + "): "@ + e,
    }
}

/// An outcome from a row of the ledger, or why it is none.
pub fn outcome_row(ts: i64, agent: String, action_class: String, payload: &str) -> (r: Result<
    OutcomeRow,
    String,
>)
    ensures
        is_outcome(r, ts, agent@, action_class@, json::parsed(payload@)),
{
    outcome_of(ts, agent, action_class, json::parse(payload))
}

/// An outcome from a row of the ledger and its payload as JSON, or what is
/// wrong with it.
pub fn outcome_of(
    ts: i64,
    agent: String,
    action_class: String,
    payload: Result<Json, String>,
) -> (r: Result<OutcomeRow, String>)
    ensures
        is_outcome(r, ts, agent@, action_class@, json::result_text(payload)),
{
    match payload {
        Ok(v) => {
            proof {
                json::lemma_member(v, "success"@);
            }
            let success = match v.get("success") {
                Some(b) => match b {
                    Json::Bool(x) => *x,
                    _ => false,
                },
                None => false,
            };
            Ok(OutcomeRow { agent, action_class, success, ts })
        },
        Err(e) => {
            let mut m = "payload parse (ts=".to_owned();
            let n = text::signed_decimal(ts);
            m.append(n.as_str());
            m.append("): ");
            m.append(e.as_str());
            Err(m)
        },
    }
}

// ── The service of the harness ───────────────────────────────────────────────
/// A service that is kept running for the user.
#[derive(Debug, Clone)]
pub struct ServiceSpec {
    pub label: String,
    pub program: String,
    pub args: Vec<String>,
    pub env: Vec<(String, String)>,
    pub working_dir: String,
    pub keep_alive: bool,
    pub run_at_load: bool,
    pub log_path: String,
}

/// The search path of the service: homebrew's directory is always in it.
pub open spec fn service_path(path: Option<Seq<char>>) -> Seq<char> {
    let base = match path {
        Some(p) => p,
        None => "/usr/bin:/bin"@,
    };
    if text::split(base, ':').contains("/opt/homebrew/bin"@) {
        base
    } else {
        "/opt/homebrew/bin:"@ + base
    }
}

pub open spec fn service_env(hex_dir: Seq<char>, path: Option<Seq<char>>) -> Seq<
    (Seq<char>, Seq<char>),
> {
    seq![
        ("HEX_DIR"@, hex_dir),
        ("III_URL"@, "ws://127.0.0.1:49134"@),
        ("PATH"@, service_path(path)),
        ("GOOGLE_WORKSPACE_CLI_KEYRING_BACKEND"@, "file"@),
    ]
}

/// The service that runs the harness of a workspace; it carries no secrets.
pub fn build_harness_spec(hex_dir: &str, path: Option<&str>) -> (s: ServiceSpec)
    ensures
        s.label@ == "com.hex.harness"@,
        s.program@ == paths::joined(hex_dir@, ".hex/bin/hex"@),
        text::texts(s.args@) == seq!["harness"@, "serve"@],
        index::pair_texts(s.env@) == service_env(hex_dir@, provider::opt_str(path)),
        s.working_dir@ == hex_dir@,
        s.keep_alive && s.run_at_load,
        s.log_path@ == paths::joined(hex_dir@, ".hex/logs/com.hex.harness.log"@),
{
    let base = match path {
        Some(p) => p.to_owned(),
        None => "/usr/bin:/bin".to_owned(),
    };
    let parts = text::split_char(base.as_str(), ':');
    let full = if index::contains_text(&parts, "/opt/homebrew/bin") {
        base
    } else {
        let mut f = "/opt/homebrew/bin:".to_owned();
        f.append(base.as_str());
        f
    };
    let mut args: Vec<String> = Vec::new();
    args.push("harness".to_owned());
    args.push("serve".to_owned());
    let mut env: Vec<(String, String)> = Vec::new();
    env.push(("HEX_DIR".to_owned(), hex_dir.to_owned()));
    env.push(("III_URL".to_owned(), "ws://127.0.0.1:49134".to_owned()));
    env.push(("PATH".to_owned(), full));
    env.push(("GOOGLE_WORKSPACE_CLI_KEYRING_BACKEND".to_owned(), "file".to_owned()));
    proof {
        assert(text::texts(args@) =~= seq!["harness"@, "serve"@]);
        assert(index::pair_texts(env@) =~= service_env(hex_dir@, provider::opt_str(path)));
    }
    ServiceSpec {
        label: "com.hex.harness".to_owned(),
        program: paths::join(hex_dir, ".hex/bin/hex"),
        args,
        env,
        working_dir: hex_dir.to_owned(),
        keep_alive: true,
        run_at_load: true,
        log_path: paths::join(hex_dir, ".hex/logs/com.hex.harness.log"),
    }
}

// ── Secrets ──────────────────────────────────────────────────────────────────
/// The variable that a line of a secrets file sets.
pub open spec fn line_setting(raw: Seq<char>) -> Option<(Seq<char>, Seq<char>)> {
    let line = text::trim(text::without_prefix(text::trim(raw), "export"@));
    if line.len() == 0 || text::starts_with(line, "#"@) {
        None
    } else {
        match text::halves(line, '=') {
            Some((k, v)) => {
                let single = text::strip_end(text::strip_start(text::trim(v), '\''), '\'');
                let value = text::strip_end(text::strip_start(single, '"'), '"');
                if text::trim(k).len() == 0 {
                    None
                } else {
                    Some((text::trim(k), value))
                }
            },
            None => None,
        }
    }
}

/// The variables that lines set, in order.
pub open spec fn settings(lines: Seq<Seq<char>>) -> Seq<(Seq<char>, Seq<char>)>
    decreases lines.len(),
{
    if lines.len() == 0 {
        Seq::empty()
    } else {
        match line_setting(lines.last()) {
            Some(p) => settings(lines.drop_last()).push(p),
            None => settings(lines.drop_last()),
        }
    }
}

fn setting_of(raw: &str) -> (r: Option<(String, String)>)
    ensures
        match r {
            Some(p) => line_setting(raw@) == Some((p.0@, p.1@)),
            None => line_setting(raw@) is None,
        },
{
    let t = text::trim_str(raw);
    let t = text::strip_prefix_or_self(t.as_str(), "export");
    let line = text::trim_str(t.as_str());
    if line.as_str().is_empty() || text::starts_with_str(line.as_str(), "#") {
        return None;
    }
    match text::split_once(line.as_str(), '=') {
        Some((k, v)) => {
            let key = text::trim_str(k.as_str());
            let v = text::trim_str(v.as_str());
            let v = text::strip_char(v.as_str(), '\'');
            let value = text::strip_char(v.as_str(), '"');
            if key.as_str().is_empty() {
                None
            } else {
                Some((key, value))
            }
        },
        None => None,
    }
}

/// The variables that a secrets file sets, in order.
pub fn secret_settings(content: &str) -> (r: Vec<(String, String)>)
    ensures
        index::pair_texts(r@) == settings(text::lines(content@)),
{
    let lines = text::split_lines(content);
    let ghost all = text::texts(lines@);
    let mut out: Vec<(String, String)> = Vec::new();
    let mut i: usize = 0;
    proof {
        assert(all.take(0) =~= Seq::<Seq<char>>::empty());
        assert(index::pair_texts(out@) =~= Seq::<(Seq<char>, Seq<char>)>::empty());
    }
    while i < lines.len()
        invariant
            i <= lines@.len(),
            all == text::texts(lines@),
            index::pair_texts(out@) == settings(all.take(i as int)),
        decreases lines.len() - i,
    {
        proof {
            assert(all.take(i + 1).drop_last() =~= all.take(i as int));
            assert(all.take(i + 1).last() == lines@[i as int]@);
        }
        let ghost before = out@;
        match setting_of(lines[i].as_str()) {
            Some(p) => {
                let ghost pair = (p.0@, p.1@);
                out.push(p);
                proof {
                    assert(index::pair_texts(out@) =~= index::pair_texts(before).push(pair));
                }
            },
            None => {},
        }
        i += 1;
    }
    proof {
        assert(all.take(all.len() as int) =~= all);
    }
    out
}

/// Whether a file of secrets may be read by others; one whose mode cannot be
/// told counts as one that may.
pub fn is_exposed(mode: Option<u32>) -> (b: bool)
    ensures
        b == exposed(mode),
{
    match mode {
        Some(m) => m & 0o077 != 0,
        None => true,
    }
}

/// What is said of a file of secrets that others may read.
pub fn exposed_note(path: &str) -> (r: String)
    ensures
        r@ == exposed_text(path@),
{
    let mut r = "hex harness: skipping ".to_owned();
    r.append(path);
    r.append(" — unsafe permissions (run: chmod 600 ");
    r.append(path);
    r.append(")");
    r
}

/// What a file of secrets gives: the variables that it sets, in order, and what
/// is said of them.
#[derive(Debug, Clone)]
pub struct SecretsRead {
    pub settings: Vec<(String, String)>,
    pub notes: Vec<String>,
}

pub open spec fn exposed_text(path: Seq<char>) -> Seq<char> {
    "hex harness: skipping "@ + path + " — unsafe permissions (run: chmod 600 "@ + path + ")"@
}

pub open spec fn exposed(mode: Option<u32>) -> bool {
    match mode {
        Some(m) => m & 0o077 != 0,
        None => true,
    }
}

pub open spec fn loaded_notes(s: Seq<(Seq<char>, Seq<char>)>, path: Seq<char>) -> Seq<Seq<char>> {
    s.map_values(
        |p: (Seq<char>, Seq<char>)| "hex harness: loaded "@ + p.0 + " from "@ + path,
    )
}

/// What a file gives: nothing where it is no file of settings, and only words
/// where others may read it or it could not be read.
pub open spec fn secrets_in(
    path: Seq<char>,
    extension: Option<Seq<char>>,
    mode: Option<u32>,
    content: Result<String, String>,
) -> (Seq<(Seq<char>, Seq<char>)>, Seq<Seq<char>>) {
    if extension != Some("env"@) {
        (Seq::empty(), Seq::empty())
    } else if exposed(mode) {
        (Seq::empty(), seq![exposed_text(path)])
    } else {
        match content {
            Err(e) => (Seq::empty(), seq!["hex harness: skipping "@ + path + ": "@ + e@]),
            Ok(c) => {
                let s = settings(text::lines(c@));
                (s, loaded_notes(s, path))
            },
        }
    }
}

fn note_loaded(settings: &Vec<(String, String)>, path: &str) -> (notes: Vec<String>)
    ensures
        text::texts(notes@) == loaded_notes(index::pair_texts(settings@), path@),
{
    let mut notes: Vec<String> = Vec::new();
    let mut i: usize = 0;
    while i < settings.len()
        invariant
            i <= settings@.len(),
            notes@.len() == i,
            forall|k: int|
                0 <= k < i ==> (#[trigger] notes@[k])@ == "hex harness: loaded "@
                    + settings@[k].0@ + " from "@ + path@,
        decreases settings.len() - i,
    {
        let mut n = "hex harness: loaded ".to_owned();
        n.append(settings[i].0.as_str());
        n.append(" from ");
        n.append(path);
        notes.push(n);
        i += 1;
    }
    proof {
        assert(text::texts(notes@) =~= loaded_notes(index::pair_texts(settings@), path@));
    }
    notes
}

/// What a file in the directory of the secrets gives, from its extension, its
/// mode and its content.
pub fn bootstrap_secrets_env(
    path: &str,
    extension: Option<&str>,
    mode: Option<u32>,
    content: Result<String, String>,
) -> (r: SecretsRead)
    ensures
        (index::pair_texts(r.settings@), text::texts(r.notes@)) == secrets_in(
            path@,
            provider::opt_str(extension),
            mode,
            content,
        ),
{
    let mut r = SecretsRead { settings: Vec::new(), notes: Vec::new() };
    proof {
        assert(index::pair_texts(r.settings@) =~= Seq::<(Seq<char>, Seq<char>)>::empty());
        assert(text::texts(r.notes@) =~= Seq::<Seq<char>>::empty());
    }
    let is_env = match extension {
        Some(e) => str_eq(e, "env"),
        None => false,
    };
    if !is_env {
        return r;
    }
    if is_exposed(mode) {
        let n = exposed_note(path);
        proof {
            text::lemma_texts_push(r.notes@, n);
            assert(Seq::<Seq<char>>::empty().push(n@) =~= seq![n@]);
        }
        r.notes.push(n);
        return r;
    }
    match content {
        Err(e) => {
            let mut n = "hex harness: skipping ".to_owned();
            n.append(path);
            n.append(": ");
            n.append(e.as_str());
            proof {
                text::lemma_texts_push(r.notes@, n);
                assert(Seq::<Seq<char>>::empty().push(n@) =~= seq![n@]);
            }
            r.notes.push(n);
        },
        Ok(c) => {
            r.settings = secret_settings(c.as_str());
            r.notes = note_loaded(&r.settings, path);
        },
    }
    r
}

// ── Modules ──────────────────────────────────────────────────────────────────
pub open spec fn trigger_text(t: TriggerSpec) -> Seq<char> {
    match t {
        TriggerSpec::Cron(e) => "cron("@ + e@ + ")"@,
        TriggerSpec::State { scope, key } => "state("@ + scope@ + "/"@ + key@ + ")"@,
        TriggerSpec::Queue(q) => "queue("@ + q@ + ")"@,
    }
}

pub open spec fn summary_of(w: Worker) -> Seq<char> {
    text::join(
        w.handlers@.map_values(|h: (String, TriggerSpec)| trigger_text(h.1)),
        ", "@,
    )
}

/// What sets a worker off.
pub fn trigger_summary(w: &Worker) -> (r: String)
    ensures
        r@ == summary_of(*w),
{
    let mut out: Vec<String> = Vec::new();
    let mut i: usize = 0;
    while i < w.handlers.len()
        invariant
            i <= w.handlers@.len(),
            out@.len() == i,
            forall|k: int| 0 <= k < i ==> (#[trigger] out@[k])@ == trigger_text(w.handlers@[k].1),
        decreases w.handlers.len() - i,
    {
        let mut s: String;
        match &w.handlers[i].1 {
            TriggerSpec::Cron(e) => {
                s = "cron(".to_owned();
                s.append(e.as_str());
            },
            TriggerSpec::State { scope, key } => {
                s = "state(".to_owned();
                s.append(scope.as_str());
                s.append("/");
                s.append(key.as_str());
            },
            TriggerSpec::Queue(q) => {
                s = "queue(".to_owned();
                s.append(q.as_str());
            },
        }
        s.append(")");
        out.push(s);
        i += 1;
    }
    proof {
        assert(text::texts(out@) =~= w.handlers@.map_values(
            |h: (String, TriggerSpec)| trigger_text(h.1),
        ));
    }
    text::join_strings(&out, ", ")
}

/// Where a module comes from, by its path.
pub open spec fn source_kind(path: Seq<char>) -> Seq<char> {
    if text::contains(path, "/src/modules/"@) {
        "core"@
    } else if text::contains(path, "/.hex/modules/"@) {
        "personal"@
    } else {
        "module"@
    }
}

pub open spec fn path_of(paths: Seq<(String, String)>, name: Seq<char>, i: int) -> Option<Seq<char>>
    decreases paths.len() - i,
{
    if i < 0 || i >= paths.len() {
        None
    } else if paths[i].0@ == name {
        Some(paths[i].1@)
    } else {
        path_of(paths, name, i + 1)
    }
}

/// Where a module comes from, and its file; a module without one is built in.
pub fn module_source(module_paths: &Vec<(String, String)>, name: &str) -> (r: (
    &'static str,
    String,
))
    ensures
        match path_of(module_paths@, name@, 0) {
            Some(p) => r.0@ == source_kind(p) && r.1@ == p,
            None => r.0@ == "builtin"@ && r.1@.len() == 0,
        },
{
    let mut i: usize = 0;
    while i < module_paths.len()
        invariant
            i <= module_paths@.len(),
            path_of(module_paths@, name@, 0) == path_of(module_paths@, name@, i as int),
        decreases module_paths.len() - i,
    {
        if str_eq(module_paths[i].0.as_str(), name) {
            let p = module_paths[i].1.as_str();
            let kind = if text::contains_str(p, "/src/modules/") {
                "core"
            } else if text::contains_str(p, "/.hex/modules/") {
                "personal"
            } else {
                "module"
            };
            return (kind, p.to_owned());
        }
        i += 1;
    }
    ("builtin", String::new())
}

pub open spec fn module_verb(enable: bool) -> Seq<char> {
    if enable {
        "enable"@
    } else {
        "disable"@
    }
}

pub open spec fn module_state(enable: bool) -> Seq<char> {
    if enable {
        "enabled"@
    } else {
        "disabled"@
    }
}

/// What a command prints, and its exit code.
#[derive(Debug, Clone)]
pub struct Said {
    pub line: String,
    /// Whether it is an error.
    pub error: bool,
    pub exit_code: i32,
}

/// Whether a name may be enabled or disabled: only that of a worker of this
/// program.
pub fn module_refusal(registry: &Vec<String>, name: &str, enable: bool) -> (r: Option<Said>)
    ensures
        match r {
            Some(s) => !text::texts(registry@).contains(name@) && s.error && s.exit_code == 1
                && s.line@ == "hex module "@ + module_verb(enable) + ": no worker named '"@ + name@
                + "' in this binary's registry (see: hex module list)"@,
            None => text::texts(registry@).contains(name@),
        },
{
    if index::contains_text(registry, name) {
        return None;
    }
    let mut m = "hex module ".to_owned();
    m.append(
        if enable {
            "enable"
        } else {
            "disable"
        },
    );
    m.append(": no worker named '");
    m.append(name);
    m.append("' in this binary's registry (see: hex module list)");
    Some(Said { line: m, error: true, exit_code: 1 })
}

/// What is said once a module was enabled or disabled: whether that changed
/// anything, or why it failed.
pub fn module_set_enabled(name: &str, enable: bool, stored: Result<bool, String>) -> (s: Said)
    ensures
        match stored {
            Ok(changed) => {
                &&& !s.error && s.exit_code == 0
                &&& s.line@ == if changed {
                    "hex module "@ + module_verb(enable) + ": '"@ + name@ + "' "@ + module_state(
                        enable,
                    ) + " (effective at its next fire; no restart needed)"@
                } else {
                    "hex module "@ + module_verb(enable) + ": '"@ + name@ + "' already "@
                        + module_state(enable)
                }
            },
            Err(e) => s.error && s.exit_code == 1 && s.line@ == "hex module "@ + module_verb(enable)
                + ": "@ + e@ + " — fix or delete the state db first"@,
        },
{
    let verb = if enable {
        "enable"
    } else {
        "disable"
    };
    let state = if enable {
        "enabled"
    } else {
        "disabled"
    };
    let mut m = "hex module ".to_owned();
    m.append(verb);
    match stored {
        Ok(changed) => {
            m.append(": '");
            m.append(name);
            if changed {
                m.append("' ");
                m.append(state);
                m.append(" (effective at its next fire; no restart needed)");
            } else {
                m.append("' already ");
                m.append(state);
            }
            Said { line: m, error: false, exit_code: 0 }
        },
        Err(e) => {
            m.append(": ");
            m.append(e.as_str());
            m.append(" — fix or delete the state db first");
            Said { line: m, error: true, exit_code: 1 }
        },
    }
}

pub open spec fn module_line(w: Worker, kind: Seq<char>, disabled: bool) -> Seq<char> {
    text::padded(w.name@, 28) + " ["@ + kind + "]  "@ + summary_of(w) + if disabled {
        "  DISABLED"@
    } else {
        Seq::empty()
    }
}

/// The line of a worker in the list of modules.
pub fn list_module(w: &Worker, kind: &str, disabled: bool) -> (r: String)
    ensures
        r@ == module_line(*w, kind@, disabled),
{
    let mut r = text::pad(w.name.as_str(), 28);
    r.append(" [");
    r.append(kind);
    r.append("]  ");
    let s = trigger_summary(w);
    r.append(s.as_str());
    let ghost before = r@;
    if disabled {
        r.append("  DISABLED");
    } else {
        proof {
            assert(before + Seq::<char>::empty() =~= before);
        }
    }
    r
}

/// The lines about one worker.
pub fn status_lines(w: &Worker, kind: &str, path: &str, state: &str) -> (r: Vec<String>)
    ensures
        text::texts(r@) == status_text(*w, kind@, path@, state@),
{
    let mut out: Vec<String> = Vec::new();
    let mut a = "name:     ".to_owned();
    a.append(w.name.as_str());
    out.push(a);
    let mut b = "source:   ".to_owned();
    b.append(kind);
    out.push(b);
    if !path.is_empty() {
        let mut c = "file:     ".to_owned();
        c.append(path);
        out.push(c);
    }
    let mut d = "triggers: ".to_owned();
    let s = trigger_summary(w);
    d.append(s.as_str());
    out.push(d);
    let mut e = "state:    ".to_owned();
    e.append(state);
    out.push(e);
    proof {
        assert(text::texts(out@) =~= seq!["name:     "@ + w.name@, "source:   "@ + kind@] + (
        if path@.len() == 0 {
            Seq::empty()
        } else {
            seq!["file:     "@ + path@]
        }) + seq!["triggers: "@ + summary_of(*w), "state:    "@ + state@]);
    }
    out
}

/// Where a module comes from, by the paths of the modules.
pub open spec fn kind_of(module_paths: Seq<(String, String)>, name: Seq<char>) -> Seq<char> {
    match path_of(module_paths, name, 0) {
        Some(p) => source_kind(p),
        None => "builtin"@,
    }
}

/// The names of the workers.
pub open spec fn worker_names(registry: Seq<Worker>) -> Seq<Seq<char>> {
    registry.map_values(|w: Worker| w.name@)
}

/// The lines of the first `n` workers.
pub open spec fn module_lines(
    registry: Seq<Worker>,
    module_paths: Seq<(String, String)>,
    disabled: Seq<Seq<char>>,
    n: int,
) -> Seq<Seq<char>>
    decreases n,
{
    if n <= 0 {
        Seq::empty()
    } else {
        let w = registry[n - 1];
        module_lines(registry, module_paths, disabled, n - 1).push(
            module_line(w, kind_of(module_paths, w.name@), disabled.contains(w.name@)),
        )
    }
}

/// What is said of the first `n` disabled names that no worker has.
pub open spec fn drift_notes(names: Seq<Seq<char>>, disabled: Seq<Seq<char>>, n: int) -> Seq<
    Seq<char>,
>
    decreases n,
{
    if n <= 0 {
        Seq::empty()
    } else if names.contains(disabled[n - 1]) {
        drift_notes(names, disabled, n - 1)
    } else {
        drift_notes(names, disabled, n - 1).push(
            "hex module list: WARNING — '"@ + disabled[n - 1]
                + "' is in the disabled store but not in this binary's registry"@,
        )
    }
}

/// The list of modules: what is printed first as an error, then the lines, then
/// what is printed last as errors.
#[derive(Debug, Clone)]
pub struct ModuleList {
    pub note: Option<String>,
    pub lines: Vec<String>,
    pub drift: Vec<String>,
}

fn has_worker(registry: &Vec<Worker>, name: &str) -> (b: bool)
    ensures
        b == worker_names(registry@).contains(name@),
{
    let ghost names = worker_names(registry@);
    let mut i: usize = 0;
    while i < registry.len()
        invariant
            i <= registry@.len(),
            names == worker_names(registry@),
            forall|k: int| 0 <= k < i ==> (#[trigger] names[k]) != name@,
        decreases registry.len() - i,
    {
        proof {
            assert(names[i as int] == registry@[i as int].name@);
        }
        if str_eq(registry[i].name.as_str(), name) {
            return true;
        }
        i += 1;
    }
    false
}

fn all_module_lines(
    registry: &Vec<Worker>,
    module_paths: &Vec<(String, String)>,
    disabled: &Vec<String>,
) -> (r: Vec<String>)
    ensures
        text::texts(r@) == module_lines(
            registry@,
            module_paths@,
            text::texts(disabled@),
            registry@.len() as int,
        ),
{
    let mut out: Vec<String> = Vec::new();
    let mut i: usize = 0;
    proof {
        assert(text::texts(out@) =~= Seq::<Seq<char>>::empty());
    }
    while i < registry.len()
        invariant
            i <= registry@.len(),
            text::texts(out@) == module_lines(
                registry@,
                module_paths@,
                text::texts(disabled@),
                i as int,
            ),
        decreases registry.len() - i,
    {
        let w = &registry[i];
        let (kind, _) = module_source(module_paths, w.name.as_str());
        let off = index::contains_text(disabled, w.name.as_str());
        let line = list_module(w, kind, off);
        proof {
            text::lemma_texts_push(out@, line);
        }
        out.push(line);
        i += 1;
    }
    out
}

fn all_drift_notes(registry: &Vec<Worker>, disabled: &Vec<String>) -> (r: Vec<String>)
    ensures
        text::texts(r@) == drift_notes(
            worker_names(registry@),
            text::texts(disabled@),
            disabled@.len() as int,
        ),
{
    let ghost names = worker_names(registry@);
    let ghost off = text::texts(disabled@);
    let mut out: Vec<String> = Vec::new();
    let mut i: usize = 0;
    proof {
        assert(text::texts(out@) =~= Seq::<Seq<char>>::empty());
    }
    while i < disabled.len()
        invariant
            i <= disabled@.len(),
            names == worker_names(registry@),
            off == text::texts(disabled@),
            text::texts(out@) == drift_notes(names, off, i as int),
        decreases disabled.len() - i,
    {
        proof {
            assert(off[i as int] == disabled@[i as int]@);
        }
        if !has_worker(registry, disabled[i].as_str()) {
            let mut m = "hex module list: WARNING — '".to_owned();
            m.append(disabled[i].as_str());
            m.append("' is in the disabled store but not in this binary's registry");
            proof {
                text::lemma_texts_push(out@, m);
            }
            out.push(m);
        }
        i += 1;
    }
    out
}

pub open spec fn unreadable_note(command: Seq<char>, error: Seq<char>, end: Seq<char>) -> Seq<char> {
    "hex module "@ + command + ": disabled-store unreadable ("@ + error + end
}

/// The list of modules. Where the disabled names could not be read, every
/// module is shown as enabled.
pub fn module_list(
    registry: &Vec<Worker>,
    module_paths: &Vec<(String, String)>,
    disabled: Result<Vec<String>, String>,
) -> (r: ModuleList)
    ensures
        ({
            let off = match disabled {
                Ok(d) => text::texts(d@),
                Err(_) => Seq::empty(),
            };
            &&& json::opt_text(r.note) == match disabled {
                Ok(_) => None,
                Err(e) => Some(
                    unreadable_note("list"@, e@, ") — states shown as enabled"@),
                ),
            }
            &&& text::texts(r.lines@) == module_lines(
                registry@,
                module_paths@,
                off,
                registry@.len() as int,
            )
            &&& text::texts(r.drift@) == drift_notes(
                worker_names(registry@),
                off,
                off.len() as int,
            )
        }),
{
    let (off, note) = match disabled {
        Ok(d) => (d, None),
        Err(e) => {
            let mut m = "hex module list: disabled-store unreadable (".to_owned();
            m.append(e.as_str());
            m.append(") — states shown as enabled");
            proof {
                reveal_strlit("hex module list: disabled-store unreadable (");
                reveal_strlit("hex module ");
                reveal_strlit("list");
                reveal_strlit(": disabled-store unreadable (");
                assert("hex module list: disabled-store unreadable ("@ =~= "hex module "@ + "list"@
                    + ": disabled-store unreadable ("@);
            }
            (Vec::new(), Some(m))
        },
    };
    proof {
        assert(text::texts(off@).len() == off@.len());
        if disabled is Err {
            assert(text::texts(off@) =~= Seq::<Seq<char>>::empty());
        }
    }
    let lines = all_module_lines(registry, module_paths, &off);
    let drift = all_drift_notes(registry, &off);
    ModuleList { note, lines, drift }
}

/// What is shown of one module.
#[derive(Debug, Clone)]
pub struct ModuleStatus {
    /// What is printed first, as an error.
    pub note: Option<String>,
    pub lines: Vec<String>,
    pub exit_code: i32,
}

/// The position of the worker of that name.
pub open spec fn worker_at(registry: Seq<Worker>, name: Seq<char>, i: int) -> Option<int>
    decreases registry.len() - i,
{
    if i < 0 || i >= registry.len() {
        None
    } else if registry[i].name@ == name {
        Some(i)
    } else {
        worker_at(registry, name, i + 1)
    }
}

/// The state of a module: unknown where the disabled names could not be read.
pub open spec fn shown_state(disabled: Result<Vec<String>, String>, name: Seq<char>) -> Seq<char> {
    match disabled {
        Ok(d) => if text::texts(d@).contains(name) {
            "disabled"@
        } else {
            "enabled"@
        },
        Err(_) => "unknown (store unreadable)"@,
    }
}

/// The lines about one worker.
pub open spec fn status_text(
    w: Worker,
    kind: Seq<char>,
    path: Seq<char>,
    state: Seq<char>,
) -> Seq<Seq<char>> {
    seq!["name:     "@ + w.name@, "source:   "@ + kind] + (if path.len() == 0 {
        Seq::empty()
    } else {
        seq!["file:     "@ + path]
    }) + seq!["triggers: "@ + summary_of(w), "state:    "@ + state]
}

/// What is shown of the module of that name.
pub fn module_status(
    registry: &Vec<Worker>,
    module_paths: &Vec<(String, String)>,
    name: &str,
    disabled: Result<Vec<String>, String>,
) -> (r: ModuleStatus)
    ensures
        match worker_at(registry@, name@, 0) {
            Some(i) => {
                &&& r.exit_code == 0
                &&& json::opt_text(r.note) == match disabled {
                    Ok(_) => None,
                    Err(e) => Some(unreadable_note("status"@, e@, ")"@)),
                }
                &&& text::texts(r.lines@) == status_text(
                    registry@[i],
                    kind_of(module_paths@, name@),
                    match path_of(module_paths@, name@, 0) {
                        Some(p) => p,
                        None => Seq::empty(),
                    },
                    shown_state(disabled, name@),
                )
            },
            None => {
                &&& r.exit_code == 1
                &&& json::opt_text(r.note) == Some(
                    "hex module status: no worker named '"@ + name@ + "'"@,
                )
                &&& r.lines@.len() == 0
            },
        },
{
    let mut i: usize = 0;
    while i < registry.len()
        invariant
            i <= registry@.len(),
            worker_at(registry@, name@, 0) == worker_at(registry@, name@, i as int),
        decreases registry.len() - i,
    {
        if str_eq(registry[i].name.as_str(), name) {
            let (kind, path) = module_source(module_paths, name);
            let (state, note) = match &disabled {
                Ok(d) => (
                    if index::contains_text(d, name) {
                        "disabled"
                    } else {
                        "enabled"
                    },
                    None,
                ),
                Err(e) => {
                    let mut m = "hex module status: disabled-store unreadable (".to_owned();
                    m.append(e.as_str());
                    m.append(")");
                    proof {
                        reveal_strlit("hex module status: disabled-store unreadable (");
                        reveal_strlit("hex module ");
                        reveal_strlit("status");
                        reveal_strlit(": disabled-store unreadable (");
                        assert("hex module status: disabled-store unreadable ("@
                            =~= "hex module "@ + "status"@ + ": disabled-store unreadable ("@);
                    }
                    ("unknown (store unreadable)", Some(m))
                },
            };
            proof {
                if path_of(module_paths@, name@, 0) is None {
                    assert(path@ =~= Seq::<char>::empty());
                }
            }
            let lines = status_lines(&registry[i], kind, path.as_str(), state);
            return ModuleStatus { note, lines, exit_code: 0 };
        }
        i += 1;
    }
    let mut m = "hex module status: no worker named '".to_owned();
    m.append(name);
    m.append("'");
    ModuleStatus { note: Some(m), lines: Vec::new(), exit_code: 1 }
}

// ── Messages ─────────────────────────────────────────────────────────────────
pub open spec fn trimmed(parts: Seq<Seq<char>>) -> Seq<Seq<char>> {
    parts.map_values(|p: Seq<char>| text::trim(p))
}

/// The options that a selection names: what stands between commas.
pub fn selected_ids(selection: &str) -> (r: Vec<String>)
    ensures
        text::texts(r@) == text::non_empty(trimmed(text::split(selection@, ','))),
{
    let parts = text::split_char(selection, ',');
    let ghost all = trimmed(text::split(selection@, ','));
    let mut out: Vec<String> = Vec::new();
    let mut i: usize = 0;
    proof {
        reveal(Seq::filter);
        assert(all.take(0) =~= Seq::<Seq<char>>::empty());
        assert(text::texts(out@) =~= text::non_empty(all.take(0)));
        assert(all.len() == parts@.len());
    }
    while i < parts.len()
        invariant
            i <= parts@.len(),
            text::texts(parts@) == text::split(selection@, ','),
            all == trimmed(text::split(selection@, ',')),
            all.len() == parts@.len(),
            text::texts(out@) == text::non_empty(all.take(i as int)),
        decreases parts.len() - i,
    {
        let t = text::trim_str(parts[i].as_str());
        proof {
            assert(text::texts(parts@)[i as int] == parts@[i as int]@);
            assert(all[i as int] == t@);
            text::lemma_non_empty_push(all.take(i as int), t@);
            assert(all.take(i + 1) =~= all.take(i as int).push(t@));
            text::lemma_texts_push(out@, t);
        }
        if !t.as_str().is_empty() {
            out.push(t);
        }
        i += 1;
    }
    proof {
        assert(all.take(all.len() as int) =~= all);
    }
    out
}

pub open spec fn option_line(o: crate::harness::Opt) -> Seq<char> {
    "  ["@ + o.id@ + "] "@ + o.label@ + " — "@ + o.description@
}

/// The lines that a result is printed as: the worker's question with its
/// options, or its answer.
pub open spec fn result_lines(r: ResultOut) -> Seq<Seq<char>> {
    match r.prompt {
        Some(p) => seq!["hex asks (question "@ + p.id@ + "): "@ + p.text@] + p.options@.map_values(
            |o: crate::harness::Opt| option_line(o),
        ) + seq!["(reply: hex messages reply "@ + p.id@ + " <id[,id]> [--text ...])"@],
        None => seq![r.output@],
    }
}

pub fn show_result(r: &ResultOut) -> (out: Vec<String>)
    ensures
        text::texts(out@) == result_lines(*r),
{
    let mut out: Vec<String> = Vec::new();
    let p = match &r.prompt {
        Some(p) => p,
        None => {
            out.push(r.output.as_str().to_owned());
            proof {
                assert(text::texts(out@) =~= seq![r.output@]);
            }
            return out;
        },
    };
    let mut first = "hex asks (question ".to_owned();
    first.append(p.id.as_str());
    first.append("): ");
    first.append(p.text.as_str());
    let ghost head = seq![first@];
    let ghost options = p.options@.map_values(|o: crate::harness::Opt| option_line(o));
    out.push(first);
    proof {
        assert(text::texts(out@) =~= head + options.take(0));
    }
    let mut i: usize = 0;
    while i < p.options.len()
        invariant
            i <= p.options@.len(),
            options == p.options@.map_values(|o: crate::harness::Opt| option_line(o)),
            text::texts(out@) == head + options.take(i as int),
        decreases p.options.len() - i,
    {
        let o = &p.options[i];
        let mut line = "  [".to_owned();
        line.append(o.id.as_str());
        line.append("] ");
        line.append(o.label.as_str());
        line.append(" — ");
        line.append(o.description.as_str());
        proof {
            text::lemma_texts_push(out@, line);
        }
        out.push(line);
        proof {
            assert(text::texts(out@) =~= head + options.take(i + 1));
        }
        i += 1;
    }
    let mut last = "(reply: hex messages reply ".to_owned();
    last.append(p.id.as_str());
    last.append(" <id[,id]> [--text ...])");
    proof {
        text::lemma_texts_push(out@, last);
        assert(options.take(options.len() as int) =~= options);
    }
    out.push(last);
    proof {
        assert(text::texts(out@) =~= result_lines(*r));
    }
    out
}

// ── Other lines ──────────────────────────────────────────────────────────────
/// The line about a distilled file.
pub fn distill_line(r: &DistillReport) -> (s: String)
    ensures
        s@ == "distill: adds="@ + text::numeral(r.adds as nat) + " updates="@ + text::numeral(
            r.updates as nat,
        ) + " noops="@ + text::numeral(r.noops as nat) + " flags="@ + text::numeral(r.flags as nat),
{
    let adds = text::decimal(r.adds as u64);
    let updates = text::decimal(r.updates as u64);
    let noops = text::decimal(r.noops as u64);
    let flags = text::decimal(r.flags as u64);
    let mut s = "distill: adds=".to_owned();
    s.append(adds.as_str());
    s.append(" updates=");
    s.append(updates.as_str());
    s.append(" noops=");
    s.append(noops.as_str());
    s.append(" flags=");
    s.append(flags.as_str());
    s
}

/// What the ledger is told of a gate that was looked at.
pub open spec fn gate_json(
    hash: Seq<char>,
    passes: bool,
    rules: Seq<Seq<char>>,
    command: Seq<char>,
    spec_id: Option<Seq<char>>,
) -> JsonText {
    let base = seq![
        ("gate_hash"@, JsonText::Str(hash)),
        (
            "predicted"@,
            JsonText::Str(
                if passes {
                    "pass"@
                } else {
                    "fail"@
                },
            ),
        ),
        ("rules_fired"@, json::text_array(rules)),
        ("shadow"@, JsonText::Bool(true)),
        ("command"@, JsonText::Str(command)),
    ];
    JsonText::Object(
        match spec_id {
            Some(id) => base.push(("spec_id"@, JsonText::Str(id))),
            None => base,
        },
    )
}

/// What the ledger is told of a gate that was looked at.
pub fn gate_payload(
    hash: &str,
    passes: bool,
    rules: &Vec<String>,
    command: &str,
    spec_id: Option<&str>,
) -> (r: Json)
    ensures
        r@ == gate_json(
            hash@,
            passes,
            text::texts(rules@),
            command@,
            provider::opt_str(spec_id),
        ),
{
    let mut m: Vec<(String, Json)> = Vec::new();
    json::put(&mut m, "gate_hash", json::text_value(hash));
    let predicted = if passes {
        "pass"
    } else {
        "fail"
    };
    json::put(&mut m, "predicted", json::text_value(predicted));
    json::put(&mut m, "rules_fired", json::texts_value(rules));
    json::put(&mut m, "shadow", Json::Bool(true));
    json::put(&mut m, "command", json::text_value(command));
    match spec_id {
        Some(id) => {
            json::put(&mut m, "spec_id", json::text_value(id));
        },
        None => {},
    }
    proof {
        assert(json::member_texts(m@) =~= gate_json(
            hash@,
            passes,
            text::texts(rules@),
            command@,
            provider::opt_str(spec_id),
        )->Object_0);
    }
    json::object(m)
}

// ── Laws ─────────────────────────────────────────────────────────────────────
/// A file of secrets that others may read sets nothing, whatever it holds, and
/// is named in a warning.
pub proof fn law_exposed_secrets_set_nothing(
    path: Seq<char>,
    extension: Option<Seq<char>>,
    mode: Option<u32>,
    content: Result<String, String>,
)
    requires
        exposed(mode),
    ensures
        secrets_in(path, extension, mode, content).0.len() == 0,
        extension == Some("env"@) ==> secrets_in(path, extension, mode, content).1 == seq![
            exposed_text(path),
        ],
{
}

/// An agent is stale if and only if more time than its window has gone by since it was
/// last seen, and its line says which it is.
pub proof fn law_freshness(a: AgentSeen, now: i64, r: AgentReport)
    requires
        is_agent_report(r, a, now),
    ensures
        (r.alert is Some) == (now - a.last_ts > a.window),
        text::ends_with(
            r.line@,
            if now - a.last_ts > a.window {
                "STALE"@
            } else {
                "fresh"@
            },
        ),
        text::starts_with(r.line@, a.agent@),
        r.alert is Some ==> ({
            let p = r.alert->0;
            let o = p.0@->Object_0;
            o.contains(("stale_agent"@, JsonText::Str(a.agent@))) && o.contains(
                ("age_seconds"@, JsonText::Int(now - a.last_ts)),
            ) && o.contains(("window_seconds"@, JsonText::Int(a.window as int)))
        }),
{
    let word = if now - a.last_ts > a.window {
        "STALE"@
    } else {
        "fresh"@
    };
    let line = agent_line(a, now);
    assert(line.subrange(line.len() - word.len(), line.len() as int) =~= word);
    assert(line.subrange(0, a.agent@.len() as int) =~= a.agent@);
    if r.alert is Some {
        let o = stale_alert(a, now)->Object_0;
        assert(o[0].0 == "stale_agent"@ && o[2].0 == "age_seconds"@ && o[3].0 == "window_seconds"@);
    }
}

/// The number of stale agents is that of those whose window is over.
pub proof fn law_stale_agents_are_counted(v: Seq<AgentSeen>, now: i64, n: int)
    requires
        0 <= n <= v.len(),
    ensures
        stale_count(v, now, n) == v.take(n).filter(
            |a: AgentSeen| now - a.last_ts > a.window,
        ).len(),
    decreases n,
{
    reveal(Seq::filter);
    if n > 0 {
        law_stale_agents_are_counted(v, now, n - 1);
        assert(v.take(n).drop_last() =~= v.take(n - 1));
    }
}

/// The search path of the service has homebrew's directory among its parts and ends in
/// the path that was given; one that has the directory already is left as it is.
pub proof fn law_service_path(path: Seq<char>)
    ensures
        text::split(service_path(Some(path)), ':').contains("/opt/homebrew/bin"@),
        text::ends_with(service_path(Some(path)), path),
        text::split(path, ':').contains("/opt/homebrew/bin"@) ==> service_path(Some(path)) == path,
        service_path(None) == service_path(Some("/usr/bin:/bin"@)),
        service_path(Some(service_path(Some(path)))) == service_path(Some(path)),
{
    let dir = "/opt/homebrew/bin"@;
    let head = "/opt/homebrew/bin:"@;
    reveal_strlit("/opt/homebrew/bin");
    reveal_strlit("/opt/homebrew/bin:");
    let all = head + path;
    assert(path.subrange(0, path.len() as int) =~= path);
    assert(all.subrange(head.len() as int, all.len() as int) =~= path);
    let cut = text::is_char(':');
    assert(all.subrange(0, dir.len() as int) =~= dir);
    assert(text::is_run(all, cut, 0, dir.len() as int)) by {
        assert(all[dir.len() as int] == ':');
        assert forall|i: int| 0 <= i < dir.len() implies !cut(#[trigger] all[i]) by {
            assert(all[i] == dir[i]);
        }
    }
    text::law_pieces_are_the_runs(all, cut, dir);
}

/// A line sets a variable to what stands behind the first equals sign; `export` in front
/// and space around name and value do not matter.
pub proof fn law_a_setting(name: Seq<char>, value: Seq<char>)
    requires
        name.len() > 0,
        value.len() > 0,
        !name.contains('='),
        !text::is_space(name[0]) && !text::is_space(name.last()),
        !text::is_space(value[0]) && !text::is_space(value.last()),
        name[0] != '#' && name[0] != 'e',
        value[0] != '\'' && value.last() != '\'' && value[0] != '"' && value.last() != '"',
    ensures
        line_setting(name.push('=') + value) == Some((name, value)),
        line_setting("export "@ + (name.push('=') + value)) == Some((name, value)),
        line_setting("#"@ + value) is None,
        line_setting(Seq::empty()) is None,
        line_setting(name) is None,
{
    let line = name.push('=') + value;
    text::lemma_trim_fixed(line);
    text::lemma_trim_fixed(name);
    text::lemma_trim_fixed(value);
    text::law_halves(name, '=', value);
    reveal_strlit("export");
    reveal_strlit("export ");
    reveal_strlit("#");
    assert(!text::starts_with(line, "export"@)) by {
        if text::starts_with(line, "export"@) {
            assert(line.subrange(0, 6)[0] == "export"@[0]);
        }
    }
    assert(!text::starts_with(name, "export"@)) by {
        if text::starts_with(name, "export"@) {
            assert(name.subrange(0, 6)[0] == "export"@[0]);
        }
    }
    assert(!text::starts_with(line, "#"@)) by {
        if text::starts_with(line, "#"@) {
            assert(line.subrange(0, 1)[0] == "#"@[0]);
        }
    }
    let long = "export "@ + line;
    text::lemma_trim_fixed(long);
    assert(long.subrange(0, 6) =~= "export"@);
    assert(long.skip(6) =~= seq![' '] + line);
    let rest = seq![' '] + line;
    assert(rest.drop_first() =~= line);
    assert(text::trim_start(rest) == text::trim_start(line));
    assert(text::trim(rest) == line);
    let c = "#"@ + value;
    text::lemma_trim_fixed(c);
    assert(!text::starts_with(c, "export"@)) by {
        if text::starts_with(c, "export"@) {
            assert(c.subrange(0, 6)[0] == "export"@[0]);
        }
    }
    assert(c.subrange(0, 1) =~= "#"@);
    let none = Seq::<char>::empty();
    assert(!text::starts_with(none, "export"@));
    assert(text::trim(none) == none);
    text::law_halves(name, '=', none);
}

/// Quotes of one kind around a value do not belong to it.
pub proof fn law_quotes_do_not_belong_to_a_value(value: Seq<char>, q: char)
    requires
        value.len() > 0,
        q == '"' || q == '\'',
        value[0] != '"' && value[0] != '\'' && value.last() != '"' && value.last() != '\'',
    ensures
        line_setting("K="@ + seq![q] + value + seq![q]) == Some(("K"@, value)),
{
    let quoted = seq![q] + value + seq![q];
    reveal_strlit("K=");
    reveal_strlit("K");
    reveal_strlit("export");
    reveal_strlit("#");
    let line = "K="@ + seq![q] + value + seq![q];
    assert(line =~= "K"@.push('=') + quoted);
    text::lemma_trim_fixed(line);
    text::lemma_trim_fixed("K"@);
    text::lemma_trim_fixed(quoted);
    text::law_halves("K"@, '=', quoted);
    assert(!text::starts_with(line, "export"@)) by {
        if text::starts_with(line, "export"@) {
            assert(line.subrange(0, 6)[0] == "export"@[0]);
        }
    }
    assert(!text::starts_with(line, "#"@)) by {
        if text::starts_with(line, "#"@) {
            assert(line.subrange(0, 1)[0] == "#"@[0]);
        }
    }
    let front = value + seq![q];
    assert(quoted.drop_first() =~= front);
    assert(front.drop_last() =~= value);
    assert(text::strip_start(front, q) == front);
    assert(text::strip_start(quoted, q) == front);
    assert(text::strip_end(value, q) == value);
    assert(text::strip_end(front, q) == value);
    let other = if q == '"' {
        '\''
    } else {
        '"'
    };
    assert(text::strip_start(value, other) == value);
    assert(text::strip_end(value, other) == value);
    assert(text::strip_start(quoted, other) == quoted);
    assert(text::strip_end(quoted, other) == quoted);
}

/// Lines set what each of them sets, in their order, and nothing else.
pub proof fn law_settings(lines: Seq<Seq<char>>, line: Seq<char>)
    ensures
        settings(Seq::empty()).len() == 0,
        line_setting(line) is Some ==> settings(lines.push(line)) == settings(lines).push(
            line_setting(line)->0,
        ),
        line_setting(line) is None ==> settings(lines.push(line)) == settings(lines),
{
    assert(lines.push(line).drop_last() =~= lines);
}

/// A file of secrets is read only where nobody but its owner may use it: where the
/// permissions of the group and of others are all off, and it is a file of settings.
pub proof fn law_secrets(path: Seq<char>, mode: u32, content: String)
    ensures
        exposed(Some(mode)) == (mode % 64 != 0),
        exposed(None),
        mode % 64 == 0 ==> secrets_in(path, Some("env"@), Some(mode), Ok(content)).0 == settings(
            text::lines(content@),
        ),
        forall|extension: Option<Seq<char>>|
            extension != Some("env"@) ==> (#[trigger] secrets_in(
                path,
                extension,
                Some(mode),
                Ok(content),
            )).0.len() == 0,
{
    assert(mode & 0o077 == mode % 64) by (bit_vector);
}

/// A module below `src/modules` is a core one, else one below `.hex/modules` a personal
/// one, else it is just a module; one without a file is built in.
pub proof fn law_source_kind(paths: Seq<(String, String)>, name: Seq<char>, i: int)
    requires
        0 <= i < paths.len(),
        paths[i].0@ == name,
        forall|j: int| 0 <= j < i ==> (#[trigger] paths[j]).0@ != name,
    ensures
        path_of(paths, name, 0) == Some(paths[i].1@),
        (kind_of(paths, name) == "core"@) == text::contains(paths[i].1@, "/src/modules/"@),
        (kind_of(paths, name) == "personal"@) == (!text::contains(paths[i].1@, "/src/modules/"@)
            && text::contains(paths[i].1@, "/.hex/modules/"@)),
{
    lemma_path_of(paths, name, 0, i);
    reveal_strlit("core");
    reveal_strlit("personal");
    reveal_strlit("module");
    assert("core"@.len() == 4 && "personal"@.len() == 8 && "module"@.len() == 6);
}

proof fn lemma_path_of(paths: Seq<(String, String)>, name: Seq<char>, from: int, i: int)
    requires
        0 <= from <= i < paths.len(),
        paths[i].0@ == name,
        forall|j: int| from <= j < i ==> (#[trigger] paths[j]).0@ != name,
    ensures
        path_of(paths, name, from) == Some(paths[i].1@),
    decreases i - from,
{
    if from < i {
        assert(paths[from].0@ != name);
        lemma_path_of(paths, name, from + 1, i);
    }
}

/// A name that no pair has has no file.
pub proof fn law_built_in(paths: Seq<(String, String)>, name: Seq<char>, from: int)
    requires
        0 <= from <= paths.len(),
        forall|j: int| from <= j < paths.len() ==> (#[trigger] paths[j]).0@ != name,
    ensures
        path_of(paths, name, from) is None,
        from == 0 ==> kind_of(paths, name) == "builtin"@,
    decreases paths.len() - from,
{
    if from < paths.len() {
        assert(paths[from].0@ != name);
        law_built_in(paths, name, from + 1);
    }
}

/// The list of modules has a line for each worker, in order, which starts with its name
/// and ends in `DISABLED` if and only if the worker is disabled.
pub proof fn law_module_lines(
    registry: Seq<Worker>,
    module_paths: Seq<(String, String)>,
    disabled: Seq<Seq<char>>,
    n: int,
    k: int,
)
    requires
        0 <= k < n <= registry.len(),
    ensures
        module_lines(registry, module_paths, disabled, n).len() == n,
        module_lines(registry, module_paths, disabled, n)[k] == text::padded(
            registry[k].name@,
            28,
        ) + " ["@ + kind_of(module_paths, registry[k].name@) + "]  "@ + summary_of(registry[k])
            + if disabled.contains(registry[k].name@) {
            "  DISABLED"@
        } else {
            Seq::empty()
        },
    decreases n,
{
    if k < n - 1 {
        law_module_lines(registry, module_paths, disabled, n - 1, k);
    } else if n > 1 {
        law_module_lines(registry, module_paths, disabled, n - 1, 0);
    } else {
        assert(module_lines(registry, module_paths, disabled, 0).len() == 0);
    }
}

/// There is a note for each disabled name that no worker has, and for no other.
pub proof fn law_drift_notes(names: Seq<Seq<char>>, disabled: Seq<Seq<char>>, n: int)
    requires
        0 <= n <= disabled.len(),
    ensures
        drift_notes(names, disabled, n) == disabled.take(n).filter(
            |d: Seq<char>| !names.contains(d),
        ).map_values(
            |d: Seq<char>|
                "hex module list: WARNING — '"@ + d
                    + "' is in the disabled store but not in this binary's registry"@,
        ),
    decreases n,
{
    reveal(Seq::filter);
    let f = |d: Seq<char>|
        "hex module list: WARNING — '"@ + d
            + "' is in the disabled store but not in this binary's registry"@;
    let keep = |d: Seq<char>| !names.contains(d);
    if n > 0 {
        law_drift_notes(names, disabled, n - 1);
        assert(disabled.take(n).drop_last() =~= disabled.take(n - 1));
        let front = disabled.take(n - 1).filter(keep);
        assert(front.push(disabled[n - 1]).map_values(f) =~= front.map_values(f).push(
            f(disabled[n - 1]),
        ));
    } else {
        assert(disabled.take(0).filter(keep).map_values(f) =~= Seq::<Seq<char>>::empty());
    }
}

/// What is shown of a module is what its first worker has.
pub proof fn law_worker_at(registry: Seq<Worker>, name: Seq<char>, i: int)
    requires
        0 <= i <= registry.len(),
    ensures
        match worker_at(registry, name, i) {
            Some(k) => i <= k < registry.len() && registry[k].name@ == name && forall|j: int|
                i <= j < k ==> (#[trigger] registry[j]).name@ != name,
            None => forall|j: int| i <= j < registry.len() ==> (#[trigger] registry[j]).name@ != name,
        },
    decreases registry.len() - i,
{
    if i < registry.len() && registry[i].name@ != name {
        law_worker_at(registry, name, i + 1);
    }
}

/// The state of a module is `disabled` if and only if its name is among the disabled
/// ones, and unknown where these could not be read.
pub proof fn law_shown_state(disabled: Vec<String>, name: Seq<char>, e: String)
    ensures
        (shown_state(Ok(disabled), name) == "disabled"@) == text::texts(disabled@).contains(name),
        (shown_state(Ok(disabled), name) == "enabled"@) == !text::texts(disabled@).contains(name),
        shown_state(Err(e), name) == "unknown (store unreadable)"@,
        module_state(true) == "enabled"@,
        module_state(false) == "disabled"@,
        module_verb(true) == "enable"@,
        module_verb(false) == "disable"@,
{
    reveal_strlit("disabled");
    reveal_strlit("enabled");
    assert("disabled"@.len() == 8 && "enabled"@.len() == 7);
}

/// The options that a selection names are what stands between commas without the space
/// around it, where something is left.
pub proof fn law_selected(selection: Seq<char>, id: Seq<char>)
    ensures
        text::non_empty(trimmed(text::split(selection, ','))).contains(id) == (id.len() > 0
            && exists|from: int, to: int| #[trigger]
            text::is_run(selection, text::is_char(','), from, to) && text::trim(
                selection.subrange(from, to),
            ) == id),
{
    let cut = text::is_char(',');
    let parts = text::split(selection, ',');
    let t = trimmed(parts);
    text::lemma_non_empty_has(t, id);
    if t.contains(id) {
        let k = choose|k: int| 0 <= k < t.len() && t[k] == id;
        assert(parts.contains(parts[k]));
        text::law_pieces_are_the_runs(selection, cut, parts[k]);
        let (from, to) = choose|from: int, to: int| #[trigger]
            text::is_run(selection, cut, from, to) && selection.subrange(from, to) == parts[k];
        assert(text::is_run(selection, cut, from, to));
        assert(text::trim(selection.subrange(from, to)) == id);
    }
    if exists|from: int, to: int| #[trigger]
        text::is_run(selection, cut, from, to) && text::trim(selection.subrange(from, to)) == id {
        let (from, to) = choose|from: int, to: int| #[trigger]
            text::is_run(selection, cut, from, to) && text::trim(selection.subrange(from, to)) == id;
        let w = selection.subrange(from, to);
        text::law_pieces_are_the_runs(selection, cut, w);
        let k = choose|k: int| 0 <= k < parts.len() && parts[k] == w;
        assert(t[k] == id);
    }
}

/// A question is printed with a line for each option between its text and how to reply;
/// an answer is printed as it is.
pub proof fn law_result_lines(r: ResultOut, k: int)
    ensures
        r.prompt is None ==> result_lines(r) == seq![r.output@],
        r.prompt is Some ==> result_lines(r).len() == r.prompt->0.options@.len() + 2,
        r.prompt is Some && 0 <= k < r.prompt->0.options@.len() ==> result_lines(r)[k + 1] == "  ["@
            + r.prompt->0.options@[k].id@ + "] "@ + r.prompt->0.options@[k].label@ + " — "@
            + r.prompt->0.options@[k].description@,
        r.prompt is Some ==> result_lines(r)[0] == "hex asks (question "@ + r.prompt->0.id@ + "): "@
            + r.prompt->0.text@,
{
}

/// What the ledger is told of a gate says whether it would have passed, which rules
/// fired and what was asked; the specification only where there is one.
pub proof fn law_gate(
    hash: Seq<char>,
    passes: bool,
    rules: Seq<Seq<char>>,
    command: Seq<char>,
    spec_id: Option<Seq<char>>,
)
    ensures
        ({
            let o = gate_json(hash, passes, rules, command, spec_id)->Object_0;
            &&& o.contains(("gate_hash"@, JsonText::Str(hash)))
            &&& passes ==> o.contains(("predicted"@, JsonText::Str("pass"@)))
            &&& !passes ==> o.contains(("predicted"@, JsonText::Str("fail"@)))
            &&& o.contains(("rules_fired"@, json::text_array(rules)))
            &&& o.contains(("shadow"@, JsonText::Bool(true)))
            &&& o.contains(("command"@, JsonText::Str(command)))
            &&& spec_id is Some ==> o.contains(("spec_id"@, JsonText::Str(spec_id->0)))
            &&& o.len() == if spec_id is Some {
                6int
            } else {
                5
            }
        }),
{
    let o = gate_json(hash, passes, rules, command, spec_id)->Object_0;
    assert(o[0].0 == "gate_hash"@ && o[1].0 == "predicted"@ && o[2].0 == "rules_fired"@);
    assert(o[3].0 == "shadow"@ && o[4].0 == "command"@);
    if spec_id is Some {
        assert(o[5] == ("spec_id"@, JsonText::Str(spec_id->0)));
    }
}

/// The triggers of a worker are told with their kind and what sets them off.
pub proof fn law_trigger_text(t: TriggerSpec)
    ensures
        t is Cron ==> trigger_text(t) == "cron("@ + t->Cron_0@ + ")"@,
        t is Queue ==> trigger_text(t) == "queue("@ + t->Queue_0@ + ")"@,
        t is State ==> trigger_text(t) == "state("@ + t->scope@ + "/"@ + t->key@ + ")"@,
{
}

/// An action succeeded if its payload says so with a `true` under `success`, and in no
/// other case; a payload that is no JSON makes no outcome.
pub proof fn law_outcome(
    r: Result<OutcomeRow, String>,
    ts: i64,
    agent: Seq<char>,
    class: Seq<char>,
    m: Seq<(Seq<char>, JsonText)>,
    value: JsonText,
    error: Seq<char>,
)
    ensures
        is_outcome(r, ts, agent, class, Ok(JsonText::Object(seq![("success"@, value)] + m)))
            ==> r is Ok && r->Ok_0.success == (value == JsonText::Bool(true)) && r->Ok_0.agent@
            == agent && r->Ok_0.action_class@ == class && r->Ok_0.ts == ts,
        is_outcome(r, ts, agent, class, Ok(JsonText::Object(Seq::empty()))) ==> r is Ok
            && !r->Ok_0.success,
        is_outcome(r, ts, agent, class, Ok(JsonText::Null)) ==> r is Ok && !r->Ok_0.success,
        is_outcome(r, ts, agent, class, Err(error)) ==> r is Err && r->Err_0@ == "payload parse (ts="@
            + text::signed_numeral(ts as int) + "): "@ + error,
{
    let o = seq![("success"@, value)] + m;
    assert(o[0] == ("success"@, value));
}

/// A service is told the workspace, the address of the engine, where to look for
/// commands and where keys are kept.
pub proof fn law_service_env(hex_dir: Seq<char>, path: Option<Seq<char>>)
    ensures
        service_env(hex_dir, path).len() == 4,
        service_env(hex_dir, path).contains(("HEX_DIR"@, hex_dir)),
        service_env(hex_dir, path).contains(("III_URL"@, "ws://127.0.0.1:49134"@)),
        service_env(hex_dir, path).contains(("PATH"@, service_path(path))),
        service_env(hex_dir, path).contains(("GOOGLE_WORKSPACE_CLI_KEYRING_BACKEND"@, "file"@)),
{
    let v = service_env(hex_dir, path);
    assert(v[0].0 == "HEX_DIR"@ && v[1].0 == "III_URL"@ && v[2].0 == "PATH"@ && v[3].0
        == "GOOGLE_WORKSPACE_CLI_KEYRING_BACKEND"@);
}

/// The state of a worker is told in lines for its name, its source, its file where there
/// is one, its triggers and its state.
pub proof fn law_status_text(w: Worker, kind: Seq<char>, path: Seq<char>, state: Seq<char>)
    ensures
        status_text(w, kind, path, state).len() == if path.len() == 0 {
            4nat
        } else {
            5
        },
        status_text(w, kind, path, state)[0] == "name:     "@ + w.name@,
        status_text(w, kind, path, state)[1] == "source:   "@ + kind,
        path.len() > 0 ==> status_text(w, kind, path, state)[2] == "file:     "@ + path,
        status_text(w, kind, path, state).last() == "state:    "@ + state,
        status_text(w, kind, path, state)[status_text(w, kind, path, state).len() - 2]
            == "triggers: "@ + summary_of(w),
{
}

/// That an agent is stale is told with its name, its age and its window.
pub proof fn law_stale_note(a: AgentSeen, now: i64)
    ensures
        stale_note(a, now) == "hex ledger freshness: ALERT — '"@ + a.agent@ + "' stale (age="@
            + text::signed_numeral(now - a.last_ts) + "s, window="@ + text::signed_numeral(
            a.window as int,
        ) + "s)"@,
        stale_alert(a, now)->Object_0.len() == 4,
        stale_alert(a, now)->Object_0[0] == ("stale_agent"@, JsonText::Str(a.agent@)),
        stale_alert(a, now)->Object_0[1] == ("last_ts"@, JsonText::Int(a.last_ts as int)),
        stale_alert(a, now)->Object_0[2] == ("age_seconds"@, JsonText::Int(now - a.last_ts)),
        stale_alert(a, now)->Object_0[3] == ("window_seconds"@, JsonText::Int(a.window as int)),
{
}

} // verus!
