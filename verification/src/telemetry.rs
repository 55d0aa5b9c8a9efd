//! Telemetry rows, and the commands that show them.
use crate::json::{self, is_text, str_value, Json};
use crate::text::{self, decimal, signed_decimal};
use vstd::prelude::*;

verus! {

/// One telemetry row before it is written.
#[derive(Debug, Clone)]
pub struct TelemetryEvent {
    pub source: String,
    pub event: String,
    pub status: String,
    pub duration_ms: Option<i64>,
    pub exit_code: Option<i64>,
    pub detail: Option<String>,
}

#[verifier::ext_equal]
pub struct TelemetryText {
    pub source: Seq<char>,
    pub event: Seq<char>,
    pub status: Seq<char>,
    pub duration_ms: Option<i64>,
    pub exit_code: Option<i64>,
    pub detail: Option<Seq<char>>,
}

impl View for TelemetryEvent {
    type V = TelemetryText;

    open spec fn view(&self) -> TelemetryText {
        TelemetryText {
            source: self.source@,
            event: self.event@,
            status: self.status@,
            duration_ms: self.duration_ms,
            exit_code: self.exit_code,
            detail: match self.detail {
                Some(d) => Some(d@),
                None => None,
            },
        }
    }
}

/// An event that carries nothing but a detail.
pub open spec fn note_text(
    source: Seq<char>,
    event: Seq<char>,
    status: Seq<char>,
    detail: Seq<char>,
) -> TelemetryText {
    TelemetryText {
        source,
        event,
        status,
        duration_ms: None,
        exit_code: None,
        detail: Some(detail),
    }
}

pub(crate) fn note(source: &str, event: &str, status: &str, detail: String) -> (e: TelemetryEvent)
    ensures
        e@ == note_text(source@, event@, status@, detail@),
{
    TelemetryEvent {
        source: source.to_owned(),
        event: event.to_owned(),
        status: status.to_owned(),
        duration_ms: None,
        exit_code: None,
        detail: Some(detail),
    }
}

/// One stored telemetry row.
#[derive(Debug, Clone)]
pub struct EventRow {
    pub id: i64,
    pub ts: String,
    pub source: String,
    pub event: String,
    pub status: String,
    pub duration_ms: Option<i64>,
    pub exit_code: Option<i64>,
    pub detail: Option<String>,
}

/// The rows of one event taken together.
#[derive(Debug, Clone)]
pub struct StatusRow {
    pub event: String,
    pub last_ts: String,
    pub last_status: String,
    pub last_duration_ms: Option<i64>,
    pub run_count: i64,
    pub ok_count: i64,
    pub error_count: i64,
}

// ── The window of `--since` ──────────────────────────────────────────────────
/// How far back a query looks.
#[derive(Debug, Clone, Copy, PartialEq, Eq, Structural)]
pub enum Since {
    Hours(i64),
    Days(i64),
}

/// The digits and the unit of a window, `h` where none is given.
pub open spec fn since_parts(t: Seq<char>) -> (Seq<char>, bool) {
    if t.last() == 'h' || t.last() == 'd' {
        (t.drop_last(), t.last() == 'd')
    } else {
        (t, false)
    }
}

/// What a window means: a number with the unit `h` or `d`.
pub open spec fn since_of(s: Seq<char>) -> Result<(int, bool), Seq<char>> {
    let t = text::trim(s);
    if t.len() == 0 {
        Err("empty --since value"@)
    } else {
        match text::parse_signed(since_parts(t).0) {
            Ok(n) => Ok((n, since_parts(t).1)),
            Err(e) => Err("invalid --since number `"@ + since_parts(t).0 + "`: "@ + e.text()),
        }
    }
}

/// Reads a window such as `24h` or `7d`.
pub fn parse_since(s: &str) -> (r: Result<Since, String>)
    ensures
        match r {
            Ok(Since::Hours(n)) => since_of(s@) == Ok::<(int, bool), Seq<char>>((n as int, false)),
            Ok(Since::Days(n)) => since_of(s@) == Ok::<(int, bool), Seq<char>>((n as int, true)),
            Err(e) => since_of(s@) == Err::<(int, bool), Seq<char>>(e@),
        },
{
    let t = text::trim_str(s);
    let v = text::to_chars(t.as_str());
    let n: usize = v.len();
    if n == 0 {
        return Err("empty --since value".to_owned());
    }
    let last = v[n - 1];
    let days = last == 'd';
    let digits = if last == 'h' || last == 'd' {
        proof {
            assert(v@.subrange(0, n - 1) =~= v@.drop_last());
        }
        text::substring(v.as_slice(), 0, n - 1)
    } else {
        t
    };
    match text::parse_i64(digits.as_str()) {
        Ok(x) => if days {
            Ok(Since::Days(x))
        } else {
            Ok(Since::Hours(x))
        },
        Err(e) => {
            let mut m = "invalid --since number `".to_owned();
            m.append(digits.as_str());
            m.append("`: ");
            m.append(e.message());
            Err(m)
        },
    }
}

// ── Tables ───────────────────────────────────────────────────────────────────
pub open spec fn ms_text(d: Option<i64>) -> Seq<char> {
    match d {
        Some(n) => text::signed_numeral(n as int),
        None => "-"@,
    }
}

fn ms(d: Option<i64>) -> (r: String)
    ensures
        r@ == ms_text(d),
{
    match d {
        Some(n) => signed_decimal(n),
        None => "-".to_owned(),
    }
}

/// Five cells of a table of events.
pub open spec fn event_cells(
    a: Seq<char>,
    b: Seq<char>,
    c: Seq<char>,
    d: Seq<char>,
    e: Seq<char>,
) -> Seq<char> {
    text::padded(a, 25) + " "@ + text::padded(b, 16) + " "@ + text::padded(c, 32) + " "@
        + text::padded(d, 8) + " "@ + text::padded_left(e, 8)
}

pub open spec fn event_line(r: EventRow) -> Seq<char> {
    event_cells(r.ts@, r.source@, r.event@, r.status@, ms_text(r.duration_ms))
}

pub open spec fn event_header() -> Seq<char> {
    event_cells("TS"@, "SOURCE"@, "EVENT"@, "STATUS"@, "DUR_MS"@)
}

/// A header, then a line for each event.
pub open spec fn event_table(rows: Seq<EventRow>) -> Seq<Seq<char>> {
    seq![event_header()] + rows.map_values(|r: EventRow| event_line(r))
}

fn event_row_text(a: &str, b: &str, c: &str, d: &str, e: &str) -> (r: String)
    ensures
        r@ == event_cells(a@, b@, c@, d@, e@),
{
    let mut r = text::pad(a, 25);
    r.append(" ");
    r.append(text::pad(b, 16).as_str());
    r.append(" ");
    r.append(text::pad(c, 32).as_str());
    r.append(" ");
    r.append(text::pad(d, 8).as_str());
    r.append(" ");
    r.append(text::pad_left(e, 8).as_str());
    r
}

/// Events as lines of text.
pub fn print_event_table(rows: &Vec<EventRow>) -> (out: Vec<String>)
    ensures
        text::texts(out@) == event_table(rows@),
{
    let mut out: Vec<String> = Vec::new();
    let head = event_row_text("TS", "SOURCE", "EVENT", "STATUS", "DUR_MS");
    let ghost all = event_table(rows@);
    out.push(head);
    proof {
        assert(text::texts(out@) =~= all.take(1));
    }
    let mut i: usize = 0;
    while i < rows.len()
        invariant
            i <= rows@.len(),
            all == event_table(rows@),
            text::texts(out@) == all.take(i + 1),
        decreases rows.len() - i,
    {
        let r = &rows[i];
        let d = ms(r.duration_ms);
        let l = event_row_text(
            r.ts.as_str(),
            r.source.as_str(),
            r.event.as_str(),
            r.status.as_str(),
            d.as_str(),
        );
        proof {
            text::lemma_texts_push(out@, l);
            assert(all[i + 1] == l@);
            assert(all.take(i + 2) =~= all.take(i + 1).push(l@));
        }
        out.push(l);
        i += 1;
    }
    proof {
        assert(all.take(all.len() as int) =~= all);
    }
    out
}

/// Seven cells of a table of statuses.
pub open spec fn status_cells(c: Seq<Seq<char>>) -> Seq<char> {
    text::padded(c[0], 32) + " "@ + text::padded(c[1], 25) + " "@ + text::padded(c[2], 8) + " "@
        + text::padded_left(c[3], 5) + " "@ + text::padded_left(c[4], 5) + " "@
        + text::padded_left(c[5], 5) + " "@ + text::padded_left(c[6], 8)
}

pub open spec fn status_header() -> Seq<char> {
    status_cells(seq!["EVENT"@, "LAST_TS"@, "LAST"@, "RUNS"@, "OK"@, "ERR"@, "LAST_MS"@])
}

pub open spec fn status_line(r: StatusRow) -> Seq<char> {
    status_cells(
        seq![
            r.event@,
            r.last_ts@,
            r.last_status@,
            text::signed_numeral(r.run_count as int),
            text::signed_numeral(r.ok_count as int),
            text::signed_numeral(r.error_count as int),
            ms_text(r.last_duration_ms),
        ],
    )
}

pub open spec fn status_table(rows: Seq<StatusRow>) -> Seq<Seq<char>> {
    seq![status_header()] + rows.map_values(|r: StatusRow| status_line(r))
}

fn status_row_text(
    a: &str,
    b: &str,
    c: &str,
    d: &str,
    e: &str,
    f: &str,
    g: &str,
) -> (r: String)
    ensures
        r@ == status_cells(seq![a@, b@, c@, d@, e@, f@, g@]),
{
    let mut r = text::pad(a, 32);
    r.append(" ");
    r.append(text::pad(b, 25).as_str());
    r.append(" ");
    r.append(text::pad(c, 8).as_str());
    r.append(" ");
    r.append(text::pad_left(d, 5).as_str());
    r.append(" ");
    r.append(text::pad_left(e, 5).as_str());
    r.append(" ");
    r.append(text::pad_left(f, 5).as_str());
    r.append(" ");
    r.append(text::pad_left(g, 8).as_str());
    r
}

/// Statuses as lines of text.
pub fn print_status_table(rows: &Vec<StatusRow>) -> (out: Vec<String>)
    ensures
        text::texts(out@) == status_table(rows@),
{
    let mut out: Vec<String> = Vec::new();
    let head = status_row_text("EVENT", "LAST_TS", "LAST", "RUNS", "OK", "ERR", "LAST_MS");
    let ghost all = status_table(rows@);
    out.push(head);
    proof {
        assert(text::texts(out@) =~= all.take(1));
    }
    let mut i: usize = 0;
    while i < rows.len()
        invariant
            i <= rows@.len(),
            all == status_table(rows@),
            text::texts(out@) == all.take(i + 1),
        decreases rows.len() - i,
    {
        let r = &rows[i];
        let runs = signed_decimal(r.run_count);
        let oks = signed_decimal(r.ok_count);
        let errs = signed_decimal(r.error_count);
        let d = ms(r.last_duration_ms);
        let l = status_row_text(
            r.event.as_str(),
            r.last_ts.as_str(),
            r.last_status.as_str(),
            runs.as_str(),
            oks.as_str(),
            errs.as_str(),
            d.as_str(),
        );
        proof {
            text::lemma_texts_push(out@, l);
            assert(all[i + 1] == l@);
            assert(all.take(i + 2) =~= all.take(i + 1).push(l@));
        }
        out.push(l);
        i += 1;
    }
    proof {
        assert(all.take(all.len() as int) =~= all);
    }
    out
}

// ── JSON ─────────────────────────────────────────────────────────────────────
pub open spec fn is_int_or_null(v: Json, n: Option<i64>) -> bool {
    match n {
        Some(x) => v == Json::Int(x),
        None => v == Json::Null,
    }
}

pub open spec fn is_text_or_null(v: Json, s: Option<String>) -> bool {
    match s {
        Some(x) => json::text_of(v) == Some(x@),
        None => v == Json::Null,
    }
}

pub(crate) fn int_or_null(n: Option<i64>) -> (v: Json)
    ensures
        is_int_or_null(v, n),
{
    match n {
        Some(x) => Json::Int(x),
        None => Json::Null,
    }
}

pub(crate) fn text_or_null(s: &Option<String>) -> (v: Json)
    ensures
        is_text_or_null(v, *s),
{
    match s {
        Some(x) => str_value(x.as_str()),
        None => Json::Null,
    }
}

pub open spec fn is_event_json(v: Json, r: EventRow) -> bool {
    &&& v matches Json::Object(m)
    &&& m@.len() == 8
    &&& m@[0].0@ == "id"@ && m@[0].1 == Json::Int(r.id)
    &&& m@[1].0@ == "ts"@ && json::text_of(m@[1].1) == Some(r.ts@)
    &&& m@[2].0@ == "source"@ && json::text_of(m@[2].1) == Some(r.source@)
    &&& m@[3].0@ == "event"@ && json::text_of(m@[3].1) == Some(r.event@)
    &&& m@[4].0@ == "status"@ && json::text_of(m@[4].1) == Some(r.status@)
    &&& m@[5].0@ == "duration_ms"@ && is_int_or_null(m@[5].1, r.duration_ms)
    &&& m@[6].0@ == "exit_code"@ && is_int_or_null(m@[6].1, r.exit_code)
    &&& m@[7].0@ == "detail"@ && is_text_or_null(m@[7].1, r.detail)
}

/// Events as a list of objects.
pub fn print_event_json(rows: &Vec<EventRow>) -> (v: Json)
    ensures
        v matches Json::Array(a) && a@.len() == rows@.len() && forall|i: int|
            0 <= i < rows@.len() ==> is_event_json(#[trigger] a@[i], rows@[i]),
{
    let mut a: Vec<Json> = Vec::new();
    let mut i: usize = 0;
    while i < rows.len()
        invariant
            i <= rows@.len(),
            a@.len() == i,
            forall|k: int| 0 <= k < i ==> is_event_json(#[trigger] a@[k], rows@[k]),
        decreases rows.len() - i,
    {
        let r = &rows[i];
        let mut m: Vec<(String, Json)> = Vec::new();
        m.push(("id".to_owned(), Json::Int(r.id)));
        m.push(("ts".to_owned(), str_value(r.ts.as_str())));
        m.push(("source".to_owned(), str_value(r.source.as_str())));
        m.push(("event".to_owned(), str_value(r.event.as_str())));
        m.push(("status".to_owned(), str_value(r.status.as_str())));
        m.push(("duration_ms".to_owned(), int_or_null(r.duration_ms)));
        m.push(("exit_code".to_owned(), int_or_null(r.exit_code)));
        m.push(("detail".to_owned(), text_or_null(&r.detail)));
        let item = Json::Object(m);
        proof {
            assert(is_event_json(item, rows@[i as int]));
        }
        a.push(item);
        i += 1;
    }
    Json::Array(a)
}

pub open spec fn is_status_json(v: Json, r: StatusRow) -> bool {
    &&& v matches Json::Object(m)
    &&& m@.len() == 7
    &&& m@[0].0@ == "event"@ && json::text_of(m@[0].1) == Some(r.event@)
    &&& m@[1].0@ == "last_ts"@ && json::text_of(m@[1].1) == Some(r.last_ts@)
    &&& m@[2].0@ == "last_status"@ && json::text_of(m@[2].1) == Some(r.last_status@)
    &&& m@[3].0@ == "last_duration_ms"@ && is_int_or_null(m@[3].1, r.last_duration_ms)
    &&& m@[4].0@ == "run_count"@ && m@[4].1 == Json::Int(r.run_count)
    &&& m@[5].0@ == "ok_count"@ && m@[5].1 == Json::Int(r.ok_count)
    &&& m@[6].0@ == "error_count"@ && m@[6].1 == Json::Int(r.error_count)
}

/// Statuses as a list of objects.
pub fn print_status_json(rows: &Vec<StatusRow>) -> (v: Json)
    ensures
        v matches Json::Array(a) && a@.len() == rows@.len() && forall|i: int|
            0 <= i < rows@.len() ==> is_status_json(#[trigger] a@[i], rows@[i]),
{
    let mut a: Vec<Json> = Vec::new();
    let mut i: usize = 0;
    while i < rows.len()
        invariant
            i <= rows@.len(),
            a@.len() == i,
            forall|k: int| 0 <= k < i ==> is_status_json(#[trigger] a@[k], rows@[k]),
        decreases rows.len() - i,
    {
        let r = &rows[i];
        let mut m: Vec<(String, Json)> = Vec::new();
        m.push(("event".to_owned(), str_value(r.event.as_str())));
        m.push(("last_ts".to_owned(), str_value(r.last_ts.as_str())));
        m.push(("last_status".to_owned(), str_value(r.last_status.as_str())));
        m.push(("last_duration_ms".to_owned(), int_or_null(r.last_duration_ms)));
        m.push(("run_count".to_owned(), Json::Int(r.run_count)));
        m.push(("ok_count".to_owned(), Json::Int(r.ok_count)));
        m.push(("error_count".to_owned(), Json::Int(r.error_count)));
        let item = Json::Object(m);
        proof {
            assert(is_status_json(item, rows@[i as int]));
        }
        a.push(item);
        i += 1;
    }
    Json::Array(a)
}

// ── The commands ─────────────────────────────────────────────────────────────
/// A telemetry command.
#[derive(Debug)]
pub enum TelemetryCommand {
    Recent { limit: usize, json: bool },
    Failures { since: String, json: bool },
    Status { json: bool },
    Record { event: TelemetryEvent },
    Prune { keep_days: i64 },
}

/// What a command asks of the store.
#[derive(Debug)]
pub enum StoreRequest {
    Recent(usize),
    Failures(Since),
    Status,
    Record(TelemetryEvent),
    Prune(i64),
}

/// What the store answers.
#[derive(Debug)]
pub enum StoreReply {
    Events(Vec<EventRow>),
    Statuses(Vec<StatusRow>),
    Recorded,
    /// So many rows were deleted.
    Pruned(u64),
    Failed(String),
}

/// What a command shows, and its exit code.
#[derive(Debug)]
pub enum Shown {
    Lines(Vec<String>),
    Value(Json),
    Error(String),
}

#[derive(Debug)]
pub struct CommandResult {
    pub shown: Shown,
    pub code: i32,
}

/// How the output of a command is shown.
#[derive(Debug, Clone, Copy, PartialEq, Eq, Structural)]
pub enum Verb {
    Recent { json: bool },
    Failures { json: bool },
    Status { json: bool },
    Record,
    Prune { keep_days: i64 },
}

pub open spec fn verb_of(c: TelemetryCommand) -> Verb {
    match c {
        TelemetryCommand::Recent { limit, json } => Verb::Recent { json },
        TelemetryCommand::Failures { since, json } => Verb::Failures { json },
        TelemetryCommand::Status { json } => Verb::Status { json },
        TelemetryCommand::Record { event } => Verb::Record,
        TelemetryCommand::Prune { keep_days } => Verb::Prune { keep_days },
    }
}

/// What a command asks of the store and how its answer is shown. A window that
/// cannot be read ends the command with code 2.
pub fn plan_telemetry(command: TelemetryCommand) -> (r: Result<(StoreRequest, Verb), CommandResult>)
    ensures
        match r {
            Ok((q, v)) => v == verb_of(command) && match command {
                TelemetryCommand::Recent { limit, json } => q == StoreRequest::Recent(limit),
                TelemetryCommand::Failures { since, json } => q matches StoreRequest::Failures(w)
                    && match w {
                    Since::Hours(n) => since_of(since@) == Ok::<(int, bool), Seq<char>>(
                        (n as int, false),
                    ),
                    Since::Days(n) => since_of(since@) == Ok::<(int, bool), Seq<char>>(
                        (n as int, true),
                    ),
                },
                TelemetryCommand::Status { json } => q == StoreRequest::Status,
                TelemetryCommand::Record { event } => q == StoreRequest::Record(event),
                TelemetryCommand::Prune { keep_days } => q == StoreRequest::Prune(keep_days),
            },
            Err(e) => e.code == 2 && match command {
                TelemetryCommand::Failures { since, json } => since_of(since@) is Err
                    && (e.shown matches Shown::Error(m) && m@ == "telemetry failures: "@
                    + since_of(since@)->Err_0),
                _ => false,
            },
        },
{
    match command {
        TelemetryCommand::Recent { limit, json } => Ok(
            (StoreRequest::Recent(limit), Verb::Recent { json }),
        ),
        TelemetryCommand::Failures { since, json } => match parse_since(since.as_str()) {
            Ok(w) => Ok((StoreRequest::Failures(w), Verb::Failures { json })),
            Err(e) => {
                let mut m = "telemetry failures: ".to_owned();
                m.append(e.as_str());
                Err(CommandResult { shown: Shown::Error(m), code: 2 })
            },
        },
        TelemetryCommand::Status { json } => Ok((StoreRequest::Status, Verb::Status { json })),
        TelemetryCommand::Record { event } => Ok((StoreRequest::Record(event), Verb::Record)),
        TelemetryCommand::Prune { keep_days } => Ok(
            (StoreRequest::Prune(keep_days), Verb::Prune { keep_days }),
        ),
    }
}

/// The prefix of an error message of a command.
pub open spec fn error_prefix(v: Verb) -> Seq<char> {
    match v {
        Verb::Recent { .. } => "telemetry recent: "@,
        Verb::Failures { .. } => "telemetry failures: "@,
        Verb::Status { .. } => "telemetry status: "@,
        Verb::Record => "telemetry record: failed: "@,
        Verb::Prune { .. } => "telemetry prune: "@,
    }
}

/// The store answers in kind.
pub open spec fn answers(v: Verb, reply: StoreReply) -> bool {
    reply is Failed || match v {
        Verb::Recent { .. } => reply is Events,
        Verb::Failures { .. } => reply is Events,
        Verb::Status { .. } => reply is Statuses,
        Verb::Record => reply is Recorded,
        Verb::Prune { .. } => reply is Pruned,
    }
}

pub open spec fn wants_json(v: Verb) -> bool {
    match v {
        Verb::Recent { json } => json,
        Verb::Failures { json } => json,
        Verb::Status { json } => json,
        _ => false,
    }
}

/// What is shown for an answer of the store.
pub open spec fn is_shown(s: Shown, v: Verb, reply: StoreReply) -> bool {
    match reply {
        StoreReply::Failed(e) => s matches Shown::Error(m) && m@ == error_prefix(v) + e@,
        StoreReply::Events(rows) => if wants_json(v) {
            s matches Shown::Value(Json::Array(a)) && a@.len() == rows@.len() && forall|i: int|
                0 <= i < rows@.len() ==> is_event_json(#[trigger] a@[i], rows@[i])
        } else {
            s matches Shown::Lines(l) && text::texts(l@) == event_table(rows@)
        },
        StoreReply::Statuses(rows) => if wants_json(v) {
            s matches Shown::Value(Json::Array(a)) && a@.len() == rows@.len() && forall|i: int|
                0 <= i < rows@.len() ==> is_status_json(#[trigger] a@[i], rows@[i])
        } else {
            s matches Shown::Lines(l) && text::texts(l@) == status_table(rows@)
        },
        StoreReply::Recorded => s matches Shown::Lines(l) && text::texts(l@) == seq!["recorded"@],
        StoreReply::Pruned(n) => s matches Shown::Lines(l) && (v matches Verb::Prune {
            keep_days,
        } && text::texts(l@) == seq![
            "pruned "@ + text::numeral(n as nat) + " events (kept last "@ + text::signed_numeral(
                keep_days as int,
            ) + "d)"@,
        ]),
    }
}

fn verb_json(v: Verb) -> (b: bool)
    ensures
        b == wants_json(v),
{
    match v {
        Verb::Recent { json } => json,
        Verb::Failures { json } => json,
        Verb::Status { json } => json,
        Verb::Record => false,
        Verb::Prune { keep_days } => false,
    }
}

fn single(s: String) -> (v: Vec<String>)
    ensures
        text::texts(v@) == seq![s@],
{
    let mut v: Vec<String> = Vec::new();
    v.push(s);
    proof {
        assert(text::texts(v@) =~= seq![s@]);
    }
    v
}

/// What a telemetry command shows once the store has answered: code 0, or 1
/// where the store failed.
pub fn run_telemetry(v: Verb, reply: StoreReply) -> (r: CommandResult)
    requires
        answers(v, reply),
    ensures
        is_shown(r.shown, v, reply),
        r.code == if reply is Failed {
            1i32
        } else {
            0
        },
{
    let json = verb_json(v);
    match reply {
        StoreReply::Failed(e) => {
            let mut m = match v {
                Verb::Recent { json } => "telemetry recent: ".to_owned(),
                Verb::Failures { json } => "telemetry failures: ".to_owned(),
                Verb::Status { json } => "telemetry status: ".to_owned(),
                Verb::Record => "telemetry record: failed: ".to_owned(),
                Verb::Prune { keep_days } => "telemetry prune: ".to_owned(),
            };
            m.append(e.as_str());
            CommandResult { shown: Shown::Error(m), code: 1 }
        },
        StoreReply::Events(rows) => {
            let shown = if json {
                Shown::Value(print_event_json(&rows))
            } else {
                Shown::Lines(print_event_table(&rows))
            };
            CommandResult { shown, code: 0 }
        },
        StoreReply::Statuses(rows) => {
            let shown = if json {
                Shown::Value(print_status_json(&rows))
            } else {
                Shown::Lines(print_status_table(&rows))
            };
            CommandResult { shown, code: 0 }
        },
        StoreReply::Recorded => CommandResult {
            shown: Shown::Lines(single("recorded".to_owned())),
            code: 0,
        },
        StoreReply::Pruned(n) => {
            let days: i64 = match v {
                Verb::Prune { keep_days } => keep_days,
                _ => 0,
            };
            let mut m = "pruned ".to_owned();
            m.append(decimal(n).as_str());
            m.append(" events (kept last ");
            m.append(signed_decimal(days).as_str());
            m.append("d)");
            CommandResult { shown: Shown::Lines(single(m)), code: 0 }
        },
    }
}

// ── Laws ─────────────────────────────────────────────────────────────────────
/// A number with `h` behind it, or with nothing, is so many hours, one with `d` so many
/// days; space around it does not matter, and nothing at all is no window.
pub proof fn law_since(n: nat, s: Seq<char>)
    requires
        n <= i64::MAX,
    ensures
        since_of(text::numeral(n).push('h')) == Ok::<(int, bool), Seq<char>>((n as int, false)),
        since_of(text::numeral(n).push('d')) == Ok::<(int, bool), Seq<char>>((n as int, true)),
        since_of(text::numeral(n)) == Ok::<(int, bool), Seq<char>>((n as int, false)),
        since_of(text::trim(s)) == since_of(s),
        text::trim(s).len() == 0 ==> since_of(s) == Err::<(int, bool), Seq<char>>(
            "empty --since value"@,
        ),
{
    text::law_numeral(n);
    text::law_numerals_are_read_back(n);
    let d = text::numeral(n);
    assert(text::is_digit(d[0]) && text::is_digit(d[d.len() - 1]));
    text::lemma_trim_fixed(d);
    text::lemma_trim_fixed(d.push('h'));
    text::lemma_trim_fixed(d.push('d'));
    assert(d.push('h').drop_last() =~= d);
    assert(d.push('d').drop_last() =~= d);
    text::lemma_trim_twice(s);
}

/// What is no number, its unit left out, is no window.
pub proof fn law_no_window(s: Seq<char>, i: int)
    requires
        0 < i < s.len() - 1,
        !text::is_digit(s[i]),
        text::trim(s) == s,
    ensures
        since_of(s) is Err,
{
    let t = since_parts(s).0;
    assert(t[i] == s[i]);
    text::law_no_number(t, i);
}

/// A table of events has a header and a line for each event, in order, with its time,
/// source, name, status and duration, in this order, in columns.
pub proof fn law_event_table(rows: Seq<EventRow>, k: int)
    requires
        0 <= k < rows.len(),
    ensures
        event_table(rows).len() == rows.len() + 1,
        event_table(rows)[k + 1] == text::padded(rows[k].ts@, 25) + " "@ + text::padded(
            rows[k].source@,
            16,
        ) + " "@ + text::padded(rows[k].event@, 32) + " "@ + text::padded(rows[k].status@, 8) + " "@
            + text::padded_left(
            match rows[k].duration_ms {
                Some(n) => text::signed_numeral(n as int),
                None => "-"@,
            },
            8,
        ),
{
}

/// A table of statuses has a header and a line for each event, in order: its name, when
/// it was last seen and how that went, then how often it ran, went well and failed, and
/// how long it last took.
pub proof fn law_status_table(rows: Seq<StatusRow>, k: int)
    requires
        0 <= k < rows.len(),
    ensures
        status_table(rows).len() == rows.len() + 1,
        status_table(rows)[k + 1] == text::padded(rows[k].event@, 32) + " "@ + text::padded(
            rows[k].last_ts@,
            25,
        ) + " "@ + text::padded(rows[k].last_status@, 8) + " "@ + text::padded_left(
            text::signed_numeral(rows[k].run_count as int),
            5,
        ) + " "@ + text::padded_left(text::signed_numeral(rows[k].ok_count as int), 5) + " "@
            + text::padded_left(text::signed_numeral(rows[k].error_count as int), 5) + " "@
            + text::padded_left(
            match rows[k].last_duration_ms {
                Some(n) => text::signed_numeral(n as int),
                None => "-"@,
            },
            8,
        ),
{
}

/// An error of the store is shown under the name of the command, and events and
/// statuses are shown as JSON if and only if that was asked for.
pub proof fn law_shown(s: Shown, c: TelemetryCommand, reply: StoreReply)
    requires
        is_shown(s, verb_of(c), reply),
        answers(verb_of(c), reply),
    ensures
        (s is Error) == (reply is Failed),
        c is Recent && !(reply is Failed) ==> (s is Value) == c->Recent_json,
        c is Failures && !(reply is Failed) ==> (s is Value) == c->Failures_json,
        c is Status && !(reply is Failed) ==> (s is Value) == c->Status_json,
{
}

/// An event is printed with each of its columns under the name of the column; a number or
/// a detail that is not there is `null`.
pub proof fn law_event_json(v: Json, r: EventRow)
    requires
        is_event_json(v, r),
    ensures
        json::member(v, "id"@) == Some(Json::Int(r.id)),
        json::text_member(v, "ts"@) == Some(r.ts@),
        json::text_member(v, "source"@) == Some(r.source@),
        json::text_member(v, "event"@) == Some(r.event@),
        json::text_member(v, "status"@) == Some(r.status@),
        json::member(v, "duration_ms"@) == Some(
            match r.duration_ms {
                Some(n) => Json::Int(n),
                None => Json::Null,
            },
        ),
        json::member(v, "exit_code"@) == Some(
            match r.exit_code {
                Some(n) => Json::Int(n),
                None => Json::Null,
            },
        ),
        r.detail is Some ==> json::text_member(v, "detail"@) == Some(r.detail->0@),
        r.detail is None ==> json::member(v, "detail"@) == Some(Json::Null),
{
    reveal_strlit("id");
    reveal_strlit("ts");
    reveal_strlit("source");
    reveal_strlit("event");
    reveal_strlit("status");
    reveal_strlit("duration_ms");
    reveal_strlit("exit_code");
    reveal_strlit("detail");
    assert("id"@.len() == 2 && "ts"@.len() == 2 && "id"@[0] == 'i' && "ts"@[0] == 't');
    assert("source"@.len() == 6 && "status"@.len() == 6 && "source"@[1] == 'o' && "status"@[1]
        == 't');
    assert("event"@.len() == 5 && "duration_ms"@.len() == 11 && "exit_code"@.len() == 9);
    assert("detail"@.len() == 6 && "detail"@[1] == 'e');
    reveal_with_fuel(json::member_index, 9);
}

/// A state is printed with the last event, its time, its status and how long it took, and
/// with how many there were, how many went well and how many did not.
pub proof fn law_status_json(v: Json, r: StatusRow)
    requires
        is_status_json(v, r),
    ensures
        json::text_member(v, "event"@) == Some(r.event@),
        json::text_member(v, "last_ts"@) == Some(r.last_ts@),
        json::text_member(v, "last_status"@) == Some(r.last_status@),
        json::member(v, "last_duration_ms"@) == Some(
            match r.last_duration_ms {
                Some(n) => Json::Int(n),
                None => Json::Null,
            },
        ),
        json::member(v, "run_count"@) == Some(Json::Int(r.run_count)),
        json::member(v, "ok_count"@) == Some(Json::Int(r.ok_count)),
        json::member(v, "error_count"@) == Some(Json::Int(r.error_count)),
{
    reveal_strlit("event");
    reveal_strlit("last_ts");
    reveal_strlit("last_status");
    reveal_strlit("last_duration_ms");
    reveal_strlit("run_count");
    reveal_strlit("ok_count");
    reveal_strlit("error_count");
    assert("event"@.len() == 5 && "last_ts"@.len() == 7 && "last_duration_ms"@.len() == 16);
    assert("last_status"@.len() == 11 && "error_count"@.len() == 11 && "last_status"@[0] == 'l'
        && "error_count"@[0] == 'e');
    assert("run_count"@.len() == 9 && "ok_count"@.len() == 8);
    reveal_with_fuel(json::member_index, 8);
}

/// A question is answered in JSON if and only if it asks for it, and nothing else is; an
/// error names the command.
pub proof fn law_verbs(v: Verb)
    ensures
        v matches Verb::Recent { json } ==> wants_json(v) == json && error_prefix(v)
            == "telemetry recent: "@,
        v matches Verb::Failures { json } ==> wants_json(v) == json && error_prefix(v)
            == "telemetry failures: "@,
        v matches Verb::Status { json } ==> wants_json(v) == json && error_prefix(v)
            == "telemetry status: "@,
        v is Record ==> !wants_json(v) && error_prefix(v) == "telemetry record: failed: "@,
        v is Prune ==> !wants_json(v) && error_prefix(v) == "telemetry prune: "@,
{
}

} // verus!
