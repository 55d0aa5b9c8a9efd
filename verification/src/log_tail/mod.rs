//! Follows a log, takes bursts of slow lines together and reports them.
use crate::json::{self, Json, JsonText};
use crate::text::{self, str_eq};
use coalesce::{EpisodeCoalescer, StallEpisode};
use emit::EmitArgs;
use headroom::HeadroomStageTimings;
use observer::{LineObserver, Observation, Severity};
use reader::TailReader;
use vstd::prelude::*;

pub mod coalesce;
pub mod emit;
pub mod headroom;
pub mod observer;
pub mod reader;

verus! {

/// The shortest quiet window, in milliseconds.
pub const MIN_QUIET_MS: u64 = 50;

/// One follower of a log.
#[derive(Debug, Clone)]
pub struct LogTailConfig {
    pub path: String,
    pub observer: String,
    /// The event on the bus.
    pub event: String,
    /// The source of rows and events.
    pub source: String,
    /// The rank of the degraded floor.
    pub degraded: i64,
    /// The rank of the stall floor.
    pub stall: i64,
    /// How long a burst must have been over.
    pub quiet_ms: u64,
    pub from_start: bool,
}

/// The names under which observers are found.
pub open spec fn known_names() -> Seq<Seq<char>> {
    seq!["headroom-stage-timings"@]
}

/// The names under which observers are found.
pub fn known_observers() -> (r: [&'static str; 1])
    ensures
        r@.map_values(|s: &str| s@) == known_names(),
{
    let r: [&'static str; 1] = ["headroom-stage-timings"];
    proof {
        assert(r@.map_values(|s: &str| s@) =~= known_names());
    }
    r
}

/// The observer of a name, with its two floors.
pub fn observer_registry(name: &str, degraded: i64, stall: i64) -> (r: Option<
    HeadroomStageTimings,
>)
    ensures
        r is Some <==> known_names().contains(name@),
        r is Some ==> r->0.label() == name@ && r->0.degraded == degraded && r->0.stall == stall,
{
    proof {
        assert(known_names()[0] == "headroom-stage-timings"@);
    }
    if str_eq(name, "headroom-stage-timings") {
        Some(HeadroomStageTimings { degraded, stall })
    } else {
        None
    }
}

/// The scope of what is remembered.
pub fn state_scope() -> (r: &'static str)
    ensures
        r@ == "log-tail"@,
{
    "log-tail"
}

/// The key of a remembered offset: one for each source.
pub fn checkpoint_key(cfg: &LogTailConfig) -> (r: String)
    ensures
        r@ == "offset:"@ + cfg.source@,
{
    let mut r = "offset:".to_owned();
    r.append(cfg.source.as_str());
    r
}

/// Two sources never share a remembered offset.
pub proof fn law_sources_apart(a: Seq<char>, b: Seq<char>)
    requires
        "offset:"@ + a == "offset:"@ + b,
    ensures
        a == b,
{
    let n = "offset:"@.len() as int;
    assert(a =~= ("offset:"@ + a).skip(n));
    assert(b =~= ("offset:"@ + b).skip(n));
}

// ── Start ────────────────────────────────────────────────────────────────────
/// The observer of a follower, or what is said of an unknown one.
pub fn chosen_observer(cfg: &LogTailConfig) -> (r: Result<HeadroomStageTimings, String>)
    ensures
        match r {
            Ok(o) => known_names().contains(cfg.observer@) && o.label() == cfg.observer@
                && o.degraded == cfg.degraded && o.stall == cfg.stall,
            Err(e) => !known_names().contains(cfg.observer@) && e@
                == "hex log-tail: unknown observer '"@ + cfg.observer@ + "' (known: "@ + text::join(
                known_names(),
                ", "@,
            ) + ")"@,
        },
{
    match observer_registry(cfg.observer.as_str(), cfg.degraded, cfg.stall) {
        Some(o) => Ok(o),
        None => {
            let mut known: Vec<String> = Vec::new();
            known.push("headroom-stage-timings".to_owned());
            proof {
                assert(text::texts(known@) =~= known_names());
            }
            let mut e = "hex log-tail: unknown observer '".to_owned();
            e.append(cfg.observer.as_str());
            e.append("' (known: ");
            let names = text::join_strings(&known, ", ");
            e.append(names.as_str());
            e.append(")");
            Err(e)
        },
    }
}

/// Goes on from what was remembered, where something was; says where it could
/// not be looked up.
pub fn restore(reader: &mut TailReader, remembered: Result<Option<u64>, String>) -> (r: Option<
    String,
>)
    ensures
        final(reader).path == old(reader).path,
        final(reader).last_inode == old(reader).last_inode,
        match remembered {
            Ok(Some(n)) => r is None && final(reader).position == n,
            Ok(None) => r is None && final(reader).position == old(reader).position,
            Err(e) => {
                &&& final(reader).position == old(reader).position
                &&& r is Some
                &&& r->0@
                    == "hex log-tail: failed to restore checkpoint (starting from EOF): "@ + e@
            },
        },
{
    match remembered {
        Ok(Some(n)) => {
            reader.set_offset(n);
            None
        },
        Ok(None) => None,
        Err(e) => {
            let mut r = "hex log-tail: failed to restore checkpoint (starting from EOF): ".to_owned();
            r.append(e.as_str());
            Some(r)
        },
    }
}

/// The directory to watch, or that there is none.
pub fn watched_dir(reader: &TailReader) -> (r: Result<String, String>)
    ensures
        match r {
            Ok(d) => crate::paths::parent_of(reader.path@) == Some(d@),
            Err(e) => crate::paths::parent_of(reader.path@) is None && e@
                == "hex log-tail: path '"@ + reader.path@ + "' has no parent directory"@,
        },
{
    match reader.parent_dir() {
        Some(d) => Ok(d),
        None => {
            let mut e = "hex log-tail: path '".to_owned();
            e.append(reader.path.as_str());
            e.append("' has no parent directory");
            Err(e)
        },
    }
}

/// The quiet window, in milliseconds: never so short that waiting for it would
/// keep the machine busy.
pub fn quiet_window(cfg: &LogTailConfig) -> (n: u64)
    ensures
        n == if cfg.quiet_ms >= MIN_QUIET_MS {
            cfg.quiet_ms
        } else {
            MIN_QUIET_MS
        },
{
    if cfg.quiet_ms >= MIN_QUIET_MS {
        cfg.quiet_ms
    } else {
        MIN_QUIET_MS
    }
}

/// What is said once everything is set up.
pub fn following(cfg: &LogTailConfig, observer: &HeadroomStageTimings) -> (r: String)
    ensures
        r@ == "hex log-tail: following "@ + cfg.path@ + " via observer '"@ + observer.label()
            + "' → event '"@ + cfg.event@ + "' (durable source '"@ + cfg.source@ + "')"@,
{
    let mut r = "hex log-tail: following ".to_owned();
    r.append(cfg.path.as_str());
    r.append(" via observer '");
    r.append(observer.name());
    r.append("' → event '");
    r.append(cfg.event.as_str());
    r.append("' (durable source '");
    r.append(cfg.source.as_str());
    r.append("')");
    r
}

/// What woke a follower.
#[derive(Debug, Clone)]
pub enum Wake {
    Changed,
    WatchError(String),
    /// Nothing came for the quiet window.
    Idle,
    Disconnected,
}

/// What a follower does next.
#[derive(Debug, Clone)]
pub enum Next {
    Drain,
    /// Say something and go on.
    Report(String),
    /// Close the open episode where it is over.
    Flush,
    /// Say something and end with an exit code.
    Exit(String, i32),
}

pub fn next(wake: Wake) -> (r: Next)
    ensures
        match wake {
            Wake::Changed => r is Drain,
            Wake::WatchError(e) => r is Report && r->Report_0@
                == "hex log-tail: notify backend error (continuing): "@ + e@,
            Wake::Idle => r is Flush,
            Wake::Disconnected => r is Exit && r->Exit_1 == 1 && r->Exit_0@
                == "hex log-tail: watcher channel disconnected (watcher died); exiting non-zero for respawn"@,
        },
{
    match wake {
        Wake::Changed => Next::Drain,
        Wake::WatchError(e) => {
            let mut r = "hex log-tail: notify backend error (continuing): ".to_owned();
            r.append(e.as_str());
            Next::Report(r)
        },
        Wake::Idle => Next::Flush,
        Wake::Disconnected => Next::Exit(
            "hex log-tail: watcher channel disconnected (watcher died); exiting non-zero for respawn".to_owned(),
            1,
        ),
    }
}

// ── Reports ──────────────────────────────────────────────────────────────────
/// The report of one slow line.
pub open spec fn overhead_text(cfg: LogTailConfig, o: observer::ObservationText) -> emit::EmitText {
    emit::EmitText {
        source: cfg.source@,
        event: "overhead"@,
        bus_event: cfg.event@,
        status: o.severity.text(),
        value: o.value,
        detail: JsonText::Object(seq![("stage"@, json::text_or_null(o.stage))]),
        data: JsonText::Object(
            seq![
                ("severity"@, JsonText::Str(o.severity.text())),
                ("value_ms"@, JsonText::Number(o.value.text)),
                ("stage"@, json::text_or_null(o.stage)),
                ("source"@, JsonText::Str(cfg.source@)),
            ],
        ),
    }
}

fn overhead(cfg: &LogTailConfig, o: &Observation) -> (r: EmitArgs)
    ensures
        r@ == overhead_text(*cfg, o@),
{
    let mut d: Vec<(String, Json)> = Vec::new();
    json::put(&mut d, "stage", json::opt_value(&o.stage));
    let mut m: Vec<(String, Json)> = Vec::new();
    json::put(&mut m, "severity", json::text_value(o.severity.status()));
    json::put(&mut m, "value_ms", Json::Number(o.value.text.as_str().to_owned()));
    json::put(&mut m, "stage", json::opt_value(&o.stage));
    json::put(&mut m, "source", json::text_value(cfg.source.as_str()));
    proof {
        assert(json::member_texts(d@) =~= overhead_text(*cfg, o@).detail->Object_0);
        assert(json::member_texts(m@) =~= overhead_text(*cfg, o@).data->Object_0);
    }
    EmitArgs {
        source: cfg.source.as_str().to_owned(),
        event: "overhead".to_owned(),
        bus_event: cfg.event.as_str().to_owned(),
        status: o.severity.status().to_owned(),
        value: observer::copy_latency(&o.value),
        detail: json::object(d),
        data: json::object(m),
    }
}

/// A count as JSON.
pub open spec fn count_json(n: int) -> JsonText {
    if n <= i64::MAX {
        JsonText::Int(n)
    } else {
        JsonText::Number(text::numeral(n as nat))
    }
}

fn count_value(n: u64) -> (r: Json)
    ensures
        r@ == count_json(n as int),
{
    if n <= i64::MAX as u64 {
        Json::Int(n as i64)
    } else {
        Json::Number(text::decimal(n))
    }
}

/// The report of one episode.
pub open spec fn episode_report(cfg: LogTailConfig, e: coalesce::EpisodeText) -> emit::EmitText {
    emit::EmitText {
        source: cfg.source@,
        event: "stall_episode"@,
        bus_event: cfg.event@,
        status: e.peak_severity.text(),
        value: e.peak,
        detail: JsonText::Object(
            seq![
                ("count"@, count_json(e.count)),
                ("peak_ms"@, JsonText::Number(e.peak.text)),
                ("dominant_stage"@, json::text_or_null(e.dominant_stage)),
            ],
        ),
        data: JsonText::Object(
            seq![
                ("kind"@, JsonText::Str("stall_episode"@)),
                ("count"@, count_json(e.count)),
                ("peak_ms"@, JsonText::Number(e.peak.text)),
                ("severity"@, JsonText::Str(e.peak_severity.text())),
                ("dominant_stage"@, json::text_or_null(e.dominant_stage)),
                ("source"@, JsonText::Str(cfg.source@)),
            ],
        ),
    }
}

fn episode_args(cfg: &LogTailConfig, e: &StallEpisode) -> (r: EmitArgs)
    ensures
        r@ == episode_report(*cfg, e@),
{
    let mut d: Vec<(String, Json)> = Vec::new();
    json::put(&mut d, "count", count_value(e.count));
    json::put(&mut d, "peak_ms", Json::Number(e.peak.text.as_str().to_owned()));
    json::put(&mut d, "dominant_stage", json::opt_value(&e.dominant_stage));
    let mut m: Vec<(String, Json)> = Vec::new();
    json::put(&mut m, "kind", json::text_value("stall_episode"));
    json::put(&mut m, "count", count_value(e.count));
    json::put(&mut m, "peak_ms", Json::Number(e.peak.text.as_str().to_owned()));
    json::put(&mut m, "severity", json::text_value(e.peak_severity.status()));
    json::put(&mut m, "dominant_stage", json::opt_value(&e.dominant_stage));
    json::put(&mut m, "source", json::text_value(cfg.source.as_str()));
    proof {
        assert(json::member_texts(d@) =~= episode_report(*cfg, e@).detail->Object_0);
        assert(json::member_texts(m@) =~= episode_report(*cfg, e@).data->Object_0);
    }
    EmitArgs {
        source: cfg.source.as_str().to_owned(),
        event: "stall_episode".to_owned(),
        bus_event: cfg.event.as_str().to_owned(),
        status: e.peak_severity.status().to_owned(),
        value: observer::copy_latency(&e.peak),
        detail: json::object(d),
        data: json::object(m),
    }
}

/// The report of the episode that ends at `now`, if one does.
pub open spec fn ended_reports(cfg: LogTailConfig, s: coalesce::CoalescerState, now: u128) -> Seq<
    emit::EmitText,
> {
    match s.ended(now) {
        Some(e) => seq![episode_report(cfg, e)],
        None => Seq::empty(),
    }
}

/// Takes in what one line says: a line of no interest, and a normal one, does
/// nothing; a slow one is reported and counted, after it an episode that it
/// finds ended.
pub fn take_line(
    cfg: &LogTailConfig,
    coalescer: &mut EpisodeCoalescer,
    seen: Option<Observation>,
    now: u128,
) -> (r: Vec<EmitArgs>)
    requires
        old(coalescer)@.open is Some ==> (old(coalescer)@.open->0).0.count < u64::MAX,
    ensures
        match seen {
            None => r@.len() == 0 && final(coalescer)@ == old(coalescer)@,
            Some(o) => if o.severity == Severity::Normal {
                r@.len() == 0 && final(coalescer)@ == old(coalescer)@
            } else {
                &&& emit::emit_texts(r@) == seq![overhead_text(*cfg, o@)] + ended_reports(
                    *cfg,
                    old(coalescer)@,
                    now,
                )
                &&& final(coalescer)@ == old(coalescer)@.breached(
                    now,
                    o.value@,
                    o.severity,
                    json::opt_text(o.stage),
                )
            },
        },
{
    let mut out: Vec<EmitArgs> = Vec::new();
    let o = match seen {
        Some(o) => o,
        None => {
            return out;
        },
    };
    if o.severity == Severity::Normal {
        return out;
    }
    let ghost before = coalescer@;
    out.push(overhead(cfg, &o));
    match coalescer.record_breach(now, o.value, o.severity, o.stage) {
        Some(e) => {
            out.push(episode_args(cfg, &e));
        },
        None => {},
    }
    proof {
        assert(emit::emit_texts(out@) =~= seq![overhead_text(*cfg, o@)] + ended_reports(
            *cfg,
            before,
            now,
        ));
    }
    out
}

/// Reports the episode that is over, if one is.
pub fn flush(cfg: &LogTailConfig, coalescer: &mut EpisodeCoalescer, now: u128) -> (r: Vec<EmitArgs>)
    ensures
        emit::emit_texts(r@) == ended_reports(*cfg, old(coalescer)@, now),
        final(coalescer)@ == old(coalescer)@.ticked(now),
{
    let mut out: Vec<EmitArgs> = Vec::new();
    let ghost before = coalescer@;
    match coalescer.tick(now) {
        Some(e) => {
            out.push(episode_args(cfg, &e));
        },
        None => {},
    }
    proof {
        assert(emit::emit_texts(out@) =~= ended_reports(*cfg, before, now));
    }
    out
}

/// The offset to remember after a read, where it has moved.
pub fn checkpoint(before: u64, after: u64) -> (r: Option<u64>)
    ensures
        r == if after != before {
            Some(after)
        } else {
            None
        },
{
    if after != before {
        Some(after)
    } else {
        None
    }
}

// ── A drain ──────────────────────────────────────────────────────────────────
/// What a drain does, in order.
#[derive(Debug)]
pub enum Effect {
    Report(EmitArgs),
    /// Remember this offset.
    Checkpoint(u64),
}

pub enum EffectText {
    Report(emit::EmitText),
    Checkpoint(u64),
}

impl View for Effect {
    type V = EffectText;

    open spec fn view(&self) -> EffectText {
        match self {
            Effect::Report(a) => EffectText::Report(a@),
            Effect::Checkpoint(n) => EffectText::Checkpoint(*n),
        }
    }
}

pub open spec fn effect_texts(v: Seq<Effect>) -> Seq<EffectText> {
    v.map_values(|e: Effect| e@)
}

/// What a line says, and when it was taken in.
pub type Seen = (Option<Observation>, u128);

/// Whether a line is reported.
pub open spec fn is_slow(o: Option<Observation>) -> bool {
    o is Some && o->0.severity != Severity::Normal
}

/// The episodes after the first `n` lines.
pub open spec fn episodes_after(s: coalesce::CoalescerState, seen: Seq<Seen>, n: int) -> coalesce::CoalescerState
    decreases n,
{
    if n <= 0 {
        s
    } else {
        let before = episodes_after(s, seen, n - 1);
        let (o, at) = seen[n - 1];
        if is_slow(o) {
            before.breached(at, o->0.value@, o->0.severity, json::opt_text(o->0.stage))
        } else {
            before
        }
    }
}

/// The reports of the first `n` lines: one for each slow line, and behind it
/// one for an episode that it finds ended.
pub open spec fn reports_of(
    cfg: LogTailConfig,
    s: coalesce::CoalescerState,
    seen: Seq<Seen>,
    n: int,
) -> Seq<emit::EmitText>
    decreases n,
{
    if n <= 0 {
        Seq::empty()
    } else {
        let (o, at) = seen[n - 1];
        let front = reports_of(cfg, s, seen, n - 1);
        if is_slow(o) {
            front + (seq![overhead_text(cfg, o->0@)] + ended_reports(
                cfg,
                episodes_after(s, seen, n - 1),
                at,
            ))
        } else {
            front
        }
    }
}

pub open spec fn as_effects(v: Seq<emit::EmitText>) -> Seq<EffectText> {
    v.map_values(|a: emit::EmitText| EffectText::Report(a))
}

/// What a drain does: it reports what the lines say, then remembers how far it
/// has read, where it has read something, then reports an episode that is over.
pub open spec fn drained(
    cfg: LogTailConfig,
    s: coalesce::CoalescerState,
    seen: Seq<Seen>,
    before: u64,
    after: u64,
    now: u128,
) -> Seq<EffectText> {
    as_effects(reports_of(cfg, s, seen, seen.len() as int)) + (if after != before {
        seq![EffectText::Checkpoint(after)]
    } else {
        Seq::empty()
    }) + as_effects(ended_reports(cfg, episodes_after(s, seen, seen.len() as int), now))
}

fn push_reports(out: &mut Vec<Effect>, reports: Vec<EmitArgs>)
    ensures
        effect_texts(final(out)@) == effect_texts(old(out)@) + as_effects(
            emit::emit_texts(reports@),
        ),
{
    let ghost before = effect_texts(out@);
    let ghost all = reports@;
    proof {
        assert(before =~= before + as_effects(emit::emit_texts(all.take(0))));
    }
    for a in it: reports
        invariant
            it.seq() == all,
            effect_texts(out@) == before + as_effects(
                emit::emit_texts(all.take(it.index() as int)),
            ),
    {
        let ghost held = out@;
        out.push(Effect::Report(a));
        proof {
            assert(effect_texts(out@) =~= effect_texts(held).push(EffectText::Report(a@)));
            assert(as_effects(emit::emit_texts(all.take(it.index() + 1))) =~= as_effects(
                emit::emit_texts(all.take(it.index() as int)),
            ).push(EffectText::Report(a@)));
        }
    }
    proof {
        assert(all.take(all.len() as int) =~= all);
    }
}

/// Takes in what lines say that were read from `before` on up to `after`; it is
/// `now` when the last of them has been taken in.
pub fn drain(
    cfg: &LogTailConfig,
    coalescer: &mut EpisodeCoalescer,
    seen: Vec<Seen>,
    before: u64,
    after: u64,
    now: u128,
) -> (r: Vec<Effect>)
    requires
        coalesce::open_count(old(coalescer)@) + seen@.len() <= u64::MAX,
    ensures
        effect_texts(r@) == drained(*cfg, old(coalescer)@, seen@, before, after, now),
        final(coalescer)@ == episodes_after(
            old(coalescer)@,
            seen@,
            seen@.len() as int,
        ).ticked(now),
{
    let ghost start = coalescer@;
    let ghost all = seen@;
    let mut out: Vec<Effect> = Vec::new();
    proof {
        assert(effect_texts(out@) =~= as_effects(reports_of(*cfg, start, all, 0)));
    }
    for x in it: seen
        invariant
            it.seq() == all,
            coalesce::open_count(start) + all.len() <= u64::MAX,
            0 <= coalesce::open_count(coalescer@) <= coalesce::open_count(start) + it.index(),
            coalescer@ == episodes_after(start, all, it.index() as int),
            effect_texts(out@) == as_effects(reports_of(*cfg, start, all, it.index() as int)),
    {
        let ghost n = it.index() as int;
        let ghost held = coalescer@;
        let ghost front = reports_of(*cfg, start, all, n);
        let (o, at) = x;
        let ghost seen_o = o;
        let reports = take_line(cfg, coalescer, o, at);
        proof {
            assert(all[n] == (seen_o, at));
            assert(reports_of(*cfg, start, all, n + 1) =~= front + emit::emit_texts(reports@));
            assert(as_effects(front + emit::emit_texts(reports@)) =~= as_effects(front)
                + as_effects(emit::emit_texts(reports@)));
        }
        push_reports(&mut out, reports);
    }
    let ghost lines = effect_texts(out@);
    match checkpoint(before, after) {
        Some(n) => {
            out.push(Effect::Checkpoint(n));
            proof {
                assert(effect_texts(out@) =~= lines + seq![EffectText::Checkpoint(after)]);
            }
        },
        None => {
            proof {
                assert(effect_texts(out@) =~= lines + Seq::<EffectText>::empty());
            }
        },
    }
    let reports = flush(cfg, coalescer, now);
    push_reports(&mut out, reports);
    out
}

/// A drain remembers how far it has read only once, and after it has reported
/// every line: one that is cut short before reports lines again, and drops none.
pub proof fn law_reported_before_remembered(
    cfg: LogTailConfig,
    s: coalesce::CoalescerState,
    seen: Seq<Seen>,
    before: u64,
    after: u64,
    now: u128,
    i: int,
)
    requires
        0 <= i < drained(cfg, s, seen, before, after, now).len(),
        drained(cfg, s, seen, before, after, now)[i] is Checkpoint,
    ensures
        before != after,
        drained(cfg, s, seen, before, after, now)[i] == EffectText::Checkpoint(after),
        drained(cfg, s, seen, before, after, now).take(i) == as_effects(
            reports_of(cfg, s, seen, seen.len() as int),
        ),
{
    let d = drained(cfg, s, seen, before, after, now);
    let lines = as_effects(reports_of(cfg, s, seen, seen.len() as int));
    let ends = as_effects(ended_reports(cfg, episodes_after(s, seen, seen.len() as int), now));
    assert forall|k: int| 0 <= k < lines.len() implies !((#[trigger] d[k]) is Checkpoint) by {
        assert(d[k] == lines[k]);
    }
    if before == after {
        assert(i >= lines.len());
        assert(d[i] == ends[i - lines.len()]);
    } else if i > lines.len() {
        assert(d[i] == ends[i - lines.len() - 1]);
    }
    assert(d.take(i) =~= lines);
}

/// What is reported of a slow line has its severity, value and stage, and what is
/// reported of an episode its count, its peak and the stage there.
pub proof fn law_reports(cfg: LogTailConfig, o: observer::ObservationText, e: coalesce::EpisodeText)
    ensures
        overhead_text(cfg, o).source == cfg.source@,
        overhead_text(cfg, o).bus_event == cfg.event@,
        overhead_text(cfg, o).event == "overhead"@,
        overhead_text(cfg, o).status == o.severity.text(),
        overhead_text(cfg, o).value == o.value,
        overhead_text(cfg, o).data->Object_0.contains(
            ("severity"@, JsonText::Str(o.severity.text())),
        ),
        overhead_text(cfg, o).data->Object_0.contains(("value_ms"@, JsonText::Number(o.value.text))),
        overhead_text(cfg, o).data->Object_0.contains(("stage"@, json::text_or_null(o.stage))),
        episode_report(cfg, e).source == cfg.source@,
        episode_report(cfg, e).bus_event == cfg.event@,
        episode_report(cfg, e).event == "stall_episode"@,
        episode_report(cfg, e).status == e.peak_severity.text(),
        episode_report(cfg, e).value == e.peak,
        e.count <= i64::MAX ==> episode_report(cfg, e).data->Object_0.contains(
            ("count"@, JsonText::Int(e.count)),
        ),
        episode_report(cfg, e).data->Object_0.contains(("peak_ms"@, JsonText::Number(e.peak.text))),
        episode_report(cfg, e).data->Object_0.contains(
            ("severity"@, JsonText::Str(e.peak_severity.text())),
        ),
        episode_report(cfg, e).data->Object_0.contains(
            ("dominant_stage"@, json::text_or_null(e.dominant_stage)),
        ),
{
    let a = overhead_text(cfg, o).data->Object_0;
    assert(a[0].0 == "severity"@ && a[1].0 == "value_ms"@ && a[2].0 == "stage"@);
    let b = episode_report(cfg, e).data->Object_0;
    assert(b[1].0 == "count"@ && b[2].0 == "peak_ms"@ && b[3].0 == "severity"@ && b[4].0
        == "dominant_stage"@);
}

/// A line that is normal, or says nothing, adds no report and no breach; each other line
/// adds its own report, and behind it that of an episode that it finds ended.
pub proof fn law_each_slow_line_is_reported(
    cfg: LogTailConfig,
    s: coalesce::CoalescerState,
    seen: Seq<Seen>,
    n: int,
)
    requires
        0 < n <= seen.len(),
    ensures
        seen[n - 1].0 is None || (seen[n - 1].0->0).severity is Normal ==> reports_of(
            cfg,
            s,
            seen,
            n,
        ) == reports_of(cfg, s, seen, n - 1) && episodes_after(s, seen, n) == episodes_after(
            s,
            seen,
            n - 1,
        ),
        seen[n - 1].0 is Some && !((seen[n - 1].0->0).severity is Normal) ==> ({
            let front = reports_of(cfg, s, seen, n - 1);
            let all = reports_of(cfg, s, seen, n);
            &&& front.len() < all.len() <= front.len() + 2
            &&& all.take(front.len() as int) == front
            &&& all[front.len() as int] == overhead_text(cfg, (seen[n - 1].0->0)@)
            &&& (all.len() == front.len() + 2) == (episodes_after(s, seen, n - 1).ended(
                seen[n - 1].1,
            ) is Some)
        }),
        reports_of(cfg, s, seen, 0).len() == 0,
{
    let front = reports_of(cfg, s, seen, n - 1);
    let all = reports_of(cfg, s, seen, n);
    if seen[n - 1].0 is Some && !((seen[n - 1].0->0).severity is Normal) {
        assert(all.take(front.len() as int) =~= front);
    }
}

/// A drain remembers how far it has read if and only if it has read something.
pub proof fn law_progress_is_remembered(
    cfg: LogTailConfig,
    s: coalesce::CoalescerState,
    seen: Seq<Seen>,
    before: u64,
    after: u64,
    now: u128,
)
    ensures
        before != after ==> drained(cfg, s, seen, before, after, now).contains(
            EffectText::Checkpoint(after),
        ),
{
    let d = drained(cfg, s, seen, before, after, now);
    let n = reports_of(cfg, s, seen, seen.len() as int).len() as int;
    if before != after {
        assert(d[n] == EffectText::Checkpoint(after));
    }
}

} // verus!
