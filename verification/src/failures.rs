//! Detection of unexpected failures in the telemetry store: fires that were
//! missed, failures grouped by what they say, storms over many workers, and
//! fires that came twice. Detection only: nothing here remediates.
use crate::lists;
use crate::order;
use crate::text::{self, str_eq, str_le};
use vstd::prelude::*;

verus! {

// ── Time ─────────────────────────────────────────────────────────────────────
/// A point in time in UTC: seconds since 1970 and nanoseconds within the second.
#[derive(Debug, Clone, Copy, PartialEq, Eq, Structural)]
pub struct Moment {
    pub secs: i64,
    pub nanos: u32,
}

/// Nanoseconds in a second.
pub const NANOS: i128 = 1_000_000_000;

/// The first second that a calendar date can name.
pub const FIRST_SECOND: i64 = -8_334_601_228_800;

/// The last second that a calendar date can name.
pub const LAST_SECOND: i64 = 8_210_266_876_799;

impl Moment {
    pub open spec fn total(self) -> int {
        self.secs * NANOS + self.nanos
    }

    /// A moment of the calendar that is not its very last second.
    pub open spec fn in_calendar(self) -> bool {
        FIRST_SECOND <= self.secs < LAST_SECOND && self.nanos < NANOS
    }

    fn as_nanos(&self) -> (n: i128)
        ensures
            n == self.total(),
    {
        self.secs as i128 * NANOS + self.nanos as i128
    }
}

/// `n` nanoseconds in whole seconds, the fraction dropped.
pub open spec fn whole_seconds(n: int) -> int {
    if n >= 0 {
        n / (NANOS as int)
    } else {
        -((-n) / (NANOS as int))
    }
}

/// The moment that an RFC 3339 text names.
pub uninterp spec fn rfc3339_moment(s: Seq<char>) -> Option<(i64, u32)>;

/// The RFC 3339 text of a moment in UTC.
pub uninterp spec fn rfc3339_text(secs: i64, nanos: u32) -> Seq<char>;

/// The two latest times, in seconds, at which a cron expression fires before
/// the given second; the later one first.
pub uninterp spec fn cron_fires(expr: Seq<char>, secs: i64) -> Seq<i64>;

/// `DateTime::parse_from_rfc3339`, as seconds and nanoseconds in UTC. The
/// result depends on the text alone.
#[verifier::external_body]
pub(crate) fn parse_rfc3339(s: &str) -> (r: Option<(i64, u32)>)
    ensures
        r == rfc3339_moment(s@),
{
    match chrono::DateTime::parse_from_rfc3339(s) {
        Ok(d) => Some((d.timestamp(), d.timestamp_subsec_nanos())),
        Err(_) => None,
    }
}

/// `DateTime::<Utc>::from_timestamp`, written by `to_rfc3339`; the text depends
/// on the moment alone. A moment outside the calendar has an empty text.
#[verifier::external_body]
pub(crate) fn format_rfc3339(secs: i64, nanos: u32) -> (r: String)
    ensures
        r@ == rfc3339_text(secs, nanos),
{
    match chrono::DateTime::<chrono::Utc>::from_timestamp(secs, nanos) {
        Some(d) => d.to_rfc3339(),
        None => String::new(),
    }
}

/// `Schedule::from_str` on the expression, and two steps of the iterator of
/// `Schedule::after` from its back, in UTC; nothing where the expression does
/// not parse or the second is outside the calendar. Each step gives the latest
/// fire at least a second before its start.
#[verifier::external_body]
pub(crate) fn fires_before(expr: &str, secs: i64) -> (r: Vec<i64>)
    requires
        FIRST_SECOND < secs,
    ensures
        r@ == cron_fires(expr@, secs),
        r@.len() <= 2,
        forall|i: int| 0 <= i < r@.len() ==> FIRST_SECOND <= (#[trigger] r@[i]) <= LAST_SECOND,
        secs >= 0 && r@.len() >= 1 ==> r@[0] < secs,
        secs >= 0 && r@.len() == 2 ==> r@[1] < r@[0],
{
    let start = chrono::DateTime::<chrono::Utc>::from_timestamp(secs, 0);
    match (<cron::Schedule as std::str::FromStr>::from_str(expr), start) {
        (Ok(schedule), Some(at)) => {
            schedule.after(&at).rev().take(2).map(|t| t.timestamp()).collect()
        },
        _ => Vec::new(),
    }
}

/// The latest fire at or before `now`.
pub open spec fn last_fire(expr: Seq<char>, now: Moment) -> Option<i64> {
    let f = cron_fires(expr, (now.secs + 1) as i64);
    if f.len() > 0 {
        Some(f[0])
    } else {
        None
    }
}

/// Seconds between the two latest fires at or before `now`.
pub open spec fn cadence(expr: Seq<char>, now: Moment) -> Option<int> {
    let f = cron_fires(expr, (now.secs + 1) as i64);
    if f.len() > 1 {
        Some(f[0] - f[1])
    } else {
        None
    }
}

/// The most recent expected fire at or before `now`, in seconds.
pub fn prev_fire(expr: &str, now: Moment) -> (r: Option<i64>)
    requires
        now.in_calendar(),
    ensures
        r == last_fire(expr@, now),
        now.secs >= 0 && r is Some ==> r->0 <= now.secs,
{
    let f = fires_before(expr, now.secs + 1);
    if f.len() > 0 {
        Some(f[0])
    } else {
        None
    }
}

/// Seconds between the two most recent expected fires.
pub fn cadence_secs(expr: &str, now: Moment) -> (r: Option<i64>)
    requires
        now.in_calendar(),
    ensures
        match r {
            Some(n) => cadence(expr@, now) == Some(n as int),
            None => cadence(expr@, now) is None,
        },
        r is Some ==> -0x7fff_ffff_ffff <= r->0 <= 0x7fff_ffff_ffff,
        now.secs >= 0 && r is Some ==> r->0 > 0,
{
    let f = fires_before(expr, now.secs + 1);
    if f.len() > 1 {
        Some(f[0] - f[1])
    } else {
        None
    }
}

// ── Expectations ─────────────────────────────────────────────────────────────
/// A trigger of a registered worker.
#[derive(Debug, Clone)]
pub struct RegisteredTrigger {
    pub worker: String,
    pub fid: String,
    /// The cron expression, for a trigger that has one.
    pub cron: Option<String>,
}

/// What sets a handler off.
#[derive(Debug, Clone)]
pub enum TriggerSpec {
    Cron(String),
    State { scope: String, key: String },
    Queue(String),
}

/// A registered worker: its name, and for each handler its id and trigger.
#[derive(Debug, Clone)]
pub struct Worker {
    pub name: String,
    pub handlers: Vec<(String, TriggerSpec)>,
}

pub struct TriggerText {
    pub worker: Seq<char>,
    pub fid: Seq<char>,
    pub cron: Option<Seq<char>>,
}

impl View for RegisteredTrigger {
    type V = TriggerText;

    open spec fn view(&self) -> TriggerText {
        TriggerText {
            worker: self.worker@,
            fid: self.fid@,
            cron: crate::llm_config::opt_text(self.cron),
        }
    }
}

pub open spec fn trigger_texts(v: Seq<RegisteredTrigger>) -> Seq<TriggerText> {
    v.map_values(|t: RegisteredTrigger| t@)
}

pub open spec fn handler_trigger(worker: Seq<char>, h: (String, TriggerSpec)) -> TriggerText {
    TriggerText {
        worker,
        fid: h.0@,
        cron: match h.1 {
            TriggerSpec::Cron(e) => Some(e@),
            _ => None,
        },
    }
}

pub open spec fn worker_triggers(w: Worker) -> Seq<TriggerText> {
    w.handlers@.map_values(|h: (String, TriggerSpec)| handler_trigger(w.name@, h))
}

/// The triggers of the first `n` workers, one behind the other.
pub open spec fn all_triggers_of(w: Seq<Worker>, n: int) -> Seq<TriggerText>
    decreases n,
{
    if n <= 0 {
        Seq::empty()
    } else {
        all_triggers_of(w, n - 1) + worker_triggers(w[n - 1])
    }
}

/// The triggers of all registered workers.
pub fn registered_triggers(registry: &Vec<Worker>) -> (r: Vec<RegisteredTrigger>)
    ensures
        trigger_texts(r@) == all_triggers_of(registry@, registry@.len() as int),
{
    let mut out: Vec<RegisteredTrigger> = Vec::new();
    let mut i: usize = 0;
    proof {
        assert(trigger_texts(out@) =~= Seq::<TriggerText>::empty());
    }
    while i < registry.len()
        invariant
            i <= registry@.len(),
            trigger_texts(out@) == all_triggers_of(registry@, i as int),
        decreases registry.len() - i,
    {
        let w = &registry[i];
        let ghost front = trigger_texts(out@);
        let ghost all = worker_triggers(*w);
        let mut k: usize = 0;
        proof {
            assert(front + all.take(0) =~= front);
        }
        while k < w.handlers.len()
            invariant
                k <= w.handlers@.len(),
                all == worker_triggers(*w),
                trigger_texts(out@) == front + all.take(k as int),
            decreases w.handlers.len() - k,
        {
            let h = &w.handlers[k];
            let cron = match &h.1 {
                TriggerSpec::Cron(e) => Some(e.clone()),
                TriggerSpec::State { scope, key } => None,
                TriggerSpec::Queue(q) => None,
            };
            let t = RegisteredTrigger { worker: w.name.clone(), fid: h.0.clone(), cron };
            let ghost before = out@;
            out.push(t);
            proof {
                assert(all[k as int] == t@);
                assert(trigger_texts(out@) =~= trigger_texts(before).push(t@));
                assert(front + all.take(k + 1) =~= (front + all.take(k as int)).push(t@));
            }
            k += 1;
        }
        proof {
            assert(all.take(all.len() as int) =~= all);
        }
        i += 1;
    }
    out
}

/// A cron trigger whose fires are expected.
#[derive(Debug, Clone)]
pub struct CronExpectation {
    pub worker: String,
    pub fid: String,
    pub expr: String,
}

pub struct CronText {
    pub worker: Seq<char>,
    pub fid: Seq<char>,
    pub expr: Seq<char>,
}

impl View for CronExpectation {
    type V = CronText;

    open spec fn view(&self) -> CronText {
        CronText { worker: self.worker@, fid: self.fid@, expr: self.expr@ }
    }
}

pub open spec fn cron_texts(v: Seq<CronExpectation>) -> Seq<CronText> {
    v.map_values(|e: CronExpectation| e@)
}

pub open spec fn is_expected(t: RegisteredTrigger, disabled: Seq<Seq<char>>) -> bool {
    t.cron is Some && !disabled.contains(t.worker@)
}

/// The cron triggers of workers that are not disabled, in order.
pub open spec fn expectations(regs: Seq<RegisteredTrigger>, disabled: Seq<Seq<char>>) -> Seq<
    CronText,
> {
    regs.filter(|t: RegisteredTrigger| is_expected(t, disabled)).map_values(
        |t: RegisteredTrigger|
            CronText { worker: t.worker@, fid: t.fid@, expr: t.cron->0@ },
    )
}

/// The fires to expect: cron triggers only, workers that are disabled left out.
pub fn cron_expectations(regs: &Vec<RegisteredTrigger>, disabled: &Vec<String>) -> (r: Vec<
    CronExpectation,
>)
    ensures
        cron_texts(r@) == expectations(regs@, text::texts(disabled@)),
{
    let ghost off = text::texts(disabled@);
    let ghost keep = |t: RegisteredTrigger| is_expected(t, off);
    let ghost row = |t: RegisteredTrigger|
        CronText { worker: t.worker@, fid: t.fid@, expr: t.cron->0@ };
    let mut out: Vec<CronExpectation> = Vec::new();
    let mut i: usize = 0;
    proof {
        reveal(Seq::filter);
        assert(regs@.take(0) =~= Seq::<RegisteredTrigger>::empty());
        assert(cron_texts(out@) =~= regs@.take(0).filter(keep).map_values(row));
    }
    while i < regs.len()
        invariant
            i <= regs@.len(),
            off == text::texts(disabled@),
            keep == (|t: RegisteredTrigger| is_expected(t, off)),
            row == (|t: RegisteredTrigger|
                CronText { worker: t.worker@, fid: t.fid@, expr: t.cron->0@ }),
            cron_texts(out@) == regs@.take(i as int).filter(keep).map_values(row),
        decreases regs.len() - i,
    {
        let t = &regs[i];
        let ghost kept = regs@.take(i as int).filter(keep);
        proof {
            reveal(Seq::filter);
            assert(regs@.take(i + 1).drop_last() =~= regs@.take(i as int));
            assert(regs@.take(i + 1).last() == *t);
        }
        if let Some(expr) = &t.cron {
            if !crate::memory::index::contains_text(disabled, t.worker.as_str()) {
                let e = CronExpectation {
                    worker: t.worker.clone(),
                    fid: t.fid.clone(),
                    expr: expr.clone(),
                };
                let ghost before = out@;
                out.push(e);
                proof {
                    assert(cron_texts(out@) =~= cron_texts(before).push(e@));
                    assert(kept.push(*t).map_values(row) =~= kept.map_values(row).push(row(*t)));
                }
            }
        }
        i += 1;
    }
    proof {
        assert(regs@.take(regs@.len() as int) =~= regs@);
        assert(expectations(regs@, off) =~= regs@.filter(keep).map_values(row));
    }
    out
}

// ── Missed fires ─────────────────────────────────────────────────────────────
/// A telemetry row as the detector reads it.
#[derive(Debug, Clone)]
pub struct EventRecord {
    pub event: String,
    /// The time, if it can be read as a text. The store puts what cannot behind
    /// every text.
    pub ts: Option<String>,
    pub duration_ms: Option<i64>,
}

/// A trigger has a row whose time cannot be read, so its latest row is not
/// known.
#[derive(Debug, Clone)]
pub struct Unreadable {
    pub fid: String,
}

/// A fire that left no row.
#[derive(Debug, Clone)]
pub struct Missed {
    pub fid: String,
    pub expr: String,
    /// The expected fire, in seconds.
    pub expected_at: i64,
    /// The latest row of the trigger.
    pub last_seen: Option<String>,
}

/// A time in which nothing ran, with the triggers whose miss it excuses.
#[derive(Debug, Clone)]
pub struct Downtime {
    pub from: Moment,
    pub to: Moment,
    pub excused_fids: Vec<String>,
}

#[derive(Debug, Clone)]
pub struct Report {
    pub missed: Vec<Missed>,
    pub never_ran: Vec<CronExpectation>,
    pub downtime: Vec<Downtime>,
    /// Rows of the timeline whose time cannot be read or names no moment.
    pub malformed_rows: usize,
}

pub struct MissedText {
    pub fid: Seq<char>,
    pub expr: Seq<char>,
    pub expected_at: i64,
    pub last_seen: Option<Seq<char>>,
}

impl View for Missed {
    type V = MissedText;

    open spec fn view(&self) -> MissedText {
        MissedText {
            fid: self.fid@,
            expr: self.expr@,
            expected_at: self.expected_at,
            last_seen: crate::llm_config::opt_text(self.last_seen),
        }
    }
}

pub struct DownText {
    pub from: Moment,
    pub to: Moment,
    pub fids: Seq<Seq<char>>,
}

impl View for Downtime {
    type V = DownText;

    open spec fn view(&self) -> DownText {
        DownText { from: self.from, to: self.to, fids: text::texts(self.excused_fids@) }
    }
}

/// The later of two texts in their order.
pub open spec fn later(a: Option<Seq<char>>, b: Seq<char>) -> Seq<char> {
    match a {
        Some(x) => if text::text_le(x, b) {
            b
        } else {
            x
        },
        None => b,
    }
}

/// The latest readable time text among the first `n` rows of an event.
pub open spec fn max_ts(rows: Seq<EventRecord>, fid: Seq<char>, n: int) -> Option<Seq<char>>
    decreases n,
{
    if n <= 0 {
        None
    } else if rows[n - 1].event@ == fid && rows[n - 1].ts is Some {
        Some(later(max_ts(rows, fid, n - 1), rows[n - 1].ts->0@))
    } else {
        max_ts(rows, fid, n - 1)
    }
}

/// The longest duration among the first `n` rows of an event.
pub open spec fn max_duration(rows: Seq<EventRecord>, fid: Seq<char>, n: int) -> Option<i64>
    decreases n,
{
    if n <= 0 {
        None
    } else if rows[n - 1].event@ == fid && rows[n - 1].duration_ms is Some {
        let d = rows[n - 1].duration_ms->0;
        match max_duration(rows, fid, n - 1) {
            Some(x) => if x >= d {
                Some(x)
            } else {
                Some(d)
            },
            None => Some(d),
        }
    } else {
        max_duration(rows, fid, n - 1)
    }
}

/// Whether a row is at or behind a time text.
pub open spec fn is_since(r: EventRecord, since: Seq<char>) -> bool {
    match r.ts {
        Some(t) => text::text_le(since, t@),
        None => true,
    }
}

/// A row of an event at or behind a time text.
pub open spec fn seen_since(r: EventRecord, fid: Seq<char>, since: Seq<char>) -> bool {
    r.event@ == fid && is_since(r, since)
}

pub open spec fn ran_since(rows: Seq<EventRecord>, fid: Seq<char>, since: Seq<char>) -> bool {
    exists|i: int| 0 <= i < rows.len() && seen_since(#[trigger] rows[i], fid, since)
}

/// A row of an event whose time cannot be read.
pub open spec fn is_unread(r: EventRecord, fid: Seq<char>) -> bool {
    r.event@ == fid && r.ts is None
}

pub open spec fn has_unread(rows: Seq<EventRecord>, fid: Seq<char>) -> bool {
    exists|i: int| 0 <= i < rows.len() && is_unread(#[trigger] rows[i], fid)
}

/// The first expectation at or behind number `i` with such a row.
pub open spec fn first_unread(exp: Seq<CronExpectation>, rows: Seq<EventRecord>, i: int) -> Option<
    int,
>
    decreases exp.len() - i,
{
    if i < 0 || i >= exp.len() {
        None
    } else if has_unread(rows, exp[i].fid@) {
        Some(i)
    } else {
        first_unread(exp, rows, i + 1)
    }
}

/// The smallest cadence among the first `n` expectations.
pub open spec fn min_cadence(exp: Seq<CronExpectation>, now: Moment, n: int) -> Option<int>
    decreases n,
{
    if n <= 0 {
        None
    } else {
        match (min_cadence(exp, now, n - 1), cadence(exp[n - 1].expr@, now)) {
            (None, c) => c,
            (Some(a), None) => Some(a),
            (Some(a), Some(b)) => if a <= b {
                Some(a)
            } else {
                Some(b)
            },
        }
    }
}

/// The cadence by which a gap is judged: 15 minutes where none is known.
pub open spec fn shortest_cadence(exp: Seq<CronExpectation>, now: Moment) -> int {
    match min_cadence(exp, now, exp.len() as int) {
        Some(c) => c,
        None => 900,
    }
}

/// Seconds in the 36 hours that the timeline looks back.
pub const LOOKBACK_SECS: i64 = 129_600;

/// The rows from a time text on.
pub open spec fn recent_rows(rows: Seq<EventRecord>, since: Seq<char>) -> Seq<EventRecord> {
    rows.filter(|r: EventRecord| is_since(r, since))
}

/// The time texts that can be read.
pub open spec fn ts_texts(rows: Seq<EventRecord>) -> Seq<Seq<char>>
    decreases rows.len(),
{
    if rows.len() == 0 {
        Seq::empty()
    } else {
        match rows.last().ts {
            Some(t) => ts_texts(rows.drop_last()).push(t@),
            None => ts_texts(rows.drop_last()),
        }
    }
}

/// The rows of the timeline.
pub open spec fn timeline_rows(rows: Seq<EventRecord>, now: Moment) -> Seq<EventRecord> {
    recent_rows(rows, rfc3339_text((now.secs - LOOKBACK_SECS) as i64, now.nanos))
}

/// The time texts of the timeline, in order.
pub open spec fn timeline(rows: Seq<EventRecord>, now: Moment) -> Seq<Seq<char>> {
    order::sorted(ts_texts(timeline_rows(rows, now)), text::by_text())
}

/// The moments that time texts name, unreadable ones left out.
pub open spec fn moments(ts: Seq<Seq<char>>) -> Seq<Moment>
    decreases ts.len(),
{
    if ts.len() == 0 {
        Seq::empty()
    } else {
        match rfc3339_moment(ts.last()) {
            Some((secs, nanos)) => moments(ts.drop_last()).push(Moment { secs, nanos }),
            None => moments(ts.drop_last()),
        }
    }
}

/// The gaps of a timeline that are more than twice as long as `shortest`.
pub open spec fn gaps(times: Seq<Moment>, shortest: int) -> Seq<(Moment, Moment)>
    decreases times.len(),
{
    if times.len() < 2 {
        Seq::empty()
    } else {
        let a = times[times.len() - 2];
        let b = times[times.len() - 1];
        let front = gaps(times.drop_last(), shortest);
        if whole_seconds(b.total() - a.total()) > 2 * shortest {
            front.push((a, b))
        } else {
            front
        }
    }
}

/// The first gap at or behind number `i` that holds a second.
pub open spec fn gap_around(g: Seq<(Moment, Moment)>, at: i64, i: int) -> Option<int>
    decreases g.len() - i,
{
    if i < 0 || i >= g.len() {
        None
    } else if g[i].0.total() <= at * NANOS <= g[i].1.total() {
        Some(i)
    } else {
        gap_around(g, at, i + 1)
    }
}

/// Integer division that drops the fraction.
pub open spec fn quotient(a: int, b: int) -> int {
    if a >= 0 {
        a / b
    } else {
        -((-a) / b)
    }
}

/// Seconds that a fire may take before its row is owed.
pub open spec fn slack(cadence: int, max_dur: Option<i64>) -> int {
    let by_cadence = quotient(cadence, 4);
    let by_duration = quotient(
        match max_dur {
            Some(d) => d as int,
            None => 0,
        },
        1000,
    ) + 60;
    if by_cadence >= by_duration {
        by_cadence
    } else {
        by_duration
    }
}

/// What the store says of one expectation.
pub enum Verdict {
    /// No row ever.
    NeverRan,
    /// Nothing is owed: no schedule, still in flight, a row is there, or excused.
    Fine,
    /// The fire fell into this gap.
    Down(int),
    Missed,
}

pub open spec fn verdict(
    e: CronExpectation,
    rows: Seq<EventRecord>,
    g: Seq<(Moment, Moment)>,
    now: Moment,
    excused: Seq<Seq<char>>,
) -> Verdict {
    let n = rows.len() as int;
    let expected = last_fire(e.expr@, now);
    let every = match cadence(e.expr@, now) {
        Some(c) => c,
        None => 86_400,
    };
    if max_ts(rows, e.fid@, n) is None {
        Verdict::NeverRan
    } else if expected is None {
        Verdict::Fine
    } else if now.total() < (expected->0 + slack(every, max_duration(rows, e.fid@, n))) * NANOS {
        Verdict::Fine
    } else if ran_since(rows, e.fid@, rfc3339_text(expected->0, 0)) || excused.contains(e.fid@) {
        Verdict::Fine
    } else {
        match gap_around(g, expected->0, 0) {
            Some(k) => Verdict::Down(k),
            None => Verdict::Missed,
        }
    }
}

/// The first downtime that starts at `from`, at or behind number `i`.
pub open spec fn down_index(d: Seq<DownText>, from: Moment, i: int) -> Option<int>
    decreases d.len() - i,
{
    if i < 0 || i >= d.len() {
        None
    } else if d[i].from == from {
        Some(i)
    } else {
        down_index(d, from, i + 1)
    }
}

/// The downtimes with one excused trigger more.
pub open spec fn with_excused(d: Seq<DownText>, from: Moment, to: Moment, fid: Seq<char>) -> Seq<
    DownText,
> {
    match down_index(d, from, 0) {
        Some(i) => d.update(i, DownText { fids: d[i].fids.push(fid), ..d[i] }),
        None => d.push(DownText { from, to, fids: seq![fid] }),
    }
}

/// A report in texts.
#[verifier::ext_equal]
pub struct ReportText {
    pub missed: Seq<MissedText>,
    pub never_ran: Seq<CronText>,
    pub downtime: Seq<DownText>,
}

/// The report on the first `n` expectations.
pub open spec fn report_on(
    exp: Seq<CronExpectation>,
    rows: Seq<EventRecord>,
    g: Seq<(Moment, Moment)>,
    now: Moment,
    excused: Seq<Seq<char>>,
    n: int,
) -> ReportText
    decreases n,
{
    if n <= 0 {
        ReportText { missed: Seq::empty(), never_ran: Seq::empty(), downtime: Seq::empty() }
    } else {
        let r = report_on(exp, rows, g, now, excused, n - 1);
        let e = exp[n - 1];
        match verdict(e, rows, g, now, excused) {
            Verdict::NeverRan => ReportText { never_ran: r.never_ran.push(e@), ..r },
            Verdict::Fine => r,
            Verdict::Down(k) => ReportText {
                downtime: with_excused(r.downtime, g[k].0, g[k].1, e.fid@),
                ..r
            },
            Verdict::Missed => ReportText {
                missed: r.missed.push(
                    MissedText {
                        fid: e.fid@,
                        expr: e.expr@,
                        expected_at: last_fire(e.expr@, now)->0,
                        last_seen: max_ts(rows, e.fid@, rows.len() as int),
                    },
                ),
                ..r
            },
        }
    }
}

pub open spec fn missed_texts(v: Seq<Missed>) -> Seq<MissedText> {
    v.map_values(|m: Missed| m@)
}

pub open spec fn down_texts(v: Seq<Downtime>) -> Seq<DownText> {
    v.map_values(|d: Downtime| d@)
}

/// The latest readable time text and the longest duration among the rows of an
/// event.
fn last_and_longest(rows: &Vec<EventRecord>, fid: &str) -> (r: (Option<String>, Option<i64>))
    ensures
        crate::llm_config::opt_text(r.0) == max_ts(rows@, fid@, rows@.len() as int),
        r.1 == max_duration(rows@, fid@, rows@.len() as int),
{
    let mut last: Option<String> = None;
    let mut longest: Option<i64> = None;
    let mut i: usize = 0;
    while i < rows.len()
        invariant
            i <= rows@.len(),
            crate::llm_config::opt_text(last) == max_ts(rows@, fid@, i as int),
            longest == max_duration(rows@, fid@, i as int),
        decreases rows.len() - i,
    {
        let r = &rows[i];
        if str_eq(r.event.as_str(), fid) {
            if let Some(t) = &r.ts {
                let newer = match &last {
                    Some(x) => str_le(x.as_str(), t.as_str()),
                    None => true,
                };
                if newer {
                    last = Some(t.clone());
                }
            }
            if let Some(d) = r.duration_ms {
                let longer = match longest {
                    Some(x) => x < d,
                    None => true,
                };
                if longer {
                    longest = Some(d);
                }
            }
        }
        i += 1;
    }
    (last, longest)
}

fn row_since(r: &EventRecord, since: &str) -> (b: bool)
    ensures
        b == is_since(*r, since@),
{
    match &r.ts {
        Some(t) => str_le(since, t.as_str()),
        None => true,
    }
}

fn any_unread(rows: &Vec<EventRecord>, fid: &str) -> (b: bool)
    ensures
        b == has_unread(rows@, fid@),
{
    let mut i: usize = 0;
    while i < rows.len()
        invariant
            i <= rows@.len(),
            forall|k: int| 0 <= k < i ==> !is_unread(#[trigger] rows@[k], fid@),
        decreases rows.len() - i,
    {
        let r = &rows[i];
        if str_eq(r.event.as_str(), fid) && r.ts.is_none() {
            proof {
                assert(is_unread(rows@[i as int], fid@));
            }
            return true;
        }
        i += 1;
    }
    false
}

fn any_since(rows: &Vec<EventRecord>, fid: &str, since: &str) -> (b: bool)
    ensures
        b == ran_since(rows@, fid@, since@),
{
    let mut i: usize = 0;
    while i < rows.len()
        invariant
            i <= rows@.len(),
            forall|k: int| 0 <= k < i ==> !seen_since(#[trigger] rows@[k], fid@, since@),
        decreases rows.len() - i,
    {
        let r = &rows[i];
        if str_eq(r.event.as_str(), fid) && row_since(r, since) {
            proof {
                assert(seen_since(rows@[i as int], fid@, since@));
            }
            return true;
        }
        i += 1;
    }
    false
}

fn shortest_of(exp: &Vec<CronExpectation>, now: Moment) -> (r: i64)
    requires
        now.in_calendar(),
    ensures
        r == shortest_cadence(exp@, now),
        -0x7fff_ffff_ffff <= r <= 0x7fff_ffff_ffff,
{
    let mut least: Option<i64> = None;
    let mut i: usize = 0;
    while i < exp.len()
        invariant
            i <= exp@.len(),
            now.in_calendar(),
            match least {
                Some(c) => min_cadence(exp@, now, i as int) == Some(c as int) && -0x7fff_ffff_ffff
                    <= c <= 0x7fff_ffff_ffff,
                None => min_cadence(exp@, now, i as int) is None,
            },
        decreases exp.len() - i,
    {
        if let Some(c) = cadence_secs(exp[i].expr.as_str(), now) {
            least = match least {
                Some(a) => if a <= c {
                    Some(a)
                } else {
                    Some(c)
                },
                None => Some(c),
            };
        }
        i += 1;
    }
    match least {
        Some(c) => c,
        None => 900,
    }
}

/// The time texts of the timeline, in order, and how many of its rows have none.
fn timeline_of(rows: &Vec<EventRecord>, now: Moment) -> (r: (Vec<String>, usize))
    requires
        now.in_calendar(),
    ensures
        text::texts(r.0@) == timeline(rows@, now),
        r.1 == timeline_rows(rows@, now).len() - r.0@.len(),
        timeline_rows(rows@, now).len() <= rows@.len(),
{
    let since = format_rfc3339(now.secs - LOOKBACK_SECS, now.nanos);
    let ghost keep = |r: EventRecord| is_since(r, since@);
    let mut out: Vec<String> = Vec::new();
    let mut unread: usize = 0;
    let mut i: usize = 0;
    proof {
        reveal(Seq::filter);
        assert(rows@.take(0) =~= Seq::<EventRecord>::empty());
        assert(text::texts(out@) =~= ts_texts(rows@.take(0).filter(keep)));
    }
    while i < rows.len()
        invariant
            i <= rows@.len(),
            keep == (|r: EventRecord| is_since(r, since@)),
            text::texts(out@) == ts_texts(rows@.take(i as int).filter(keep)),
            unread == rows@.take(i as int).filter(keep).len() - out@.len(),
            unread + out@.len() <= i,
        decreases rows.len() - i,
    {
        let ghost before = rows@.take(i as int).filter(keep);
        proof {
            reveal(Seq::filter);
            assert(rows@.take(i + 1).drop_last() =~= rows@.take(i as int));
            assert(rows@.take(i + 1).last() == rows@[i as int]);
            assert(before.push(rows@[i as int]).drop_last() =~= before);
        }
        if row_since(&rows[i], since.as_str()) {
            match &rows[i].ts {
                Some(t) => {
                    let t = t.clone();
                    proof {
                        text::lemma_texts_push(out@, t);
                    }
                    out.push(t);
                },
                None => {
                    unread += 1;
                },
            }
        }
        i += 1;
    }
    proof {
        assert(rows@.take(rows@.len() as int) =~= rows@);
        assert(text::texts(out@).len() == out@.len());
    }
    let ghost unsorted = text::texts(out@);
    let sorted = text::sort_strings(out);
    proof {
        text::lemma_by_text_total();
        order::lemma_sorted(unsorted, text::by_text());
        assert(text::texts(sorted@).len() == sorted@.len());
    }
    (sorted, unread)
}

/// The moments of a timeline, and how many of its texts cannot be read.
fn read_moments(ts: &Vec<String>) -> (r: (Vec<Moment>, usize))
    ensures
        r.0@ == moments(text::texts(ts@)),
        r.1 == ts@.len() - moments(text::texts(ts@)).len(),
{
    let ghost all = text::texts(ts@);
    let mut out: Vec<Moment> = Vec::new();
    let mut bad: usize = 0;
    let mut i: usize = 0;
    proof {
        assert(all.take(0) =~= Seq::<Seq<char>>::empty());
        assert(out@ =~= moments(all.take(0)));
    }
    while i < ts.len()
        invariant
            i <= ts@.len(),
            all == text::texts(ts@),
            out@ == moments(all.take(i as int)),
            bad == i - out@.len(),
        decreases ts.len() - i,
    {
        proof {
            assert(all.take(i + 1).drop_last() =~= all.take(i as int));
            assert(all.take(i + 1).last() == ts@[i as int]@);
        }
        match parse_rfc3339(ts[i].as_str()) {
            Some((secs, nanos)) => {
                out.push(Moment { secs, nanos });
            },
            None => {
                bad += 1;
            },
        }
        i += 1;
    }
    proof {
        assert(all.take(all.len() as int) =~= all);
    }
    (out, bad)
}

fn seconds_of(n: i128) -> (r: i128)
    requires
        i128::MIN < n,
    ensures
        r == whole_seconds(n as int),
{
    if n >= 0 {
        n / NANOS
    } else {
        -((-n) / NANOS)
    }
}

fn find_gaps(times: &Vec<Moment>, shortest: i64) -> (r: Vec<(Moment, Moment)>)
    requires
        -0x7fff_ffff_ffff <= shortest <= 0x7fff_ffff_ffff,
    ensures
        r@ == gaps(times@, shortest as int),
{
    let mut out: Vec<(Moment, Moment)> = Vec::new();
    let mut i: usize = 1;
    proof {
        assert(gaps(times@.take(0), shortest as int) =~= out@);
        assert(times@.len() > 0 ==> gaps(times@.take(1), shortest as int) =~= out@);
    }
    if times.len() == 0 {
        proof {
            assert(times@.take(0) =~= times@);
        }
        return out;
    }
    while i < times.len()
        invariant
            1 <= i <= times@.len(),
            -0x7fff_ffff_ffff <= shortest <= 0x7fff_ffff_ffff,
            out@ == gaps(times@.take(i as int), shortest as int),
        decreases times.len() - i,
    {
        let a = times[i - 1];
        let b = times[i];
        proof {
            let t = times@.take(i + 1);
            assert(t.drop_last() =~= times@.take(i as int));
            assert(t[t.len() - 2] == a);
            assert(t[t.len() - 1] == b);
        }
        if seconds_of(b.as_nanos() - a.as_nanos()) > 2 * shortest as i128 {
            out.push((a, b));
        }
        i += 1;
    }
    proof {
        assert(times@.take(times@.len() as int) =~= times@);
    }
    out
}

fn find_gap(g: &Vec<(Moment, Moment)>, at: i64) -> (r: Option<usize>)
    ensures
        match r {
            Some(i) => gap_around(g@, at, 0) == Some(i as int) && i < g@.len(),
            None => gap_around(g@, at, 0) is None,
        },
{
    let mut i: usize = 0;
    let t: i128 = at as i128 * NANOS;
    while i < g.len()
        invariant
            i <= g@.len(),
            t == at * NANOS,
            gap_around(g@, at, 0) == gap_around(g@, at, i as int),
        decreases g.len() - i,
    {
        if g[i].0.as_nanos() <= t && t <= g[i].1.as_nanos() {
            return Some(i);
        }
        i += 1;
    }
    None
}

fn slack_secs(cadence: i64, max_dur: Option<i64>) -> (r: i128)
    ensures
        r == slack(cadence as int, max_dur),
        -0xffff_ffff_ffff_ffff <= r <= 0xffff_ffff_ffff_ffff,
{
    let c: i128 = cadence as i128;
    let d: i128 = match max_dur {
        Some(d) => d as i128,
        None => 0,
    };
    let by_cadence: i128 = if c >= 0 {
        c / 4
    } else {
        -((-c) / 4)
    };
    let by_duration: i128 = (if d >= 0 {
        d / 1000
    } else {
        -((-d) / 1000)
    }) + 60;
    if by_cadence >= by_duration {
        by_cadence
    } else {
        by_duration
    }
}

/// What the store says of one expectation.
enum Judged {
    NeverRan,
    Fine,
    Down(usize),
    Missed(i64, Option<String>),
}

fn judge(
    e: &CronExpectation,
    rows: &Vec<EventRecord>,
    g: &Vec<(Moment, Moment)>,
    now: Moment,
    excused: &Vec<String>,
) -> (r: Judged)
    requires
        now.in_calendar(),
    ensures
        match r {
            Judged::NeverRan => verdict(*e, rows@, g@, now, text::texts(excused@)) is NeverRan,
            Judged::Fine => verdict(*e, rows@, g@, now, text::texts(excused@)) is Fine,
            Judged::Down(k) => k < g@.len() && verdict(
                *e,
                rows@,
                g@,
                now,
                text::texts(excused@),
            ) == Verdict::Down(k as int),
            Judged::Missed(at, last) => verdict(
                *e,
                rows@,
                g@,
                now,
                text::texts(excused@),
            ) is Missed && last_fire(e.expr@, now) == Some(at) && crate::llm_config::opt_text(last)
                == max_ts(rows@, e.fid@, rows@.len() as int),
        },
{
    let (last, longest) = last_and_longest(rows, e.fid.as_str());
    if last.is_none() {
        return Judged::NeverRan;
    }
    let expected: i64 = match prev_fire(e.expr.as_str(), now) {
        Some(x) => x,
        None => {
            return Judged::Fine;
        },
    };
    let every: i64 = match cadence_secs(e.expr.as_str(), now) {
        Some(c) => c,
        None => 86_400,
    };
    let owed: i128 = (expected as i128 + slack_secs(every, longest)) * NANOS;
    if now.as_nanos() < owed {
        return Judged::Fine;
    }
    let since = format_rfc3339(expected, 0);
    if any_since(rows, e.fid.as_str(), since.as_str()) || crate::memory::index::contains_text(
        excused,
        e.fid.as_str(),
    ) {
        return Judged::Fine;
    }
    match find_gap(g, expected) {
        Some(k) => Judged::Down(k),
        None => Judged::Missed(expected, last),
    }
}

fn excuse(d: &mut Vec<Downtime>, from: Moment, to: Moment, fid: &str)
    ensures
        down_texts(final(d)@) == with_excused(down_texts(old(d)@), from, to, fid@),
{
    let ghost all = down_texts(d@);
    let mut i: usize = 0;
    while i < d.len()
        invariant
            i <= d@.len(),
            d@ == old(d)@,
            all == down_texts(d@),
            down_index(all, from, 0) == down_index(all, from, i as int),
        decreases d.len() - i,
    {
        proof {
            assert(all[i as int] == d@[i as int]@);
        }
        if d[i].from == from {
            let mut item = d.remove(i);
            let f = fid.to_owned();
            proof {
                text::lemma_texts_push(item.excused_fids@, f);
            }
            item.excused_fids.push(f);
            let ghost after = item@;
            d.insert(i, item);
            proof {
                assert(down_texts(d@) =~= all.update(i as int, after));
            }
            return;
        }
        i += 1;
    }
    let mut fids: Vec<String> = Vec::new();
    fids.push(fid.to_owned());
    let item = Downtime { from, to, excused_fids: fids };
    proof {
        assert(text::texts(fids@) =~= seq![fid@]);
    }
    let ghost view = item@;
    d.push(item);
    proof {
        assert(down_texts(d@) =~= all.push(view));
    }
}

/// Holds the expectations against the rows of the telemetry store at `now`.
/// Without a store there is nothing to report. Where the time of a row of an
/// expected trigger cannot be read, there is no report; such a row of another
/// event is only counted. A trigger without any row has
/// never run; one whose latest fire is overdue and left no row has missed it,
/// unless it is excused or the fire fell into a time when nothing ran.
pub fn evaluate(
    exp: &Vec<CronExpectation>,
    store: Option<&Vec<EventRecord>>,
    now: Moment,
    extra_excused: &Vec<String>,
) -> (r: Result<Report, Unreadable>)
    requires
        now.in_calendar(),
        FIRST_SECOND + LOOKBACK_SECS <= now.secs,
    ensures
        match (store, r) {
            (None, Ok(r)) => r.missed@.len() == 0 && r.never_ran@.len() == 0 && r.downtime@.len()
                == 0 && r.malformed_rows == 0,
            (None, Err(_)) => false,
            (Some(rows), Err(u)) => first_unread(exp@, rows@, 0) matches Some(k) && u.fid@
                == exp@[k].fid@,
            (Some(rows), Ok(r)) => {
                let times = moments(timeline(rows@, now));
                let g = gaps(times, shortest_cadence(exp@, now));
                &&& first_unread(exp@, rows@, 0) is None
                &&& r.malformed_rows == timeline_rows(rows@, now).len() - times.len()
                &&& (ReportText {
                    missed: missed_texts(r.missed@),
                    never_ran: cron_texts(r.never_ran@),
                    downtime: down_texts(r.downtime@),
                }) == report_on(
                    exp@,
                    rows@,
                    g,
                    now,
                    text::texts(extra_excused@),
                    exp@.len() as int,
                )
            },
        },
{
    let mut missed: Vec<Missed> = Vec::new();
    let mut never_ran: Vec<CronExpectation> = Vec::new();
    let mut downtime: Vec<Downtime> = Vec::new();
    let rows = match store {
        Some(rows) => rows,
        None => {
            return Ok(Report { missed, never_ran, downtime, malformed_rows: 0 });
        },
    };
    let shortest: i64 = shortest_of(exp, now);
    let (ts, unread) = timeline_of(rows, now);
    proof {
        assert(text::texts(ts@).len() == ts@.len());
    }
    let (times, unparsed) = read_moments(&ts);
    proof {
        assert(rows@.len() == rows.len());
    }
    let malformed_rows: usize = unread + unparsed;
    let g = find_gaps(&times, shortest);
    let ghost excused = text::texts(extra_excused@);
    let mut i: usize = 0;
    proof {
        assert(missed_texts(missed@) =~= Seq::<MissedText>::empty());
        assert(cron_texts(never_ran@) =~= Seq::<CronText>::empty());
        assert(down_texts(downtime@) =~= Seq::<DownText>::empty());
    }
    while i < exp.len()
        invariant
            i <= exp@.len(),
            now.in_calendar(),
            excused == text::texts(extra_excused@),
            store == Some(rows),
            first_unread(exp@, rows@, 0) == first_unread(exp@, rows@, i as int),
            missed_texts(missed@) == report_on(exp@, rows@, g@, now, excused, i as int).missed,
            cron_texts(never_ran@) == report_on(exp@, rows@, g@, now, excused, i as int).never_ran,
            down_texts(downtime@) == report_on(exp@, rows@, g@, now, excused, i as int).downtime,
        decreases exp.len() - i,
    {
        let e = &exp[i];
        if any_unread(rows, e.fid.as_str()) {
            return Err(Unreadable { fid: e.fid.clone() });
        }
        match judge(e, rows, &g, now, extra_excused) {
            Judged::NeverRan => {
                let copy = CronExpectation {
                    worker: e.worker.clone(),
                    fid: e.fid.clone(),
                    expr: e.expr.clone(),
                };
                let ghost before = never_ran@;
                never_ran.push(copy);
                proof {
                    assert(cron_texts(never_ran@) =~= cron_texts(before).push(e@));
                }
            },
            Judged::Fine => {},
            Judged::Down(k) => {
                let (from, to) = g[k];
                excuse(&mut downtime, from, to, e.fid.as_str());
            },
            Judged::Missed(at, last) => {
                let m = Missed {
                    fid: e.fid.clone(),
                    expr: e.expr.clone(),
                    expected_at: at,
                    last_seen: last,
                };
                let ghost before = missed@;
                let ghost view = m@;
                missed.push(m);
                proof {
                    assert(missed_texts(missed@) =~= missed_texts(before).push(view));
                }
            },
        }
        i += 1;
    }
    Ok(Report { missed, never_ran, downtime, malformed_rows })
}

// ── Signatures ───────────────────────────────────────────────────────────────
/// Most characters in a signature.
pub const HEAD_CHARS: usize = 80;

/// `s` with each run of decimal digits collapsed to `#`.
pub open spec fn collapsed(s: Seq<char>) -> Seq<char>
    decreases s.len(),
{
    if s.len() == 0 {
        Seq::empty()
    } else if !text::is_digit(s.last()) {
        collapsed(s.drop_last()).push(s.last())
    } else if s.len() > 1 && text::is_digit(s[s.len() - 2]) {
        collapsed(s.drop_last())
    } else {
        collapsed(s.drop_last()).push('#')
    }
}

pub open spec fn first_line(s: Seq<char>) -> Seq<char> {
    let l = text::lines(s);
    if l.len() > 0 {
        l[0]
    } else {
        Seq::empty()
    }
}

/// The signature of a detail: its first line, digit runs collapsed, cut to
/// [`HEAD_CHARS`].
pub open spec fn head_of(detail: Seq<char>) -> Seq<char> {
    text::first_chars(collapsed(first_line(detail)), HEAD_CHARS as nat)
}

/// A stable signature of a detail: its first line, digit runs collapsed to
/// `#`, at most 80 characters.
pub fn signature_head(detail: &str) -> (r: String)
    ensures
        r@ == head_of(detail@),
{
    let lines = text::split_lines(detail);
    let first = if lines.len() > 0 {
        proof {
            assert(text::texts(lines@)[0] == lines@[0]@);
        }
        lines[0].clone()
    } else {
        String::new()
    };
    proof {
        assert(text::texts(lines@).len() == lines@.len());
        assert(first@ =~= first_line(detail@));
    }
    let v = text::to_chars(first.as_str());
    let mut out: String = String::new();
    let mut i: usize = 0;
    proof {
        assert(v@.take(0) =~= Seq::<char>::empty());
    }
    while i < v.len()
        invariant
            i <= v@.len(),
            out@ == collapsed(v@.take(i as int)),
        decreases v.len() - i,
    {
        proof {
            let t = v@.take(i + 1);
            assert(t.drop_last() =~= v@.take(i as int));
            assert(t.last() == v@[i as int]);
            assert(i > 0 ==> t[t.len() - 2] == v@[i - 1]);
        }
        if !text::char_is_digit(v[i]) {
            out.push(v[i]);
        } else if i == 0 || !text::char_is_digit(v[i - 1]) {
            out.push('#');
        }
        i += 1;
    }
    proof {
        assert(v@.take(v@.len() as int) =~= v@);
    }
    text::take_chars(out.as_str(), HEAD_CHARS)
}

/// A telemetry row with what it says.
#[derive(Debug, Clone)]
pub struct FailureRow {
    pub event: String,
    pub status: String,
    pub detail: Option<String>,
    pub ts: String,
}

#[derive(Debug, Clone)]
pub struct FailureSignature {
    pub fid: String,
    pub head: String,
    pub status: String,
    pub count: i64,
    pub first_seen: String,
    pub last_seen: String,
    /// First seen within the window.
    pub is_new: bool,
}

pub struct SigText {
    pub fid: Seq<char>,
    pub head: Seq<char>,
    pub status: Seq<char>,
    pub count: int,
    pub first_seen: Seq<char>,
    pub last_seen: Seq<char>,
    pub is_new: bool,
}

impl View for FailureSignature {
    type V = SigText;

    open spec fn view(&self) -> SigText {
        SigText {
            fid: self.fid@,
            head: self.head@,
            status: self.status@,
            count: self.count as int,
            first_seen: self.first_seen@,
            last_seen: self.last_seen@,
            is_new: self.is_new,
        }
    }
}

pub open spec fn sig_texts(v: Seq<FailureSignature>) -> Seq<SigText> {
    v.map_values(|s: FailureSignature| s@)
}

/// A row that tells of a failure.
pub open spec fn failing(r: FailureRow) -> bool {
    r.status@ == "error"@ || r.status@ == "panic"@ || r.status@ == "failed"@
}

pub open spec fn row_head(r: FailureRow) -> Seq<char> {
    head_of(
        match r.detail {
            Some(d) => d@,
            None => Seq::empty(),
        },
    )
}

pub open spec fn row_le() -> spec_fn(FailureRow, FailureRow) -> bool {
    |a: FailureRow, b: FailureRow| text::text_le(a.ts@, b.ts@)
}

/// The failures of the store, in the order of their time texts.
pub open spec fn failures_in_order(rows: Seq<FailureRow>) -> Seq<FailureRow> {
    order::sorted(rows.filter(|r: FailureRow| failing(r)), row_le())
}

/// The first group of a trigger and head at or behind number `i`.
pub open spec fn sig_index(g: Seq<SigText>, fid: Seq<char>, head: Seq<char>, i: int) -> Option<int>
    decreases g.len() - i,
{
    if i < 0 || i >= g.len() {
        None
    } else if g[i].fid == fid && g[i].head == head {
        Some(i)
    } else {
        sig_index(g, fid, head, i + 1)
    }
}

/// The failures grouped by trigger and head: how many, the first and the last.
pub open spec fn sig_groups(rows: Seq<FailureRow>) -> Seq<SigText>
    decreases rows.len(),
{
    if rows.len() == 0 {
        Seq::empty()
    } else {
        let g = sig_groups(rows.drop_last());
        let r = rows.last();
        match sig_index(g, r.event@, row_head(r), 0) {
            Some(i) => g.update(
                i,
                SigText { count: g[i].count + 1, last_seen: r.ts@, ..g[i] },
            ),
            None => g.push(
                SigText {
                    fid: r.event@,
                    head: row_head(r),
                    status: r.status@,
                    count: 1,
                    first_seen: r.ts@,
                    last_seen: r.ts@,
                    is_new: false,
                },
            ),
        }
    }
}

/// Order by trigger, then by head.
pub open spec fn sig_key_le() -> spec_fn(SigText, SigText) -> bool {
    |a: SigText, b: SigText|
        if a.fid == b.fid {
            text::text_le(a.head, b.head)
        } else {
            text::text_le(a.fid, b.fid)
        }
}

/// New signatures first, then by falling count.
pub open spec fn sig_rank_le() -> spec_fn(SigText, SigText) -> bool {
    |a: SigText, b: SigText|
        if a.is_new == b.is_new {
            a.count >= b.count
        } else {
            a.is_new
        }
}

pub open spec fn marked(start: Seq<char>) -> spec_fn(SigText) -> SigText {
    |s: SigText| SigText { is_new: text::text_le(start, s.first_seen), ..s }
}

pub open spec fn active_since(start: Seq<char>) -> spec_fn(SigText) -> bool {
    |s: SigText| text::text_le(start, s.last_seen)
}

/// The start of a window of so many hours before `now`.
pub open spec fn window_start(now: Moment, hours: int) -> Seq<char> {
    rfc3339_text((now.secs - hours * 3600) as i64, now.nanos)
}

/// The signatures that were active in the window, new ones first.
pub open spec fn signatures(rows: Seq<FailureRow>, start: Seq<char>) -> Seq<SigText> {
    order::sorted(
        order::sorted(sig_groups(failures_in_order(rows)), sig_key_le()).filter(
            active_since(start),
        ).map_values(marked(start)),
        sig_rank_le(),
    )
}

/// The window lies in the calendar.
pub open spec fn sane_window(now: Moment, hours: i64) -> bool {
    &&& now.in_calendar()
    &&& -10_000_000_000 <= hours <= 10_000_000_000
    &&& FIRST_SECOND <= now.secs - hours * 3600 <= LAST_SECOND
}

fn window_text(now: Moment, hours: i64) -> (r: String)
    requires
        sane_window(now, hours),
    ensures
        r@ == window_start(now, hours as int),
{
    format_rfc3339(now.secs - hours * 3600, now.nanos)
}

fn row_fails(r: &FailureRow) -> (b: bool)
    ensures
        b == failing(*r),
{
    let s = r.status.as_str();
    str_eq(s, "error") || str_eq(s, "panic") || str_eq(s, "failed")
}

fn row_before(a: &FailureRow, b: &FailureRow) -> (r: bool)
    ensures
        r == text::text_le(a.ts@, b.ts@),
{
    str_le(a.ts.as_str(), b.ts.as_str())
}

fn ordered_failures(rows: Vec<FailureRow>) -> (r: Vec<FailureRow>)
    ensures
        r@ == failures_in_order(rows@),
{
    let ghost all = rows@;
    let ghost keep = |r: FailureRow| failing(r);
    let mut kept: Vec<FailureRow> = Vec::new();
    proof {
        reveal(Seq::filter);
        assert(all.take(0) =~= Seq::<FailureRow>::empty());
        assert(kept@ =~= all.take(0).filter(keep));
    }
    for r in it: rows
        invariant
            it.seq() == all,
            keep == (|r: FailureRow| failing(r)),
            kept@ == all.take(it.index() as int).filter(keep),
    {
        proof {
            reveal(Seq::filter);
            assert(all.take(it.index() + 1).drop_last() =~= all.take(it.index() as int));
            assert(all.take(it.index() + 1).last() == r);
        }
        if row_fails(&r) {
            kept.push(r);
        }
    }
    proof {
        assert(all.take(all.len() as int) =~= all);
    }
    order::sort_stable(kept, row_before, Ghost(row_le()))
}

fn head_of_row(r: &FailureRow) -> (h: String)
    ensures
        h@ == row_head(*r),
{
    match &r.detail {
        Some(d) => signature_head(d.as_str()),
        None => {
            let empty = "";
            proof {
                reveal_strlit("");
                assert(""@ =~= Seq::<char>::empty());
            }
            signature_head(empty)
        },
    }
}

fn find_sig(g: &Vec<FailureSignature>, fid: &str, head: &str) -> (r: Option<usize>)
    ensures
        match r {
            Some(i) => sig_index(sig_texts(g@), fid@, head@, 0) == Some(i as int) && i < g@.len(),
            None => sig_index(sig_texts(g@), fid@, head@, 0) is None,
        },
{
    let ghost all = sig_texts(g@);
    let mut i: usize = 0;
    while i < g.len()
        invariant
            i <= g@.len(),
            all == sig_texts(g@),
            sig_index(all, fid@, head@, 0) == sig_index(all, fid@, head@, i as int),
        decreases g.len() - i,
    {
        proof {
            assert(all[i as int] == g@[i as int]@);
        }
        if str_eq(g[i].fid.as_str(), fid) && str_eq(g[i].head.as_str(), head) {
            return Some(i);
        }
        i += 1;
    }
    None
}

fn group_signatures(rows: &Vec<FailureRow>) -> (g: Vec<FailureSignature>)
    requires
        rows@.len() <= i64::MAX,
    ensures
        sig_texts(g@) == sig_groups(rows@),
{
    let mut g: Vec<FailureSignature> = Vec::new();
    let mut n: usize = 0;
    proof {
        assert(rows@.take(0) =~= Seq::<FailureRow>::empty());
        assert(sig_texts(g@) =~= Seq::<SigText>::empty());
    }
    while n < rows.len()
        invariant
            n <= rows@.len() <= i64::MAX,
            sig_texts(g@) == sig_groups(rows@.take(n as int)),
            forall|k: int| 0 <= k < g@.len() ==> 0 <= (#[trigger] g@[k]).count <= n,
        decreases rows.len() - n,
    {
        let r = &rows[n];
        let head = head_of_row(r);
        let ghost all = sig_texts(g@);
        proof {
            assert(rows@.take(n + 1).drop_last() =~= rows@.take(n as int));
            assert(rows@.take(n + 1).last() == *r);
        }
        match find_sig(&g, r.event.as_str(), head.as_str()) {
            Some(i) => {
                proof {
                    assert(all[i as int] == g@[i as int]@);
                    assert(g@[i as int].count <= n);
                }
                let mut s = g.remove(i);
                s.count = s.count + 1;
                s.last_seen = r.ts.clone();
                let ghost view = s@;
                g.insert(i, s);
                proof {
                    assert(sig_texts(g@) =~= all.update(i as int, view));
                }
            },
            None => {
                let s = FailureSignature {
                    fid: r.event.clone(),
                    head,
                    status: r.status.clone(),
                    count: 1,
                    first_seen: r.ts.clone(),
                    last_seen: r.ts.clone(),
                    is_new: false,
                };
                let ghost view = s@;
                g.push(s);
                proof {
                    assert(sig_texts(g@) =~= all.push(view));
                }
            },
        }
        n += 1;
    }
    proof {
        assert(rows@.take(rows@.len() as int) =~= rows@);
    }
    g
}

fn sig_key_before(a: &FailureSignature, b: &FailureSignature) -> (r: bool)
    ensures
        r == sig_key_le()(a@, b@),
{
    if str_eq(a.fid.as_str(), b.fid.as_str()) {
        str_le(a.head.as_str(), b.head.as_str())
    } else {
        str_le(a.fid.as_str(), b.fid.as_str())
    }
}

fn sig_rank_before(a: &FailureSignature, b: &FailureSignature) -> (r: bool)
    ensures
        r == sig_rank_le()(a@, b@),
{
    if a.is_new == b.is_new {
        a.count >= b.count
    } else {
        a.is_new
    }
}

/// The failures of the store, grouped by trigger and signature, as far as they
/// were seen within the last `window_hours`; new ones first.
pub fn failure_signatures(store: Option<Vec<FailureRow>>, now: Moment, window_hours: i64) -> (r: Vec<
    FailureSignature,
>)
    requires
        sane_window(now, window_hours),
        store is Some ==> store->0@.len() <= i64::MAX,
    ensures
        sig_texts(r@) == match store {
            None => Seq::empty(),
            Some(rows) => signatures(rows@, window_start(now, window_hours as int)),
        },
{
    let rows = match store {
        Some(rows) => rows,
        None => {
            let none: Vec<FailureSignature> = Vec::new();
            proof {
                assert(sig_texts(none@) =~= Seq::<SigText>::empty());
            }
            return none;
        },
    };
    let ghost src = rows@;
    let ordered = ordered_failures(rows);
    proof {
        lemma_ordered_len(src);
    }
    let groups = group_signatures(&ordered);
    let ghost f = |s: FailureSignature| s@;
    let ghost key_t = |a: FailureSignature, b: FailureSignature| sig_key_le()(a@, b@);
    let ghost rank_t = |a: FailureSignature, b: FailureSignature| sig_rank_le()(a@, b@);
    let ghost before = groups@;
    let by_key = order::sort_stable(groups, sig_key_before, Ghost(key_t));
    proof {
        assert forall|a: FailureSignature, b: FailureSignature| #[trigger] key_t(a, b)
            == sig_key_le()(f(a), f(b)) by {}
        order::lemma_sorted_map(before, f, key_t, sig_key_le());
        assert(sig_texts(before) == before.map_values(f));
        assert(sig_texts(by_key@) == by_key@.map_values(f));
    }
    let start = window_text(now, window_hours);
    let ghost all = sig_texts(by_key@);
    let ghost list = by_key@;
    let ghost keep = active_since(start@);
    let ghost mark = marked(start@);
    let mut out: Vec<FailureSignature> = Vec::new();
    proof {
        reveal(Seq::filter);
        assert(all.take(0) =~= Seq::<SigText>::empty());
        assert(sig_texts(out@) =~= all.take(0).filter(keep).map_values(mark));
    }
    for s in it: by_key
        invariant
            it.seq() == list,
            all == sig_texts(list),
            keep == active_since(start@),
            mark == marked(start@),
            sig_texts(out@) == all.take(it.index() as int).filter(keep).map_values(mark),
    {
        let ghost kept = all.take(it.index() as int).filter(keep);
        proof {
            reveal(Seq::filter);
            assert(all.take(it.index() + 1).drop_last() =~= all.take(it.index() as int));
            assert(all.take(it.index() + 1).last() == s@);
        }
        if str_le(start.as_str(), s.last_seen.as_str()) {
            let mut m = s;
            let ghost raw = m@;
            m.is_new = str_le(start.as_str(), m.first_seen.as_str());
            let ghost view = m@;
            let ghost front = out@;
            out.push(m);
            proof {
                assert(sig_texts(out@) =~= sig_texts(front).push(view));
                assert(view == mark(raw));
                assert(kept.push(raw).map_values(mark) =~= kept.map_values(mark).push(view));
            }
        }
    }
    proof {
        assert(all.take(all.len() as int) =~= all);
    }
    let ghost unranked = out@;
    let ranked = order::sort_stable(out, sig_rank_before, Ghost(rank_t));
    proof {
        assert forall|a: FailureSignature, b: FailureSignature| #[trigger] rank_t(a, b)
            == sig_rank_le()(f(a), f(b)) by {}
        order::lemma_sorted_map(unranked, f, rank_t, sig_rank_le());
        assert(sig_texts(unranked) == unranked.map_values(f));
        assert(sig_texts(ranked@) == ranked@.map_values(f));
    }
    ranked
}

proof fn lemma_filter_len(rows: Seq<FailureRow>)
    ensures
        rows.filter(|r: FailureRow| failing(r)).len() <= rows.len(),
    decreases rows.len(),
{
    reveal(Seq::filter);
    if rows.len() > 0 {
        lemma_filter_len(rows.drop_last());
    }
}

proof fn lemma_ordered_len(rows: Seq<FailureRow>)
    ensures
        failures_in_order(rows).len() <= rows.len(),
{
    lemma_filter_len(rows);
    let kept = rows.filter(|r: FailureRow| failing(r));
    lemma_row_le_total();
    order::lemma_sorted(kept, row_le());
}

proof fn lemma_row_le_total()
    ensures
        order::total(row_le()),
{
    assert forall|a: FailureRow, b: FailureRow| #[trigger] row_le()(a, b) || #[trigger] row_le()(
        b,
        a,
    ) by {
        text::lemma_text_le_total(a.ts@, b.ts@);
    }
    assert forall|a: FailureRow, b: FailureRow, c: FailureRow| #[trigger]
        row_le()(a, b) && #[trigger] row_le()(b, c) implies row_le()(a, c) by {
        text::lemma_text_le_trans(a.ts@, b.ts@, c.ts@);
    }
}

// ── Storms ───────────────────────────────────────────────────────────────────
/// Workers that make a storm where nothing else is set.
pub const STORM_MIN_WORKERS: usize = 3;

/// Triggers that a storm names.
pub const STORM_SAMPLE: usize = 5;

/// The number of workers that make a storm: the setting where it is a positive
/// number, else the default.
pub open spec fn storm_threshold(setting: Option<Seq<char>>) -> int {
    match setting {
        Some(s) => match text::parse_unsigned(s) {
            Ok(n) => if 0 < n <= usize::MAX {
                n
            } else {
                STORM_MIN_WORKERS as int
            },
            Err(_) => STORM_MIN_WORKERS as int,
        },
        None => STORM_MIN_WORKERS as int,
    }
}

/// The number of workers that make a storm, from the setting
/// `HEX_FAILURES_STORM_MIN_WORKERS`.
pub fn storm_min_workers(setting: Option<&str>) -> (n: usize)
    ensures
        n == storm_threshold(crate::memory::provider::opt_str(setting)),
{
    match setting {
        Some(s) => match text::parse_u64(s) {
            Ok(n) => if n > 0 && n <= usize::MAX as u64 {
                n as usize
            } else {
                STORM_MIN_WORKERS
            },
            Err(_) => STORM_MIN_WORKERS,
        },
        None => STORM_MIN_WORKERS,
    }
}

/// One failure that hits many workers.
#[derive(Debug, Clone)]
pub struct StormSignature {
    pub head: String,
    pub distinct_fids: usize,
    /// Up to [`STORM_SAMPLE`] of the triggers, in order.
    pub sample_fids: Vec<String>,
    pub first_ts: String,
    pub last_ts: String,
    pub total_rows: i64,
}

pub struct StormText {
    pub head: Seq<char>,
    pub distinct_fids: int,
    pub sample_fids: Seq<Seq<char>>,
    pub first_ts: Seq<char>,
    pub last_ts: Seq<char>,
    pub total_rows: int,
}

impl View for StormSignature {
    type V = StormText;

    open spec fn view(&self) -> StormText {
        StormText {
            head: self.head@,
            distinct_fids: self.distinct_fids as int,
            sample_fids: text::texts(self.sample_fids@),
            first_ts: self.first_ts@,
            last_ts: self.last_ts@,
            total_rows: self.total_rows as int,
        }
    }
}

pub open spec fn storm_texts(v: Seq<StormSignature>) -> Seq<StormText> {
    v.map_values(|s: StormSignature| s@)
}

/// The failures with one head.
pub struct HeadText {
    pub head: Seq<char>,
    /// Each trigger once, as they come.
    pub fids: Seq<Seq<char>>,
    pub total: int,
    pub first: Seq<char>,
    pub last: Seq<char>,
}

struct HeadGroup {
    head: String,
    fids: Vec<String>,
    total: i64,
    first: String,
    last: String,
}

impl HeadGroup {
    closed spec fn text(self) -> HeadText {
        HeadText {
            head: self.head@,
            fids: text::texts(self.fids@),
            total: self.total as int,
            first: self.first@,
            last: self.last@,
        }
    }
}

spec fn group_texts(v: Seq<HeadGroup>) -> Seq<HeadText> {
    v.map_values(|g: HeadGroup| g.text())
}

pub open spec fn head_index(g: Seq<HeadText>, head: Seq<char>, i: int) -> Option<int>
    decreases g.len() - i,
{
    if i < 0 || i >= g.len() {
        None
    } else if g[i].head == head {
        Some(i)
    } else {
        head_index(g, head, i + 1)
    }
}

/// A group with one row more.
pub open spec fn with_row(g: HeadText, r: FailureRow) -> HeadText {
    HeadText {
        head: g.head,
        fids: if g.fids.contains(r.event@) {
            g.fids
        } else {
            g.fids.push(r.event@)
        },
        total: g.total + 1,
        first: if text::text_lt(r.ts@, g.first) {
            r.ts@
        } else {
            g.first
        },
        last: if text::text_lt(g.last, r.ts@) {
            r.ts@
        } else {
            g.last
        },
    }
}

/// The failures grouped by head alone.
pub open spec fn head_groups(rows: Seq<FailureRow>) -> Seq<HeadText>
    decreases rows.len(),
{
    if rows.len() == 0 {
        Seq::empty()
    } else {
        let g = head_groups(rows.drop_last());
        let r = rows.last();
        match head_index(g, row_head(r), 0) {
            Some(i) => g.update(i, with_row(g[i], r)),
            None => g.push(
                HeadText {
                    head: row_head(r),
                    fids: seq![r.event@],
                    total: 1,
                    first: r.ts@,
                    last: r.ts@,
                },
            ),
        }
    }
}

/// A row that lies in the window from `start` on.
pub open spec fn in_window(start: Seq<char>) -> spec_fn(FailureRow) -> bool {
    |r: FailureRow| text::text_le(start, r.ts@)
}

/// The failures of the store that lie in the window, in order.
pub open spec fn recent_failures(rows: Seq<FailureRow>, start: Seq<char>) -> Seq<FailureRow> {
    failures_in_order(rows).filter(in_window(start))
}

/// A group that hit enough workers.
pub open spec fn is_storm(threshold: int) -> spec_fn(HeadText) -> bool {
    |g: HeadText| g.fids.len() >= threshold
}

/// At most the first [`STORM_SAMPLE`] of the triggers in order.
pub open spec fn sample_of(fids: Seq<Seq<char>>) -> Seq<Seq<char>> {
    let s = order::sorted(fids, text::by_text());
    if s.len() <= STORM_SAMPLE {
        s
    } else {
        s.take(STORM_SAMPLE as int)
    }
}

pub open spec fn as_storm() -> spec_fn(HeadText) -> StormText {
    |g: HeadText|
        StormText {
            head: g.head,
            distinct_fids: g.fids.len() as int,
            sample_fids: sample_of(g.fids),
            first_ts: g.first,
            last_ts: g.last,
            total_rows: g.total,
        }
}

/// More workers first, then by head.
pub open spec fn storm_le() -> spec_fn(StormText, StormText) -> bool {
    |a: StormText, b: StormText|
        if a.distinct_fids == b.distinct_fids {
            text::text_le(a.head, b.head)
        } else {
            a.distinct_fids > b.distinct_fids
        }
}

/// The storms of a window: only failures that lie in it are counted.
pub open spec fn storms(rows: Seq<FailureRow>, start: Seq<char>, threshold: int) -> Seq<StormText> {
    order::sorted(
        head_groups(recent_failures(rows, start)).filter(is_storm(threshold)).map_values(
            as_storm(),
        ),
        storm_le(),
    )
}

fn find_head(g: &Vec<HeadGroup>, head: &str) -> (r: Option<usize>)
    ensures
        match r {
            Some(i) => head_index(group_texts(g@), head@, 0) == Some(i as int) && i < g@.len(),
            None => head_index(group_texts(g@), head@, 0) is None,
        },
{
    let ghost all = group_texts(g@);
    let mut i: usize = 0;
    while i < g.len()
        invariant
            i <= g@.len(),
            all == group_texts(g@),
            head_index(all, head@, 0) == head_index(all, head@, i as int),
        decreases g.len() - i,
    {
        proof {
            assert(all[i as int] == g@[i as int].text());
        }
        if str_eq(g[i].head.as_str(), head) {
            return Some(i);
        }
        i += 1;
    }
    None
}

fn add_row(g: HeadGroup, r: &FailureRow) -> (h: HeadGroup)
    requires
        g.total < i64::MAX,
    ensures
        h.text() == with_row(g.text(), *r),
        h.total == g.total + 1,
{
    let mut h = g;
    if !crate::memory::index::contains_text(&h.fids, r.event.as_str()) {
        let f = r.event.clone();
        proof {
            text::lemma_texts_push(h.fids@, f);
        }
        h.fids.push(f);
    }
    h.total = h.total + 1;
    if str_le(r.ts.as_str(), h.first.as_str()) && !str_eq(r.ts.as_str(), h.first.as_str()) {
        h.first = r.ts.clone();
    }
    if str_le(h.last.as_str(), r.ts.as_str()) && !str_eq(r.ts.as_str(), h.last.as_str()) {
        h.last = r.ts.clone();
    }
    h
}

fn group_heads(rows: &Vec<FailureRow>) -> (g: Vec<HeadGroup>)
    requires
        rows@.len() <= i64::MAX,
    ensures
        group_texts(g@) == head_groups(rows@),
{
    let mut g: Vec<HeadGroup> = Vec::new();
    let mut n: usize = 0;
    proof {
        assert(rows@.take(0) =~= Seq::<FailureRow>::empty());
        assert(group_texts(g@) =~= Seq::<HeadText>::empty());
    }
    while n < rows.len()
        invariant
            n <= rows@.len() <= i64::MAX,
            group_texts(g@) == head_groups(rows@.take(n as int)),
            forall|k: int| 0 <= k < g@.len() ==> 0 <= (#[trigger] g@[k]).total <= n,
        decreases rows.len() - n,
    {
        let r = &rows[n];
        let head = head_of_row(r);
        let ghost all = group_texts(g@);
        proof {
            assert(rows@.take(n + 1).drop_last() =~= rows@.take(n as int));
            assert(rows@.take(n + 1).last() == *r);
        }
        match find_head(&g, head.as_str()) {
            Some(i) => {
                proof {
                    assert(all[i as int] == g@[i as int].text());
                    assert(g@[i as int].total <= n);
                }
                let old_group = g.remove(i);
                let h = add_row(old_group, r);
                let ghost view = h.text();
                g.insert(i, h);
                proof {
                    assert(group_texts(g@) =~= all.update(i as int, view));
                }
            },
            None => {
                let mut fids: Vec<String> = Vec::new();
                fids.push(r.event.clone());
                proof {
                    assert(text::texts(fids@) =~= seq![r.event@]);
                }
                let h = HeadGroup { head, fids, total: 1, first: r.ts.clone(), last: r.ts.clone() };
                let ghost view = h.text();
                g.push(h);
                proof {
                    assert(group_texts(g@) =~= all.push(view));
                }
            },
        }
        n += 1;
    }
    proof {
        assert(rows@.take(rows@.len() as int) =~= rows@);
    }
    g
}

fn to_storm(g: HeadGroup) -> (s: StormSignature)
    ensures
        s@ == as_storm()(g.text()),
{
    let distinct: usize = g.fids.len();
    proof {
        assert(text::texts(g.fids@).len() == g.fids@.len());
    }
    let mut sample = text::sort_strings(g.fids);
    let ghost full = text::texts(sample@);
    proof {
        assert(full.len() == sample@.len());
    }
    if sample.len() > STORM_SAMPLE {
        sample.truncate(STORM_SAMPLE);
        proof {
            assert(text::texts(sample@) =~= full.take(STORM_SAMPLE as int));
        }
    }
    StormSignature {
        head: g.head,
        distinct_fids: distinct,
        sample_fids: sample,
        first_ts: g.first,
        last_ts: g.last,
        total_rows: g.total,
    }
}

fn storm_before(a: &StormSignature, b: &StormSignature) -> (r: bool)
    ensures
        r == storm_le()(a@, b@),
{
    if a.distinct_fids == b.distinct_fids {
        str_le(a.head.as_str(), b.head.as_str())
    } else {
        a.distinct_fids > b.distinct_fids
    }
}

/// Failures with one head that hit at least `threshold` different triggers
/// within the last `window_hours`; those that hit most come first.
pub fn storm_signatures(
    store: Option<Vec<FailureRow>>,
    now: Moment,
    window_hours: i64,
    threshold: usize,
) -> (r: Vec<StormSignature>)
    requires
        sane_window(now, window_hours),
        store is Some ==> store->0@.len() <= i64::MAX,
    ensures
        storm_texts(r@) == match store {
            None => Seq::empty(),
            Some(rows) => storms(
                rows@,
                window_start(now, window_hours as int),
                threshold as int,
            ),
        },
{
    let rows = match store {
        Some(rows) => rows,
        None => {
            let none: Vec<StormSignature> = Vec::new();
            proof {
                assert(storm_texts(none@) =~= Seq::<StormText>::empty());
            }
            return none;
        },
    };
    let ghost src = rows@;
    let ordered = ordered_failures(rows);
    proof {
        lemma_ordered_len(src);
    }
    let start = window_text(now, window_hours);
    let ghost accepts = in_window(start@);
    let recently = |r: &FailureRow| -> (b: bool)
        ensures
            b == text::text_le(start@, r.ts@),
        { str_le(start.as_str(), r.ts.as_str()) };
    let ghost every = ordered@;
    let recent = lists::keep_if(ordered, recently, Ghost(accepts));
    proof {
        every.lemma_filter_len(accepts);
    }
    let groups = group_heads(&recent);
    let ghost all = group_texts(groups@);
    let ghost list = groups@;
    let ghost keep = is_storm(threshold as int);
    let ghost make = as_storm();
    let mut out: Vec<StormSignature> = Vec::new();
    proof {
        reveal(Seq::filter);
        assert(all.take(0) =~= Seq::<HeadText>::empty());
        assert(storm_texts(out@) =~= all.take(0).filter(keep).map_values(make));
    }
    for g in it: groups
        invariant
            it.seq() == list,
            all == group_texts(list),
            keep == is_storm(threshold as int),
            make == as_storm(),
            storm_texts(out@) == all.take(it.index() as int).filter(keep).map_values(make),
    {
        let ghost kept = all.take(it.index() as int).filter(keep);
        let ghost raw = g.text();
        proof {
            reveal(Seq::filter);
            assert(all.take(it.index() + 1).drop_last() =~= all.take(it.index() as int));
            assert(all.take(it.index() + 1).last() == raw);
            assert(text::texts(g.fids@).len() == g.fids@.len());
        }
        if g.fids.len() >= threshold {
            let s = to_storm(g);
            let ghost view = s@;
            let ghost front = out@;
            out.push(s);
            proof {
                assert(storm_texts(out@) =~= storm_texts(front).push(view));
                assert(kept.push(raw).map_values(make) =~= kept.map_values(make).push(view));
            }
        }
    }
    proof {
        assert(all.take(all.len() as int) =~= all);
    }
    let ghost f = |s: StormSignature| s@;
    let ghost le_t = |a: StormSignature, b: StormSignature| storm_le()(a@, b@);
    let ghost unranked = out@;
    let ranked = order::sort_stable(out, storm_before, Ghost(le_t));
    proof {
        assert forall|a: StormSignature, b: StormSignature| #[trigger] le_t(a, b) == storm_le()(
            f(a),
            f(b),
        ) by {}
        order::lemma_sorted_map(unranked, f, le_t, storm_le());
        assert(storm_texts(unranked) == unranked.map_values(f));
        assert(storm_texts(ranked@) == ranked@.map_values(f));
    }
    ranked
}

// ── Double fires ─────────────────────────────────────────────────────────────
#[derive(Debug, Clone)]
pub struct DuplicateFire {
    pub fid: String,
    /// The expected fire, in seconds.
    pub window_start: i64,
    pub rows_in_window: i64,
}

pub struct DuplicateText {
    pub fid: Seq<char>,
    pub window_start: i64,
    pub rows_in_window: int,
}

impl View for DuplicateFire {
    type V = DuplicateText;

    open spec fn view(&self) -> DuplicateText {
        DuplicateText {
            fid: self.fid@,
            window_start: self.window_start,
            rows_in_window: self.rows_in_window as int,
        }
    }
}

pub open spec fn duplicate_texts(v: Seq<DuplicateFire>) -> Seq<DuplicateText> {
    v.map_values(|d: DuplicateFire| d@)
}

/// The rows of an event from `lo` up to `hi`, among the first `n`.
pub open spec fn rows_between(
    rows: Seq<EventRecord>,
    fid: Seq<char>,
    lo: Seq<char>,
    hi: Seq<char>,
    n: int,
) -> int
    decreases n,
{
    if n <= 0 {
        0
    } else {
        let r = rows[n - 1];
        rows_between(rows, fid, lo, hi, n - 1) + if r.event@ == fid && is_since(r, lo) && !is_since(
            r,
            hi,
        ) {
            1int
        } else {
            0
        }
    }
}

/// The rows around the latest fire of an expectation: from a minute before it
/// up to half a cadence behind it.
pub open spec fn rows_at_fire(e: CronExpectation, rows: Seq<EventRecord>, now: Moment) -> int {
    let at = last_fire(e.expr@, now)->0;
    let every = match cadence(e.expr@, now) {
        Some(c) => c,
        None => 86_400,
    };
    rows_between(
        rows,
        e.fid@,
        rfc3339_text((at - 60) as i64, 0),
        rfc3339_text((at + quotient(every, 2)) as i64, 0),
        rows.len() as int,
    )
}

/// The expectations among the first `n` whose latest fire left more than one
/// row.
pub open spec fn duplicates(exp: Seq<CronExpectation>, rows: Seq<EventRecord>, now: Moment, n: int) -> Seq<
    DuplicateText,
>
    decreases n,
{
    if n <= 0 {
        Seq::empty()
    } else {
        let front = duplicates(exp, rows, now, n - 1);
        let e = exp[n - 1];
        if last_fire(e.expr@, now) is Some && rows_at_fire(e, rows, now) > 1 {
            front.push(
                DuplicateText {
                    fid: e.fid@,
                    window_start: last_fire(e.expr@, now)->0,
                    rows_in_window: rows_at_fire(e, rows, now),
                },
            )
        } else {
            front
        }
    }
}

fn count_between(rows: &Vec<EventRecord>, fid: &str, lo: &str, hi: &str) -> (n: i64)
    requires
        rows@.len() <= i64::MAX,
    ensures
        n == rows_between(rows@, fid@, lo@, hi@, rows@.len() as int),
{
    let mut n: i64 = 0;
    let mut i: usize = 0;
    while i < rows.len()
        invariant
            i <= rows@.len() <= i64::MAX,
            n == rows_between(rows@, fid@, lo@, hi@, i as int),
            0 <= n <= i,
        decreases rows.len() - i,
    {
        let r = &rows[i];
        if str_eq(r.event.as_str(), fid) && row_since(r, lo) && !row_since(r, hi) {
            n = n + 1;
        }
        i += 1;
    }
    n
}

/// The triggers whose most recent expected fire left more than one row.
pub fn duplicate_fires(
    exp: &Vec<CronExpectation>,
    store: Option<&Vec<EventRecord>>,
    now: Moment,
) -> (r: Vec<DuplicateFire>)
    requires
        now.in_calendar(),
        store is Some ==> store->0@.len() <= i64::MAX,
    ensures
        duplicate_texts(r@) == match store {
            None => Seq::empty(),
            Some(rows) => duplicates(exp@, rows@, now, exp@.len() as int),
        },
{
    let mut out: Vec<DuplicateFire> = Vec::new();
    proof {
        assert(duplicate_texts(out@) =~= Seq::<DuplicateText>::empty());
    }
    let rows = match store {
        Some(rows) => rows,
        None => {
            return out;
        },
    };
    let mut i: usize = 0;
    while i < exp.len()
        invariant
            i <= exp@.len(),
            now.in_calendar(),
            rows@.len() <= i64::MAX,
            duplicate_texts(out@) == duplicates(exp@, rows@, now, i as int),
        decreases exp.len() - i,
    {
        let e = &exp[i];
        let fires = fires_before(e.expr.as_str(), now.secs + 1);
        if fires.len() > 0 {
            let at: i64 = fires[0];
            let every: i64 = if fires.len() > 1 {
                at - fires[1]
            } else {
                86_400
            };
            let half: i64 = if every >= 0 {
                every / 2
            } else {
                -((-every) / 2)
            };
            let lo = format_rfc3339(at - 60, 0);
            let hi = format_rfc3339(at + half, 0);
            let n: i64 = count_between(rows, e.fid.as_str(), lo.as_str(), hi.as_str());
            if n > 1 {
                let d = DuplicateFire { fid: e.fid.clone(), window_start: at, rows_in_window: n };
                let ghost view = d@;
                let ghost before = out@;
                out.push(d);
                proof {
                    assert(duplicate_texts(out@) =~= duplicate_texts(before).push(view));
                }
            }
        }
        i += 1;
    }
    out
}

// ── Alert keys ───────────────────────────────────────────────────────────────
/// A character that may stand in a file name as it is.
pub open spec fn is_plain(c: char) -> bool {
    text::is_ascii_letter(c) || text::is_digit(c) || c == '.' || c == '_' || c == '-'
}

pub open spec fn plain_or_dash(s: Seq<char>) -> Seq<char> {
    s.map_values(|c: char| if is_plain(c) { c } else { '-' })
}

/// An identifier that may stand in a file name: runs of anything that may not
/// become one dash, and none stands at its ends.
pub open spec fn cleaned(ident: Seq<char>) -> Seq<char> {
    text::join(text::non_empty(text::split(plain_or_dash(ident), '-')), "-"@)
}

/// The key of an alert: its kind and the cleaned identifier.
pub open spec fn key_of(kind: Seq<char>, ident: Seq<char>) -> Seq<char> {
    "failures-"@ + kind + "-"@ + cleaned(ident)
}

fn keep_non_empty(v: Vec<String>) -> (r: Vec<String>)
    ensures
        text::texts(r@) == text::non_empty(text::texts(v@)),
{
    let ghost all = text::texts(v@);
    let ghost list = v@;
    let mut out: Vec<String> = Vec::new();
    proof {
        reveal(Seq::filter);
        assert(all.take(0) =~= Seq::<Seq<char>>::empty());
        assert(text::texts(out@) =~= text::non_empty(all.take(0)));
    }
    for s in it: v
        invariant
            it.seq() == list,
            all == text::texts(list),
            text::texts(out@) == text::non_empty(all.take(it.index() as int)),
    {
        proof {
            text::lemma_non_empty_push(all.take(it.index() as int), s@);
            assert(all.take(it.index() + 1) =~= all.take(it.index() as int).push(s@));
            text::lemma_texts_push(out@, s);
        }
        if !s.as_str().is_empty() {
            out.push(s);
        }
    }
    proof {
        assert(all.take(all.len() as int) =~= all);
    }
    out
}

/// The key of an alert, safe as part of a file name where its kind is.
pub fn alert_key(kind: &str, ident: &str) -> (r: String)
    ensures
        r@ == key_of(kind@, ident@),
{
    let v = text::to_chars(ident);
    let mut safe: String = String::new();
    let mut i: usize = 0;
    proof {
        assert(safe@ =~= plain_or_dash(v@.take(0)));
    }
    while i < v.len()
        invariant
            i <= v@.len(),
            safe@ == plain_or_dash(v@.take(i as int)),
        decreases v.len() - i,
    {
        let c = v[i];
        let plain = text::char_is_ascii_letter(c) || text::char_is_digit(c) || c == '.' || c == '_'
            || c == '-';
        safe.push(
            if plain {
                c
            } else {
                '-'
            },
        );
        proof {
            assert(plain_or_dash(v@.take(i + 1)) =~= safe@);
        }
        i += 1;
    }
    proof {
        assert(v@.take(v@.len() as int) =~= v@);
    }
    let parts = keep_non_empty(text::split_char(safe.as_str(), '-'));
    let joined = text::join_strings(&parts, "-");
    let mut r = "failures-".to_owned();
    r.append(kind);
    r.append("-");
    r.append(joined.as_str());
    r
}

// ── Modules that are not compiled in ─────────────────────────────────────────
/// The last component of a path.
pub open spec fn base_name(path: Seq<char>) -> Option<Seq<char>> {
    let names = text::non_empty(text::split(path, '/'));
    if names.len() == 0 || names.last() == "."@ || names.last() == ".."@ {
        None
    } else {
        Some(names.last())
    }
}

/// The last components of paths, those that have none left out.
pub open spec fn base_names(paths: Seq<Seq<char>>) -> Seq<Seq<char>>
    decreases paths.len(),
{
    if paths.len() == 0 {
        Seq::empty()
    } else {
        match base_name(paths.last()) {
            Some(b) => base_names(paths.drop_last()).push(b),
            None => base_names(paths.drop_last()),
        }
    }
}

fn base_of(path: &str) -> (r: Option<String>)
    ensures
        crate::json::is_text(r, base_name(path@)),
{
    let names = keep_non_empty(text::split_char(path, '/'));
    let n: usize = names.len();
    proof {
        assert(text::texts(names@).len() == n);
    }
    if n == 0 {
        return None;
    }
    proof {
        assert(text::texts(names@)[n - 1] == names@[n - 1]@);
    }
    let last = names[n - 1].as_str();
    if str_eq(last, ".") || str_eq(last, "..") {
        None
    } else {
        Some(last.to_owned())
    }
}

fn bases_of(paths: &Vec<String>) -> (r: Vec<String>)
    ensures
        text::texts(r@) == base_names(text::texts(paths@)),
{
    let ghost all = text::texts(paths@);
    let mut out: Vec<String> = Vec::new();
    let mut i: usize = 0;
    proof {
        assert(all.take(0) =~= Seq::<Seq<char>>::empty());
        assert(text::texts(out@) =~= Seq::<Seq<char>>::empty());
    }
    while i < paths.len()
        invariant
            i <= paths@.len(),
            all == text::texts(paths@),
            text::texts(out@) == base_names(all.take(i as int)),
        decreases paths.len() - i,
    {
        proof {
            assert(all.take(i + 1).drop_last() =~= all.take(i as int));
            assert(all.take(i + 1).last() == paths@[i as int]@);
        }
        if let Some(b) = base_of(paths[i].as_str()) {
            proof {
                text::lemma_texts_push(out@, b);
            }
            out.push(b);
        }
        i += 1;
    }
    proof {
        assert(all.take(all.len() as int) =~= all);
    }
    out
}

/// The base names of the modules that are compiled in, from their paths.
pub fn compiled_module_basenames(module_paths: &Vec<String>) -> (r: Vec<String>)
    ensures
        text::texts(r@) == base_names(text::texts(module_paths@)),
{
    bases_of(module_paths)
}

/// Names that `compiled` does not hold, in order.
pub open spec fn not_landed(found: Seq<Seq<char>>, compiled: Seq<Seq<char>>) -> Seq<Seq<char>> {
    order::sorted(
        crate::memory::index::missing(
            base_names(found.filter(|p: Seq<char>| is_worker_file(p))),
            compiled,
        ),
        text::by_text(),
    )
}

/// A file that a module is built from.
pub open spec fn is_worker_file(path: Seq<char>) -> bool {
    base_name(path) is Some && text::ends_with(base_name(path)->0, ".worker.rs"@)
}

fn worker_files(found: &Vec<String>) -> (r: Vec<String>)
    ensures
        text::texts(r@) == text::texts(found@).filter(|p: Seq<char>| is_worker_file(p)),
{
    let ghost all = text::texts(found@);
    let ghost keep = |p: Seq<char>| is_worker_file(p);
    let mut out: Vec<String> = Vec::new();
    let mut i: usize = 0;
    proof {
        reveal(Seq::filter);
        assert(all.take(0) =~= Seq::<Seq<char>>::empty());
        assert(text::texts(out@) =~= all.take(0).filter(keep));
    }
    while i < found.len()
        invariant
            i <= found@.len(),
            all == text::texts(found@),
            keep == (|p: Seq<char>| is_worker_file(p)),
            text::texts(out@) == all.take(i as int).filter(keep),
        decreases found.len() - i,
    {
        proof {
            reveal(Seq::filter);
            assert(all.take(i + 1).drop_last() =~= all.take(i as int));
            assert(all.take(i + 1).last() == found@[i as int]@);
        }
        if let Some(b) = base_of(found[i].as_str()) {
            if text::ends_with_str(b.as_str(), ".worker.rs") {
                let p = found[i].clone();
                proof {
                    text::lemma_texts_push(out@, p);
                }
                out.push(p);
            }
        }
        i += 1;
    }
    proof {
        assert(all.take(all.len() as int) =~= all);
    }
    out
}

/// The module files on disk that this binary was not built from, by base name
/// and in order. `found` holds the paths of the files below the modules
/// directory.
pub fn modules_not_landed(found: &Vec<String>, compiled_basenames: &Vec<String>) -> (r: Vec<String>)
    ensures
        text::texts(r@) == not_landed(text::texts(found@), text::texts(compiled_basenames@)),
{
    let names = bases_of(&worker_files(found));
    let ghost all = text::texts(names@);
    let ghost have = text::texts(compiled_basenames@);
    let ghost gone = |p: Seq<char>| !have.contains(p);
    let mut out: Vec<String> = Vec::new();
    let mut i: usize = 0;
    proof {
        reveal(Seq::filter);
        assert(all.take(0) =~= Seq::<Seq<char>>::empty());
        assert(text::texts(out@) =~= all.take(0).filter(gone));
    }
    while i < names.len()
        invariant
            i <= names@.len(),
            all == text::texts(names@),
            have == text::texts(compiled_basenames@),
            gone == (|p: Seq<char>| !have.contains(p)),
            text::texts(out@) == all.take(i as int).filter(gone),
        decreases names.len() - i,
    {
        proof {
            reveal(Seq::filter);
            assert(all.take(i + 1).drop_last() =~= all.take(i as int));
            assert(all.take(i + 1).last() == names@[i as int]@);
        }
        if !crate::memory::index::contains_text(compiled_basenames, names[i].as_str()) {
            let b = names[i].clone();
            proof {
                text::lemma_texts_push(out@, b);
            }
            out.push(b);
        }
        i += 1;
    }
    proof {
        assert(all.take(all.len() as int) =~= all);
        assert(crate::memory::index::missing(all, have) == all.filter(gone));
    }
    text::sort_strings(out)
}

// ── Laws ─────────────────────────────────────────────────────────────────────
proof fn lemma_max_ts(rows: Seq<EventRecord>, fid: Seq<char>, n: int)
    requires
        0 <= n <= rows.len(),
        !has_unread(rows, fid),
    ensures
        (max_ts(rows, fid, n) is None) == (forall|i: int|
            0 <= i < n ==> (#[trigger] rows[i]).event@ != fid),
    decreases n,
{
    if n > 0 {
        assert(!is_unread(rows[n - 1], fid));
        lemma_max_ts(rows, fid, n - 1);
    }
}

/// A trigger that has no row at all has never run, and of those whose rows can
/// be read only such a trigger; it is then neither missed nor excused.
pub proof fn law_never_ran(
    e: CronExpectation,
    rows: Seq<EventRecord>,
    g: Seq<(Moment, Moment)>,
    now: Moment,
    excused: Seq<Seq<char>>,
)
    requires
        !has_unread(rows, e.fid@),
    ensures
        (verdict(e, rows, g, now, excused) is NeverRan) == (forall|i: int|
            0 <= i < rows.len() ==> (#[trigger] rows[i]).event@ != e.fid@),
{
    lemma_max_ts(rows, e.fid@, rows.len() as int);
}

/// A trigger that a caller excuses is never missed, and neither is one whose
/// fire may still be in flight or whose row is there.
pub proof fn law_missed_only_if_owed(
    e: CronExpectation,
    rows: Seq<EventRecord>,
    g: Seq<(Moment, Moment)>,
    now: Moment,
    excused: Seq<Seq<char>>,
)
    requires
        verdict(e, rows, g, now, excused) is Missed,
    ensures
        !excused.contains(e.fid@),
        last_fire(e.expr@, now) is Some,
        !ran_since(rows, e.fid@, rfc3339_text(last_fire(e.expr@, now)->0, 0)),
        now.total() >= (last_fire(e.expr@, now)->0 + slack(
            match cadence(e.expr@, now) {
                Some(c) => c,
                None => 86_400,
            },
            max_duration(rows, e.fid@, rows.len() as int),
        )) * NANOS,
        gap_around(g, last_fire(e.expr@, now)->0, 0) is None,
{
}

/// How many triggers the first `n` downtimes excuse.
pub open spec fn excused_count(d: Seq<DownText>, n: int) -> int
    decreases n,
{
    if n <= 0 {
        0
    } else {
        excused_count(d, n - 1) + d[n - 1].fids.len()
    }
}

proof fn lemma_excused_same(a: Seq<DownText>, b: Seq<DownText>, n: int)
    requires
        0 <= n <= a.len(),
        n <= b.len(),
        forall|i: int| 0 <= i < n ==> a[i] == b[i],
    ensures
        excused_count(a, n) == excused_count(b, n),
    decreases n,
{
    if n > 0 {
        lemma_excused_same(a, b, n - 1);
    }
}

proof fn lemma_excused_update(d: Seq<DownText>, i: int, x: DownText, n: int)
    requires
        0 <= i < d.len(),
        0 <= n <= d.len(),
        x.fids.len() == d[i].fids.len() + 1,
    ensures
        excused_count(d.update(i, x), n) == excused_count(d, n) + if i < n {
            1int
        } else {
            0
        },
    decreases n,
{
    if n > 0 {
        lemma_excused_update(d, i, x, n - 1);
    }
}

proof fn lemma_down_index(d: Seq<DownText>, from: Moment, i: int)
    requires
        0 <= i,
    ensures
        down_index(d, from, i) matches Some(k) ==> i <= k < d.len() && d[k].from == from,
    decreases d.len() - i,
{
    if i < d.len() && d[i].from != from {
        lemma_down_index(d, from, i + 1);
    }
}

/// No expectation is reported twice: what was missed, what never ran and what a
/// downtime excuses are together no more than what was expected.
pub proof fn law_each_expectation_once(
    exp: Seq<CronExpectation>,
    rows: Seq<EventRecord>,
    g: Seq<(Moment, Moment)>,
    now: Moment,
    excused: Seq<Seq<char>>,
    n: int,
)
    requires
        0 <= n <= exp.len(),
    ensures
        ({
            let r = report_on(exp, rows, g, now, excused, n);
            r.missed.len() + r.never_ran.len() + excused_count(
                r.downtime,
                r.downtime.len() as int,
            ) <= n
        }),
    decreases n,
{
    if n > 0 {
        law_each_expectation_once(exp, rows, g, now, excused, n - 1);
        let d = report_on(exp, rows, g, now, excused, n - 1).downtime;
        match verdict(exp[n - 1], rows, g, now, excused) {
            Verdict::Down(k) => {
                let fid = exp[n - 1].fid@;
                lemma_down_index(d, g[k].0, 0);
                match down_index(d, g[k].0, 0) {
                    Some(i) => {
                        lemma_excused_update(
                            d,
                            i,
                            DownText { fids: d[i].fids.push(fid), ..d[i] },
                            d.len() as int,
                        );
                    },
                    None => {
                        let x = DownText { from: g[k].0, to: g[k].1, fids: seq![fid] };
                        lemma_excused_same(d.push(x), d, d.len() as int);
                    },
                }
            },
            _ => {},
        }
    }
}

proof fn lemma_collapsed(s: Seq<char>)
    ensures
        forall|i: int|
            0 <= i < collapsed(s).len() ==> !text::is_digit(#[trigger] collapsed(s)[i]) && (
            collapsed(s)[i] == '#' || s.contains(collapsed(s)[i])),
    decreases s.len(),
{
    if s.len() > 0 {
        let front = s.drop_last();
        lemma_collapsed(front);
        assert forall|i: int| 0 <= i < collapsed(s).len() implies !text::is_digit(
            #[trigger] collapsed(s)[i],
        ) && (collapsed(s)[i] == '#' || s.contains(collapsed(s)[i])) by {
            if i < collapsed(front).len() {
                assert(collapsed(s)[i] == collapsed(front)[i]);
                if collapsed(s)[i] != '#' {
                    let k = choose|k: int| 0 <= k < front.len() && front[k] == collapsed(front)[i];
                    assert(s[k] == collapsed(s)[i]);
                }
            } else {
                assert(s[s.len() - 1] == s.last());
            }
        }
    }
}

/// A signature is at most 80 characters of the first line, with no digit in it.
pub proof fn law_head_is_short_and_without_digits(detail: Seq<char>)
    ensures
        head_of(detail).len() <= HEAD_CHARS,
        forall|i: int|
            0 <= i < head_of(detail).len() ==> !text::is_digit(#[trigger] head_of(detail)[i]) && (
            head_of(detail)[i] == '#' || first_line(detail).contains(head_of(detail)[i])),
{
    let line = first_line(detail);
    lemma_collapsed(line);
    assert forall|i: int| 0 <= i < head_of(detail).len() implies !text::is_digit(
        #[trigger] head_of(detail)[i],
    ) && (head_of(detail)[i] == '#' || first_line(detail).contains(head_of(detail)[i])) by {
        assert(head_of(detail)[i] == collapsed(line)[i]);
    }
}

pub open spec fn sig_key() -> spec_fn(SigText) -> (Seq<char>, Seq<char>) {
    |s: SigText| (s.fid, s.head)
}

proof fn lemma_sig_index(g: Seq<SigText>, fid: Seq<char>, head: Seq<char>, i: int)
    requires
        0 <= i <= g.len(),
    ensures
        match sig_index(g, fid, head, i) {
            Some(k) => i <= k < g.len() && g[k].fid == fid && g[k].head == head,
            None => forall|j: int|
                i <= j < g.len() ==> !((#[trigger] g[j]).fid == fid && g[j].head == head),
        },
    decreases g.len() - i,
{
    if i < g.len() && !(g[i].fid == fid && g[i].head == head) {
        lemma_sig_index(g, fid, head, i + 1);
    }
}

proof fn lemma_sig_groups(rows: Seq<FailureRow>)
    ensures
        order::unique(sig_groups(rows), sig_key()),
    decreases rows.len(),
{
    if rows.len() > 0 {
        let g = sig_groups(rows.drop_last());
        let r = rows.last();
        lemma_sig_groups(rows.drop_last());
        lemma_sig_index(g, r.event@, row_head(r), 0);
        let all = sig_groups(rows);
        let key = sig_key();
        assert forall|i: int, j: int| 0 <= i < j < all.len() implies key(#[trigger] all[i]) != key(
            #[trigger] all[j],
        ) by {
            if j < g.len() {
                assert(key(g[i]) != key(g[j]));
            }
        }
    }
}

proof fn lemma_sig_key_le_total()
    ensures
        order::total(sig_key_le()),
{
    let le = sig_key_le();
    assert forall|a: SigText, b: SigText| #[trigger] le(a, b) || #[trigger] le(b, a) by {
        text::lemma_text_le_total(a.fid, b.fid);
        text::lemma_text_le_total(a.head, b.head);
    }
    assert forall|a: SigText, b: SigText, c: SigText| #[trigger] le(a, b) && #[trigger] le(
        b,
        c,
    ) implies le(a, c) by {
        text::lemma_text_le_total(a.fid, b.fid);
        if a.fid == b.fid && b.fid == c.fid {
            text::lemma_text_le_trans(a.head, b.head, c.head);
        } else if a.fid != b.fid && b.fid != c.fid {
            text::lemma_text_le_trans(a.fid, b.fid, c.fid);
        }
    }
}

/// A failure that comes again is one signature: no two signatures share their
/// trigger and head, each was active in the window, it is new if and only if it
/// was first seen in it, and new ones come first, frequent ones before rare ones.
pub proof fn law_signatures(rows: Seq<FailureRow>, start: Seq<char>)
    ensures
        order::unique(signatures(rows, start), sig_key()),
        order::ascending(signatures(rows, start), sig_rank_le()),
        forall|i: int|
            0 <= i < signatures(rows, start).len() ==> text::text_le(
                start,
                (#[trigger] signatures(rows, start)[i]).last_seen,
            ) && signatures(rows, start)[i].is_new == text::text_le(
                start,
                signatures(rows, start)[i].first_seen,
            ),
{
    let groups = sig_groups(failures_in_order(rows));
    let by_key = order::sorted(groups, sig_key_le());
    let active = by_key.filter(active_since(start));
    let all = active.map_values(marked(start));
    let key = sig_key();
    lemma_sig_groups(failures_in_order(rows));
    lemma_sig_key_le_total();
    order::lemma_sorted_unique(groups, sig_key_le(), sig_key());
    order::lemma_filter_unique(by_key, active_since(start), sig_key());
    assert forall|i: int, j: int| 0 <= i < j < all.len() implies key(#[trigger] all[i]) != key(
        #[trigger] all[j],
    ) by {
        assert(key(active[i]) != key(active[j]));
    }
    assert(order::total(sig_rank_le()));
    order::lemma_sorted(all, sig_rank_le());
    order::lemma_sorted_unique(all, sig_rank_le(), sig_key());
    let r = signatures(rows, start);
    assert forall|i: int| 0 <= i < r.len() implies text::text_le(start, (#[trigger] r[i]).last_seen)
        && r[i].is_new == text::text_le(start, r[i].first_seen) by {
        order::lemma_sorted_contains(all, sig_rank_le(), r[i]);
        assert(r.contains(r[i]));
        let k = choose|k: int| 0 <= k < all.len() && all[k] == r[i];
        assert(active_since(start)(active[k]));
    }
}

pub open spec fn group_head() -> spec_fn(HeadText) -> Seq<char> {
    |g: HeadText| g.head
}

pub open spec fn storm_head() -> spec_fn(StormText) -> Seq<char> {
    |s: StormText| s.head
}

proof fn lemma_head_index(g: Seq<HeadText>, head: Seq<char>, i: int)
    requires
        0 <= i <= g.len(),
    ensures
        match head_index(g, head, i) {
            Some(k) => i <= k < g.len() && g[k].head == head,
            None => forall|j: int| i <= j < g.len() ==> (#[trigger] g[j]).head != head,
        },
    decreases g.len() - i,
{
    if i < g.len() && g[i].head != head {
        lemma_head_index(g, head, i + 1);
    }
}

/// Whether a trigger is among those of the rows with a head.
pub open spec fn hit_in(rows: Seq<FailureRow>, head: Seq<char>, fid: Seq<char>) -> bool {
    exists|k: int|
        0 <= k < rows.len() && row_head(#[trigger] rows[k]) == head && rows[k].event@ == fid
}

pub open spec fn with_head(head: Seq<char>) -> spec_fn(FailureRow) -> bool {
    |r: FailureRow| row_head(r) == head
}

/// What a group is of the rows that it was made from.
spec fn tells_of(g: HeadText, rows: Seq<FailureRow>) -> bool {
    &&& g.fids.no_duplicates()
    &&& g.fids.len() > 0
    &&& forall|f: Seq<char>| #[trigger] g.fids.contains(f) == hit_in(rows, g.head, f)
    &&& g.total == rows.filter(with_head(g.head)).len()
    &&& exists|k: int| 0 <= k < rows.len() && (#[trigger] rows[k]).ts@ == g.first
    &&& exists|k: int| 0 <= k < rows.len() && (#[trigger] rows[k]).ts@ == g.last
}

proof fn lemma_hit_in(rows: Seq<FailureRow>, head: Seq<char>, fid: Seq<char>)
    requires
        rows.len() > 0,
    ensures
        hit_in(rows, head, fid) == (hit_in(rows.drop_last(), head, fid) || row_head(rows.last())
            == head && rows.last().event@ == fid),
{
    let front = rows.drop_last();
    if hit_in(rows, head, fid) {
        let k = choose|k: int|
            0 <= k < rows.len() && row_head(#[trigger] rows[k]) == head && rows[k].event@ == fid;
        if k < front.len() {
            assert(front[k] == rows[k]);
        }
    }
    if hit_in(front, head, fid) {
        let k = choose|k: int|
            0 <= k < front.len() && row_head(#[trigger] front[k]) == head && front[k].event@ == fid;
        assert(rows[k] == front[k]);
    }
    if row_head(rows.last()) == head && rows.last().event@ == fid {
        assert(row_head(rows[rows.len() - 1]) == head);
    }
}

proof fn lemma_no_hit(rows: Seq<FailureRow>, head: Seq<char>)
    requires
        forall|k: int| 0 <= k < rows.len() ==> row_head(#[trigger] rows[k]) != head,
    ensures
        rows.filter(with_head(head)).len() == 0,
    decreases rows.len(),
{
    reveal(Seq::filter);
    if rows.len() > 0 {
        let front = rows.drop_last();
        assert forall|k: int| 0 <= k < front.len() implies row_head(#[trigger] front[k]) != head by {
            assert(front[k] == rows[k]);
        }
        lemma_no_hit(front, head);
        assert(row_head(rows[rows.len() - 1]) != head);
    }
}

/// A group stays what it is of the rows when one row with another head comes
/// behind them.
proof fn lemma_tells_of_more(g: HeadText, rows: Seq<FailureRow>)
    requires
        rows.len() > 0,
        tells_of(g, rows.drop_last()),
        row_head(rows.last()) != g.head,
    ensures
        tells_of(g, rows),
{
    let front = rows.drop_last();
    reveal(Seq::filter);
    assert forall|f: Seq<char>| #[trigger] g.fids.contains(f) == hit_in(rows, g.head, f) by {
        lemma_hit_in(rows, g.head, f);
    }
    let a = choose|k: int| 0 <= k < front.len() && (#[trigger] front[k]).ts@ == g.first;
    let b = choose|k: int| 0 <= k < front.len() && (#[trigger] front[k]).ts@ == g.last;
    assert(rows[a] == front[a] && rows[b] == front[b]);
}

proof fn lemma_tells_of_row(g: HeadText, rows: Seq<FailureRow>)
    requires
        rows.len() > 0,
        tells_of(g, rows.drop_last()),
        row_head(rows.last()) == g.head,
    ensures
        tells_of(with_row(g, rows.last()), rows),
{
    let front = rows.drop_last();
    let r = rows.last();
    let h = with_row(g, r);
    reveal(Seq::filter);
    assert forall|f: Seq<char>| #[trigger] h.fids.contains(f) == hit_in(rows, h.head, f) by {
        lemma_hit_in(rows, g.head, f);
        assert(g.fids.contains(f) == hit_in(front, g.head, f));
        if !g.fids.contains(r.event@) {
            assert(g.fids.push(r.event@)[g.fids.len() as int] == r.event@);
            if g.fids.contains(f) {
                let i = choose|i: int| 0 <= i < g.fids.len() && g.fids[i] == f;
                assert(g.fids.push(r.event@)[i] == f);
            }
        }
    }
    let a = choose|k: int| 0 <= k < front.len() && (#[trigger] front[k]).ts@ == g.first;
    let b = choose|k: int| 0 <= k < front.len() && (#[trigger] front[k]).ts@ == g.last;
    assert(rows[a] == front[a] && rows[b] == front[b]);
    assert(rows[rows.len() - 1] == r);
}

proof fn lemma_tells_of_first(g: HeadText, rows: Seq<FailureRow>)
    requires
        rows.len() > 0,
        forall|k: int|
            0 <= k < rows.len() - 1 ==> row_head(#[trigger] rows[k]) != row_head(rows.last()),
        g == (HeadText {
            head: row_head(rows.last()),
            fids: seq![rows.last().event@],
            total: 1,
            first: rows.last().ts@,
            last: rows.last().ts@,
        }),
    ensures
        tells_of(g, rows),
{
    let front = rows.drop_last();
    reveal(Seq::filter);
    assert forall|k: int| 0 <= k < front.len() implies row_head(#[trigger] front[k]) != g.head by {
        assert(front[k] == rows[k]);
    }
    lemma_no_hit(front, g.head);
    assert forall|f: Seq<char>| #[trigger] g.fids.contains(f) == hit_in(rows, g.head, f) by {
        lemma_hit_in(rows, g.head, f);
        assert(g.fids[0] == rows.last().event@);
    }
    assert(rows[rows.len() - 1] == rows.last());
}

proof fn lemma_head_groups(rows: Seq<FailureRow>)
    ensures
        order::unique(head_groups(rows), group_head()),
        forall|i: int|
            0 <= i < head_groups(rows).len() ==> tells_of(#[trigger] head_groups(rows)[i], rows),
        forall|k: int|
            0 <= k < rows.len() ==> head_index(head_groups(rows), row_head(#[trigger] rows[k]), 0)
                is Some,
    decreases rows.len(),
{
    if rows.len() > 0 {
        let front = rows.drop_last();
        let g = head_groups(front);
        let r = rows.last();
        lemma_head_groups(front);
        lemma_head_index(g, row_head(r), 0);
        let all = head_groups(rows);
        let key = group_head();
        assert forall|i: int, j: int| 0 <= i < j < all.len() implies key(#[trigger] all[i]) != key(
            #[trigger] all[j],
        ) by {
            if j < g.len() {
                assert(key(g[i]) != key(g[j]));
            }
        }
        assert forall|i: int| 0 <= i < all.len() implies tells_of(#[trigger] all[i], rows) by {
            match head_index(g, row_head(r), 0) {
                Some(m) => {
                    assert(tells_of(g[i], front));
                    if i == m {
                        lemma_tells_of_row(g[i], rows);
                    } else {
                        if i < m {
                            assert(key(g[i]) != key(g[m]));
                        } else {
                            assert(key(g[m]) != key(g[i]));
                        }
                        lemma_tells_of_more(g[i], rows);
                    }
                },
                None => if i < g.len() {
                    assert(tells_of(g[i], front));
                    lemma_tells_of_more(g[i], rows);
                } else {
                    assert forall|k: int| 0 <= k < rows.len() - 1 implies row_head(
                        #[trigger] rows[k],
                    ) != row_head(r) by {
                        assert(rows[k] == front[k]);
                    }
                    lemma_tells_of_first(all[i], rows);
                },
            }
        }
        assert forall|k: int| 0 <= k < rows.len() implies head_index(
            all,
            row_head(#[trigger] rows[k]),
            0,
        ) is Some by {
            let head = row_head(rows[k]);
            lemma_head_index(all, head, 0);
            if k < front.len() {
                assert(rows[k] == front[k]);
                lemma_head_index(g, head, 0);
                let m = head_index(g, head, 0)->0;
                assert(all[m].head == head);
            } else {
                match head_index(g, head, 0) {
                    Some(m) => assert(all[m].head == head),
                    None => assert(all[g.len() as int].head == head),
                }
            }
        }
    }
}

proof fn lemma_storm_le_total()
    ensures
        order::total(storm_le()),
{
    let le = storm_le();
    assert forall|a: StormText, b: StormText| #[trigger] le(a, b) || #[trigger] le(b, a) by {
        text::lemma_text_le_total(a.head, b.head);
    }
    assert forall|a: StormText, b: StormText, c: StormText| #[trigger] le(a, b) && #[trigger] le(
        b,
        c,
    ) implies le(a, c) by {
        if a.distinct_fids == b.distinct_fids && b.distinct_fids == c.distinct_fids {
            text::lemma_text_le_trans(a.head, b.head, c.head);
        }
    }
}

/// A failure of the store that lies in the window, with this head.
pub open spec fn counts(r: FailureRow, start: Seq<char>, head: Seq<char>) -> bool {
    failing(r) && text::text_le(start, r.ts@) && row_head(r) == head
}

/// The workers that failed in the window with this head.
pub open spec fn workers_hit(rows: Seq<FailureRow>, start: Seq<char>, head: Seq<char>) -> Set<
    Seq<char>,
> {
    Set::new(
        |f: Seq<char>|
            exists|k: int|
                0 <= k < rows.len() && counts(#[trigger] rows[k], start, head) && rows[k].event@
                    == f,
    )
}

proof fn lemma_recent(rows: Seq<FailureRow>, start: Seq<char>, r: FailureRow)
    ensures
        recent_failures(rows, start).contains(r) == (rows.contains(r) && failing(r)
            && text::text_le(start, r.ts@)),
{
    let bad = |r: FailureRow| failing(r);
    let kept = rows.filter(bad);
    let ordered = failures_in_order(rows);
    lemma_row_le_total();
    order::lemma_sorted_contains(kept, row_le(), r);
    lemma_filter_holds(rows, bad, r);
    lemma_filter_holds(ordered, in_window(start), r);
}

proof fn lemma_filter_holds(s: Seq<FailureRow>, keep: spec_fn(FailureRow) -> bool, r: FailureRow)
    ensures
        s.filter(keep).contains(r) == (s.contains(r) && keep(r)),
{
    if s.filter(keep).contains(r) {
        s.lemma_filter_contains_rev(keep, r);
        let i = choose|i: int| 0 <= i < s.filter(keep).len() && s.filter(keep)[i] == r;
        s.lemma_filter_pred(keep, i);
    }
    if s.contains(r) && keep(r) {
        let i = choose|i: int| 0 <= i < s.len() && s[i] == r;
        s.lemma_filter_contains(keep, i);
    }
}

proof fn lemma_workers_hit(rows: Seq<FailureRow>, start: Seq<char>, g: HeadText)
    requires
        tells_of(g, recent_failures(rows, start)),
    ensures
        g.fids.to_set() =~= workers_hit(rows, start, g.head),
        workers_hit(rows, start, g.head).finite(),
        workers_hit(rows, start, g.head).len() == g.fids.len(),
{
    let recent = recent_failures(rows, start);
    let hit = workers_hit(rows, start, g.head);
    assert forall|f: Seq<char>| g.fids.to_set().contains(f) == hit.contains(f) by {
        assert(g.fids.contains(f) == hit_in(recent, g.head, f));
        if hit_in(recent, g.head, f) {
            let k = choose|k: int|
                0 <= k < recent.len() && row_head(#[trigger] recent[k]) == g.head
                    && recent[k].event@ == f;
            assert(recent.contains(recent[k]));
            lemma_recent(rows, start, recent[k]);
            let m = choose|m: int| 0 <= m < rows.len() && rows[m] == recent[k];
            assert(counts(rows[m], start, g.head));
        }
        if hit.contains(f) {
            let m = choose|m: int|
                0 <= m < rows.len() && counts(#[trigger] rows[m], start, g.head)
                    && rows[m].event@ == f;
            assert(rows.contains(rows[m]));
            lemma_recent(rows, start, rows[m]);
            let k = choose|k: int| 0 <= k < recent.len() && recent[k] == rows[m];
            assert(row_head(recent[k]) == g.head);
        }
    }
    assert(g.fids.to_set() =~= hit);
    g.fids.unique_seq_to_set();
}

/// What a storm says of the rows in its window.
pub open spec fn storm_holds(
    s: StormText,
    rows: Seq<FailureRow>,
    start: Seq<char>,
    threshold: int,
) -> bool {
    let hit = workers_hit(rows, start, s.head);
    &&& hit.finite()
    &&& s.distinct_fids == hit.len()
    &&& s.distinct_fids >= threshold
    &&& s.total_rows == recent_failures(rows, start).filter(with_head(s.head)).len()
    &&& text::text_le(start, s.first_ts)
    &&& text::text_le(start, s.last_ts)
    &&& s.sample_fids.no_duplicates()
    &&& s.sample_fids.len() == if s.distinct_fids <= STORM_SAMPLE {
        s.distinct_fids
    } else {
        STORM_SAMPLE as int
    }
    &&& forall|i: int| 0 <= i < s.sample_fids.len() ==> hit.contains(#[trigger] s.sample_fids[i])
}

proof fn lemma_storm_of(rows: Seq<FailureRow>, start: Seq<char>, threshold: int, g: HeadText)
    requires
        tells_of(g, recent_failures(rows, start)),
        g.fids.len() >= threshold,
    ensures
        storm_holds(as_storm()(g), rows, start, threshold),
{
    let recent = recent_failures(rows, start);
    let s = as_storm()(g);
    let fids = g.fids;
    let sorted = order::sorted(fids, text::by_text());
    lemma_workers_hit(rows, start, g);
    text::lemma_by_text_total();
    order::lemma_sorted(fids, text::by_text());
    fids.lemma_multiset_has_no_duplicates();
    sorted.lemma_multiset_has_no_duplicates_conv();
    assert forall|i: int| 0 <= i < s.sample_fids.len() implies workers_hit(
        rows,
        start,
        s.head,
    ).contains(#[trigger] s.sample_fids[i]) by {
        assert(s.sample_fids[i] == sorted[i]);
        assert(sorted.contains(sorted[i]));
        order::lemma_sorted_contains(fids, text::by_text(), sorted[i]);
        assert(fids.to_set().contains(sorted[i]));
    }
    let a = choose|k: int| 0 <= k < recent.len() && (#[trigger] recent[k]).ts@ == g.first;
    let b = choose|k: int| 0 <= k < recent.len() && (#[trigger] recent[k]).ts@ == g.last;
    assert(recent.contains(recent[a]) && recent.contains(recent[b]));
    lemma_recent(rows, start, recent[a]);
    lemma_recent(rows, start, recent[b]);
}

/// One root cause is one storm: no two storms share their head, and the widest
/// comes first. A storm counts the workers that failed inside the window and
/// the rows inside it, and no others; it has hit as many workers as the
/// threshold asks, and names five of them or all.
pub proof fn law_storms(rows: Seq<FailureRow>, start: Seq<char>, threshold: int)
    ensures
        order::unique(storms(rows, start, threshold), storm_head()),
        order::ascending(storms(rows, start, threshold), storm_le()),
        forall|i: int|
            0 <= i < storms(rows, start, threshold).len() ==> storm_holds(
                #[trigger] storms(rows, start, threshold)[i],
                rows,
                start,
                threshold,
            ),
{
    let recent = recent_failures(rows, start);
    let groups = head_groups(recent);
    let wide = groups.filter(is_storm(threshold));
    let all = wide.map_values(as_storm());
    let key = group_head();
    let head = storm_head();
    lemma_head_groups(recent);
    order::lemma_filter_unique(groups, is_storm(threshold), group_head());
    assert forall|i: int, j: int| 0 <= i < j < all.len() implies head(#[trigger] all[i]) != head(
        #[trigger] all[j],
    ) by {
        assert(key(wide[i]) != key(wide[j]));
    }
    lemma_storm_le_total();
    order::lemma_sorted(all, storm_le());
    order::lemma_sorted_unique(all, storm_le(), storm_head());
    let r = storms(rows, start, threshold);
    assert forall|i: int| 0 <= i < r.len() implies storm_holds(
        #[trigger] r[i],
        rows,
        start,
        threshold,
    ) by {
        order::lemma_sorted_contains(all, storm_le(), r[i]);
        assert(r.contains(r[i]));
        let k = choose|k: int| 0 <= k < all.len() && all[k] == r[i];
        assert(is_storm(threshold)(wide[k]));
        assert(groups.contains(wide[k]));
        let m = choose|m: int| 0 <= m < groups.len() && groups[m] == wide[k];
        lemma_storm_of(rows, start, threshold, groups[m]);
    }
}

/// No storm is passed over: where as many workers as the threshold asks failed
/// inside the window with one head, there is a storm with that head.
pub proof fn law_every_storm_is_told(
    rows: Seq<FailureRow>,
    start: Seq<char>,
    threshold: int,
    head: Seq<char>,
)
    requires
        threshold > 0,
        workers_hit(rows, start, head).finite(),
        workers_hit(rows, start, head).len() >= threshold,
    ensures
        exists|i: int|
            0 <= i < storms(rows, start, threshold).len() && (#[trigger] storms(
                rows,
                start,
                threshold,
            )[i]).head == head,
{
    let recent = recent_failures(rows, start);
    let groups = head_groups(recent);
    let wide = groups.filter(is_storm(threshold));
    let all = wide.map_values(as_storm());
    let r = storms(rows, start, threshold);
    let hit = workers_hit(rows, start, head);
    let f = hit.choose();
    assert(hit.contains(f));
    let m = choose|m: int|
        0 <= m < rows.len() && counts(#[trigger] rows[m], start, head) && rows[m].event@ == f;
    assert(rows.contains(rows[m]));
    lemma_recent(rows, start, rows[m]);
    let k = choose|k: int| 0 <= k < recent.len() && recent[k] == rows[m];
    lemma_head_groups(recent);
    assert(row_head(recent[k]) == head);
    lemma_head_index(groups, head, 0);
    let g = head_index(groups, head, 0)->0;
    lemma_workers_hit(rows, start, groups[g]);
    assert(is_storm(threshold)(groups[g]));
    groups.lemma_filter_contains(is_storm(threshold), g);
    let j = choose|j: int| 0 <= j < wide.len() && wide[j] == groups[g];
    assert(all[j] == as_storm()(groups[g]));
    assert(all.contains(all[j]));
    lemma_storm_le_total();
    order::lemma_sorted_contains(all, storm_le(), all[j]);
    let i = choose|i: int| 0 <= i < r.len() && r[i] == all[j];
    assert(r[i].head == head);
}

pub open spec fn all_plain(s: Seq<char>) -> bool {
    forall|i: int| 0 <= i < s.len() ==> is_plain(#[trigger] s[i])
}

proof fn lemma_plain_split(s: Seq<char>)
    requires
        all_plain(s),
    ensures
        forall|i: int|
            0 <= i < text::split(s, '-').len() ==> all_plain(#[trigger] text::split(s, '-')[i]),
    decreases s.len(),
{
    if s.len() > 0 {
        let front = text::split(s.drop_last(), '-');
        let all = text::split(s, '-');
        lemma_plain_split(s.drop_last());
        text::lemma_split_nonempty(s.drop_last(), '-');
        assert(is_plain(s[s.len() - 1]));
        assert forall|i: int| 0 <= i < all.len() implies all_plain(#[trigger] all[i]) by {
            if i < front.len() - 1 {
                assert(all[i] == front[i]);
            } else if i < front.len() {
                assert(all_plain(front[i]));
            }
        }
    }
}

proof fn lemma_plain_join(parts: Seq<Seq<char>>)
    requires
        forall|i: int| 0 <= i < parts.len() ==> all_plain(#[trigger] parts[i]),
    ensures
        all_plain(text::join(parts, "-"@)),
    decreases parts.len(),
{
    reveal_strlit("-");
    if parts.len() > 1 {
        let front = parts.drop_last();
        assert forall|i: int| 0 <= i < front.len() implies all_plain(#[trigger] front[i]) by {
            assert(all_plain(parts[i]));
        }
        lemma_plain_join(front);
        assert(all_plain(parts[parts.len() - 1]));
    } else if parts.len() == 1 {
        assert(all_plain(parts[0]));
    }
}

/// A character that a cleaned identifier keeps.
pub open spec fn kept_char() -> spec_fn(char) -> bool {
    |c: char| is_plain(c) && c != '-'
}

/// No dash at either end, and no two dashes in a row.
pub open spec fn dashes_apart(s: Seq<char>) -> bool {
    &&& s.len() > 0 ==> s[0] != '-' && s.last() != '-'
    &&& forall|i: int| 0 <= i < s.len() - 1 && #[trigger] s[i] == '-' ==> s[i + 1] != '-'
}

/// The pieces of an identifier: not empty, without a dash, and plain.
pub open spec fn sound_pieces(parts: Seq<Seq<char>>) -> bool {
    forall|i: int|
        0 <= i < parts.len() ==> (#[trigger] parts[i]).len() > 0 && all_plain(parts[i])
            && text::free_of(parts[i], text::is_char('-'))
}

proof fn lemma_pieces(ident: Seq<char>)
    ensures
        sound_pieces(text::non_empty(text::split(plain_or_dash(ident), '-'))),
{
    let safe = plain_or_dash(ident);
    let parts = text::split(safe, '-');
    let kept = text::non_empty(parts);
    let keep = |p: Seq<char>| p.len() > 0;
    assert forall|i: int| 0 <= i < safe.len() implies is_plain(#[trigger] safe[i]) by {}
    lemma_plain_split(safe);
    text::lemma_split_free(safe, text::is_char('-'));
    assert forall|i: int| 0 <= i < kept.len() implies (#[trigger] kept[i]).len() > 0 && all_plain(
        kept[i],
    ) && text::free_of(kept[i], text::is_char('-')) by {
        parts.lemma_filter_pred(keep, i);
        assert(parts.filter(keep).contains(kept[i]));
        parts.lemma_filter_contains_rev(keep, kept[i]);
        let k = choose|k: int| 0 <= k < parts.len() && parts[k] == kept[i];
        assert(all_plain(parts[k]));
        assert(text::free_of(parts[k], text::is_char('-')));
    }
}

proof fn lemma_pieces_apart(parts: Seq<Seq<char>>)
    requires
        sound_pieces(parts),
    ensures
        dashes_apart(text::join(parts, "-"@)),
        parts.len() > 0 ==> text::join(parts, "-"@).len() > 0,
    decreases parts.len(),
{
    reveal_strlit("-");
    let dash = text::is_char('-');
    if parts.len() > 0 {
        let last = parts.last();
        assert(parts[parts.len() - 1].len() > 0 && text::free_of(parts[parts.len() - 1], dash));
        assert forall|i: int| 0 <= i < last.len() implies #[trigger] last[i] != '-' by {
            assert(!dash(last[i]));
        }
        if parts.len() > 1 {
            let front = parts.drop_last();
            assert forall|i: int| 0 <= i < front.len() implies (#[trigger] front[i]).len() > 0
                && all_plain(front[i]) && text::free_of(front[i], dash) by {
                assert(front[i] == parts[i]);
            }
            lemma_pieces_apart(front);
            let f = text::join(front, "-"@);
            let j = text::join(parts, "-"@);
            assert(j =~= f + "-"@ + last);
            assert forall|i: int| 0 <= i < j.len() - 1 && #[trigger] j[i] == '-' implies j[i + 1]
                != '-' by {
                if i < f.len() {
                    assert(j[i] == f[i]);
                    if i + 1 < f.len() {
                        assert(j[i + 1] == f[i + 1]);
                    } else {
                        assert(f.last() == f[i]);
                    }
                } else if i == f.len() {
                    assert(j[i + 1] == last[0]);
                } else {
                    assert(j[i] == last[i - f.len() - 1]);
                }
            }
            assert(j[0] == f[0]);
            assert(j.last() == last[last.len() - 1]);
        }
    }
}

proof fn lemma_filter_char(s: Seq<char>, c: char, keep: spec_fn(char) -> bool)
    ensures
        s.push(c).filter(keep) == if keep(c) {
            s.filter(keep).push(c)
        } else {
            s.filter(keep)
        },
{
    reveal(Seq::filter);
    assert(s.push(c).drop_last() =~= s);
}

/// Joining what is left of the pieces of a text keeps its other characters.
proof fn lemma_pieces_keep(s: Seq<char>)
    ensures
        text::join(text::non_empty(text::split(s, '-')), "-"@).filter(kept_char()) == s.filter(
            kept_char(),
        ),
    decreases s.len(),
{
    reveal_strlit("-");
    reveal(Seq::filter);
    let keep = kept_char();
    let parts = text::split(s, '-');
    let empty = Seq::<char>::empty();
    if s.len() == 0 {
        let none = Seq::<Seq<char>>::empty();
        assert(parts =~= none.push(empty));
        text::lemma_non_empty_push(none, empty);
        assert(text::non_empty(none) =~= none);
    } else {
        let front = text::split(s.drop_last(), '-');
        let c = s.last();
        lemma_pieces_keep(s.drop_last());
        text::lemma_split_nonempty(s.drop_last(), '-');
        let before = text::non_empty(front.drop_last());
        assert(front =~= front.drop_last().push(front.last()));
        text::lemma_non_empty_push(front.drop_last(), front.last());
        if c == '-' {
            text::lemma_non_empty_push(front, empty);
        } else {
            let old_last = front.last();
            let new_last = old_last.push(c);
            text::lemma_non_empty_push(front.drop_last(), new_last);
            text::lemma_join_push(before, new_last, "-"@);
            text::lemma_join_push(before, old_last, "-"@);
            let b = text::join(before, "-"@);
            let j = text::join(text::non_empty(parts), "-"@);
            let old_j = text::join(text::non_empty(front), "-"@);
            if old_last.len() > 0 {
                if before.len() == 0 {
                    assert(j =~= old_j.push(c));
                } else {
                    assert(b + "-"@ + new_last =~= (b + "-"@ + old_last).push(c));
                }
                lemma_filter_char(old_j, c, keep);
            } else {
                assert(new_last =~= empty.push(c));
                if before.len() == 0 {
                    assert(j =~= empty.push(c));
                    assert(old_j =~= empty);
                    lemma_filter_char(empty, c, keep);
                } else {
                    assert(j =~= b.push('-').push(c));
                    lemma_filter_char(b.push('-'), c, keep);
                    lemma_filter_char(b, '-', keep);
                }
            }
            assert(s =~= s.drop_last().push(c));
            lemma_filter_char(s.drop_last(), c, keep);
        }
    }
}

proof fn lemma_plain_keeps(ident: Seq<char>)
    ensures
        plain_or_dash(ident).filter(kept_char()) == ident.filter(kept_char()),
    decreases ident.len(),
{
    reveal(Seq::filter);
    if ident.len() > 0 {
        lemma_plain_keeps(ident.drop_last());
        assert(plain_or_dash(ident).drop_last() =~= plain_or_dash(ident.drop_last()));
    }
}

/// A cleaned identifier has letters, digits, dots, underscores and dashes only,
/// no dash at its ends and no two in a row; it keeps all that may stand in a
/// file name, in order; and cleaning it again changes nothing.
pub proof fn law_cleaned(ident: Seq<char>)
    ensures
        all_plain(cleaned(ident)),
        dashes_apart(cleaned(ident)),
        cleaned(ident).filter(kept_char()) == ident.filter(kept_char()),
        cleaned(cleaned(ident)) == cleaned(ident),
{
    let kept = text::non_empty(text::split(plain_or_dash(ident), '-'));
    let c = cleaned(ident);
    lemma_pieces(ident);
    lemma_plain_join(kept);
    lemma_pieces_apart(kept);
    lemma_pieces_keep(plain_or_dash(ident));
    lemma_plain_keeps(ident);
    assert(plain_or_dash(c) =~= c) by {
        assert forall|i: int| 0 <= i < c.len() implies plain_or_dash(c)[i] == c[i] by {
            assert(is_plain(c[i]));
        }
    }
    text::lemma_non_empty_all(kept);
    reveal_strlit("-");
    if kept.len() > 0 {
        assert forall|i: int| 0 <= i < kept.len() implies text::free_of(
            #[trigger] kept[i],
            text::is_char('-'),
        ) by {}
        text::lemma_split_join(kept, "-"@, text::is_char('-'));
    } else {
        let none = Seq::<Seq<char>>::empty();
        let empty = Seq::<char>::empty();
        assert(c =~= empty);
        assert(text::split(c, '-') =~= none.push(empty));
        text::lemma_non_empty_push(none, empty);
        assert(kept =~= none);
    }
}

/// The key of an alert may stand in a file name, whatever the identifier holds,
/// and the cleaned identifier has the key of the one that it came from.
pub proof fn law_alert_key(kind: Seq<char>, ident: Seq<char>)
    requires
        all_plain(kind),
    ensures
        key_of(kind, ident) == "failures-"@ + kind + "-"@ + cleaned(ident),
        all_plain(key_of(kind, ident)),
        key_of(kind, cleaned(ident)) == key_of(kind, ident),
{
    law_cleaned(ident);
    reveal_strlit("failures-");
    reveal_strlit("-");
}

// ── Laws of double fires ─────────────────────────────────────────────────────
/// Whether a row is one of a trigger and its time text lies from `lo` on and
/// before `hi`.
pub open spec fn is_row_between(
    r: EventRecord,
    fid: Seq<char>,
    lo: Seq<char>,
    hi: Seq<char>,
) -> bool {
    r.event@ == fid && r.ts is Some && text::text_le(lo, r.ts->0@) && !text::text_le(hi, r.ts->0@)
}

proof fn lemma_rows_between(
    rows: Seq<EventRecord>,
    fid: Seq<char>,
    lo: Seq<char>,
    hi: Seq<char>,
    n: int,
)
    requires
        0 <= n <= rows.len(),
    ensures
        rows_between(rows, fid, lo, hi, n) == rows.take(n).filter(
            |r: EventRecord| is_row_between(r, fid, lo, hi),
        ).len(),
    decreases n,
{
    reveal(Seq::filter);
    if n > 0 {
        lemma_rows_between(rows, fid, lo, hi, n - 1);
        assert(rows.take(n).drop_last() =~= rows.take(n - 1));
    }
}

/// How many rows a trigger has from a minute before second `at` on and before
/// half of `every` behind it.
pub open spec fn rows_around(
    rows: Seq<EventRecord>,
    fid: Seq<char>,
    at: int,
    every: int,
) -> int {
    rows.filter(
        |r: EventRecord|
            is_row_between(
                r,
                fid,
                rfc3339_text((at - 60) as i64, 0),
                rfc3339_text((at + every / 2) as i64, 0),
            ),
    ).len() as int
}

/// Seconds between the two latest fires of an expression, a day where only one is
/// known.
pub open spec fn pace(expr: Seq<char>, now: Moment) -> int {
    let f = cron_fires(expr, (now.secs + 1) as i64);
    if f.len() > 1 {
        f[0] - f[1]
    } else {
        86_400
    }
}

/// A trigger fired twice if and only if it left more than one row around its
/// latest fire at or before now: from a minute before it up to half the time
/// between two fires behind it, so that rows at the fire and behind it count. What
/// is told is its name, the fire and the number of those rows.
pub proof fn law_double_fires(exp: Seq<CronExpectation>, rows: Seq<EventRecord>, now: Moment, n: int)
    requires
        0 <= n <= exp.len(),
        forall|i: int| 0 <= i < n ==> pace((#[trigger] exp[i]).expr@, now) >= 0,
    ensures
        forall|i: int|
            0 <= i < n && cron_fires((#[trigger] exp[i]).expr@, (now.secs + 1) as i64).len() > 0
                && rows_around(
                rows,
                exp[i].fid@,
                cron_fires(exp[i].expr@, (now.secs + 1) as i64)[0] as int,
                pace(exp[i].expr@, now),
            ) >= 2 ==> duplicates(exp, rows, now, n).contains(
                DuplicateText {
                    fid: exp[i].fid@,
                    window_start: cron_fires(exp[i].expr@, (now.secs + 1) as i64)[0],
                    rows_in_window: rows_around(
                        rows,
                        exp[i].fid@,
                        cron_fires(exp[i].expr@, (now.secs + 1) as i64)[0] as int,
                        pace(exp[i].expr@, now),
                    ),
                },
            ),
        forall|k: int|
            0 <= k < duplicates(exp, rows, now, n).len() ==> is_double_of(
                #[trigger] duplicates(exp, rows, now, n)[k],
                exp,
                rows,
                now,
                n,
            ),
    decreases n,
{
    if n > 0 {
        law_double_fires(exp, rows, now, n - 1);
        let front = duplicates(exp, rows, now, n - 1);
        let all = duplicates(exp, rows, now, n);
        let e = exp[n - 1];
        let f = cron_fires(e.expr@, (now.secs + 1) as i64);
        if f.len() > 0 {
            let at = f[0] as int;
            let every = pace(e.expr@, now);
            lemma_rows_between(
                rows,
                e.fid@,
                rfc3339_text((at - 60) as i64, 0),
                rfc3339_text((at + every / 2) as i64, 0),
                rows.len() as int,
            );
            assert(rows.take(rows.len() as int) =~= rows);
            assert(rows_at_fire(e, rows, now) == rows_around(rows, e.fid@, at, every));
        }
        assert forall|i: int|
            0 <= i < n && cron_fires((#[trigger] exp[i]).expr@, (now.secs + 1) as i64).len() > 0
                && rows_around(
                rows,
                exp[i].fid@,
                cron_fires(exp[i].expr@, (now.secs + 1) as i64)[0] as int,
                pace(exp[i].expr@, now),
            ) >= 2 implies all.contains(
            DuplicateText {
                fid: exp[i].fid@,
                window_start: cron_fires(exp[i].expr@, (now.secs + 1) as i64)[0],
                rows_in_window: rows_around(
                    rows,
                    exp[i].fid@,
                    cron_fires(exp[i].expr@, (now.secs + 1) as i64)[0] as int,
                    pace(exp[i].expr@, now),
                ),
            },
        ) by {
            if i < n - 1 {
                let d = DuplicateText {
                    fid: exp[i].fid@,
                    window_start: cron_fires(exp[i].expr@, (now.secs + 1) as i64)[0],
                    rows_in_window: rows_around(
                        rows,
                        exp[i].fid@,
                        cron_fires(exp[i].expr@, (now.secs + 1) as i64)[0] as int,
                        pace(exp[i].expr@, now),
                    ),
                };
                assert(front.contains(d));
                let k = choose|k: int| 0 <= k < front.len() && front[k] == d;
                assert(all[k] == d);
            } else {
                assert(all[front.len() as int].fid == e.fid@);
            }
        }
        assert forall|k: int| 0 <= k < all.len() implies is_double_of(
            #[trigger] all[k],
            exp,
            rows,
            now,
            n,
        ) by {
            if k < front.len() {
                assert(all[k] == front[k]);
                assert(is_double_of(front[k], exp, rows, now, n - 1));
            } else {
                assert(doubles(all[k], exp[n - 1], rows, now));
            }
        }
    }
}

/// Whether a report is that of an expectation that fired twice.
pub open spec fn doubles(
    d: DuplicateText,
    e: CronExpectation,
    rows: Seq<EventRecord>,
    now: Moment,
) -> bool {
    let f = cron_fires(e.expr@, (now.secs + 1) as i64);
    &&& f.len() > 0
    &&& d.fid == e.fid@
    &&& d.window_start == f[0]
    &&& d.rows_in_window == rows_around(rows, e.fid@, f[0] as int, pace(e.expr@, now))
    &&& d.rows_in_window >= 2
}

pub open spec fn is_double_of(
    d: DuplicateText,
    exp: Seq<CronExpectation>,
    rows: Seq<EventRecord>,
    now: Moment,
    n: int,
) -> bool {
    exists|i: int| 0 <= i < n && doubles(d, #[trigger] exp[i], rows, now)
}

// ── Laws of expectations ─────────────────────────────────────────────────────
/// The fires that are expected are those of the cron triggers of workers that are
/// not disabled, all of them, in order.
pub proof fn law_expectations(regs: Seq<RegisteredTrigger>, disabled: Seq<Seq<char>>)
    ensures
        exists|at: Seq<int>| #[trigger] are_expected_at(expectations(regs, disabled), regs, disabled, at),
{
    let keep = |t: RegisteredTrigger| is_expected(t, disabled);
    let at = lists::lemma_filter_places(regs, keep);
    assert(regs.filter(keep).len() == at.len());
    assert(are_expected_at(expectations(regs, disabled), regs, disabled, at));
}

/// Whether expectations are those of the triggers at these places, which are the
/// places of cron triggers of workers that are not disabled.
pub open spec fn are_expected_at(
    e: Seq<CronText>,
    regs: Seq<RegisteredTrigger>,
    disabled: Seq<Seq<char>>,
    at: Seq<int>,
) -> bool {
    &&& e.len() == at.len()
    &&& forall|j: int, k: int| 0 <= j < k < at.len() ==> #[trigger] at[j] < #[trigger] at[k]
    &&& forall|k: int|
        0 <= k < at.len() ==> 0 <= #[trigger] at[k] < regs.len() && e[k].worker
            == regs[at[k]].worker@ && e[k].fid == regs[at[k]].fid@ && regs[at[k]].cron is Some
            && e[k].expr == regs[at[k]].cron->0@
    &&& forall|i: int|
        0 <= i < regs.len() ==> at.contains(i) == ((#[trigger] regs[i]).cron is Some
            && !disabled.contains(regs[i].worker@))
}

// ── Laws of overdue fires ────────────────────────────────────────────────────
/// A fire may take a quarter of the time between two fires, and in any case a
/// minute more than the longest run so far.
pub proof fn law_slack(every: int, longest: Option<i64>)
    requires
        every >= 0,
        longest is Some ==> longest->0 >= 0,
    ensures
        slack(every, longest) >= every / 4,
        slack(every, longest) >= 60,
        longest is Some ==> slack(every, longest) >= longest->0 / 1000 + 60,
        slack(every, longest) == every / 4 || slack(every, longest) == 60 || (longest is Some
            && slack(every, longest) == longest->0 / 1000 + 60),
        longest is Some ==> slack(every, longest) == every / 4 || slack(every, longest)
            == longest->0 / 1000 + 60,
{
}

/// The longest run of a trigger is that of one of its rows, and none took longer.
pub proof fn law_longest_run(rows: Seq<EventRecord>, fid: Seq<char>, n: int)
    requires
        0 <= n <= rows.len(),
    ensures
        match max_duration(rows, fid, n) {
            Some(d) => (exists|i: int|
                0 <= i < n && (#[trigger] rows[i]).event@ == fid && rows[i].duration_ms == Some(d))
                && forall|i: int|
                0 <= i < n && (#[trigger] rows[i]).event@ == fid && rows[i].duration_ms is Some
                    ==> rows[i].duration_ms->0 <= d,
            None => forall|i: int|
                0 <= i < n && (#[trigger] rows[i]).event@ == fid ==> rows[i].duration_ms is None,
        },
    decreases n,
{
    if n > 0 {
        law_longest_run(rows, fid, n - 1);
        if rows[n - 1].event@ == fid && rows[n - 1].duration_ms is Some {
            assert(rows[n - 1].duration_ms == Some(rows[n - 1].duration_ms->0));
        }
    }
}

/// A trigger has missed its latest fire if and only if it ran before, the time
/// that the fire may take is over, no row has come since it, nobody excuses it and
/// it fell into no time when nothing ran.
pub proof fn law_missed(
    e: CronExpectation,
    rows: Seq<EventRecord>,
    g: Seq<(Moment, Moment)>,
    now: Moment,
    excused: Seq<Seq<char>>,
)
    requires
        !has_unread(rows, e.fid@),
        cron_fires(e.expr@, (now.secs + 1) as i64).len() > 0,
    ensures
        ({
            let at = cron_fires(e.expr@, (now.secs + 1) as i64)[0];
            let over = now.secs * 1_000_000_000 + now.nanos >= (at + slack(
                pace(e.expr@, now),
                max_duration(rows, e.fid@, rows.len() as int),
            )) * 1_000_000_000;
            let ran = exists|i: int| 0 <= i < rows.len() && (#[trigger] rows[i]).event@ == e.fid@;
            let came = exists|i: int|
                0 <= i < rows.len() && (#[trigger] rows[i]).event@ == e.fid@ && rows[i].ts is Some
                    && text::text_le(rfc3339_text(at, 0), rows[i].ts->0@);
            let down = exists|k: int|
                0 <= k < g.len() && (#[trigger] g[k]).0.secs * 1_000_000_000 + g[k].0.nanos <= at
                    * 1_000_000_000 <= g[k].1.secs * 1_000_000_000 + g[k].1.nanos;
            &&& (verdict(e, rows, g, now, excused) is Missed) == (ran && over && !came
                && !excused.contains(e.fid@) && !down)
            &&& (verdict(e, rows, g, now, excused) is Down) == (ran && over && !came
                && !excused.contains(e.fid@) && down)
        }),
{
    let at = cron_fires(e.expr@, (now.secs + 1) as i64)[0];
    lemma_max_ts(rows, e.fid@, rows.len() as int);
    lemma_gap_around(g, at, 0);
    let since = rfc3339_text(at, 0);
    assert forall|i: int| 0 <= i < rows.len() implies seen_since(#[trigger] rows[i], e.fid@, since)
        == (rows[i].event@ == e.fid@ && rows[i].ts is Some && text::text_le(
        since,
        rows[i].ts->0@,
    )) by {
        assert(!is_unread(rows[i], e.fid@));
    }
}

proof fn lemma_gap_around(g: Seq<(Moment, Moment)>, at: i64, i: int)
    requires
        0 <= i,
    ensures
        match gap_around(g, at, i) {
            Some(k) => i <= k < g.len() && g[k].0.total() <= at * NANOS <= g[k].1.total(),
            None => forall|k: int|
                i <= k < g.len() ==> !((#[trigger] g[k]).0.total() <= at * NANOS
                    <= g[k].1.total()),
        },
    decreases g.len() - i,
{
    if i < g.len() && !(g[i].0.total() <= at * NANOS <= g[i].1.total()) {
        lemma_gap_around(g, at, i + 1);
    }
}

/// Nothing ran between two rows that follow each other if and only if more than
/// twice the shortest time between two fires lies between them.
pub proof fn law_times_when_nothing_ran(times: Seq<Moment>, shortest: int)
    ensures
        forall|k: int|
            0 <= k < gaps(times, shortest).len() ==> is_gap(
                #[trigger] gaps(times, shortest)[k],
                times,
                shortest,
            ),
        forall|i: int|
            0 <= i < times.len() - 1 && whole_seconds(
                (#[trigger] times[i + 1]).total() - times[i].total(),
            ) > 2 * shortest ==> gaps(times, shortest).contains((times[i], times[i + 1])),
    decreases times.len(),
{
    let all = gaps(times, shortest);
    if times.len() >= 2 {
        let short = times.drop_last();
        let front = gaps(short, shortest);
        law_times_when_nothing_ran(short, shortest);
        let n = times.len() as int;
        assert forall|k: int| 0 <= k < all.len() implies is_gap(
            #[trigger] all[k],
            times,
            shortest,
        ) by {
            if k < front.len() {
                assert(all[k] == front[k]);
                let i = choose|i: int|
                    0 <= i < short.len() - 1 && #[trigger] short[i + 1] == front[k].1 && short[i]
                        == front[k].0 && whole_seconds(
                        front[k].1.total() - front[k].0.total(),
                    ) > 2 * shortest;
                assert(times[i + 1] == all[k].1 && times[i] == all[k].0);
            } else {
                assert(times[n - 2 + 1] == all[k].1 && times[n - 2] == all[k].0);
            }
        }
        assert forall|i: int|
            0 <= i < times.len() - 1 && whole_seconds(
                (#[trigger] times[i + 1]).total() - times[i].total(),
            ) > 2 * shortest implies all.contains((times[i], times[i + 1])) by {
            if i < n - 2 {
                assert(short[i + 1] == times[i + 1] && short[i] == times[i]);
                assert(front.contains((times[i], times[i + 1])));
                let k = choose|k: int|
                    0 <= k < front.len() && front[k] == (times[i], times[i + 1]);
                assert(all[k] == (times[i], times[i + 1]));
            } else {
                assert(all[front.len() as int] == (times[i], times[i + 1]));
            }
        }
    }
}

pub open spec fn is_gap(g: (Moment, Moment), times: Seq<Moment>, shortest: int) -> bool {
    exists|i: int|
        0 <= i < times.len() - 1 && #[trigger] times[i + 1] == g.1 && times[i] == g.0
            && whole_seconds(g.1.total() - g.0.total()) > 2 * shortest
}

/// The timeline looks back over 36 hours: it holds, in their order, the readable
/// time texts from then on, and nothing older.
pub proof fn law_timeline(rows: Seq<EventRecord>, now: Moment, t: Seq<char>)
    ensures
        timeline(rows, now).contains(t) == exists|i: int|
            0 <= i < rows.len() && (#[trigger] rows[i]).ts is Some && rows[i].ts->0@ == t
                && text::text_le(rfc3339_text((now.secs - 36 * 3600) as i64, now.nanos), t),
        order::ascending(timeline(rows, now), text::by_text()),
{
    let since = rfc3339_text((now.secs - 36 * 3600) as i64, now.nanos);
    let keep = |r: EventRecord| is_since(r, since);
    let kept = timeline_rows(rows, now);
    assert(kept == rows.filter(keep));
    let at = lists::lemma_filter_places(rows, keep);
    lemma_ts_texts(kept, t);
    text::lemma_by_text_total();
    order::lemma_sorted(ts_texts(kept), text::by_text());
    order::lemma_sorted_contains(ts_texts(kept), text::by_text(), t);
    if ts_texts(kept).contains(t) {
        let k = choose|k: int|
            0 <= k < kept.len() && (#[trigger] kept[k]).ts is Some && kept[k].ts->0@ == t;
        assert(at.contains(at[k]));
        assert(rows[at[k]] == kept[k]);
    }
    if exists|i: int|
        0 <= i < rows.len() && (#[trigger] rows[i]).ts is Some && rows[i].ts->0@ == t
            && text::text_le(since, t) {
        let i = choose|i: int|
            0 <= i < rows.len() && (#[trigger] rows[i]).ts is Some && rows[i].ts->0@ == t
                && text::text_le(since, t);
        assert(at.contains(i));
        let k = choose|k: int| 0 <= k < at.len() && at[k] == i;
        assert(kept[k].ts is Some);
    }
}

proof fn lemma_ts_texts(rows: Seq<EventRecord>, t: Seq<char>)
    ensures
        ts_texts(rows).contains(t) == exists|k: int|
            0 <= k < rows.len() && (#[trigger] rows[k]).ts is Some && rows[k].ts->0@ == t,
    decreases rows.len(),
{
    if rows.len() > 0 {
        let front = rows.drop_last();
        lemma_ts_texts(front, t);
        let a = ts_texts(front);
        let b = ts_texts(rows);
        if b.contains(t) {
            let k = choose|k: int| 0 <= k < b.len() && b[k] == t;
            if k < a.len() {
                assert(a[k] == t);
                let m = choose|m: int|
                    0 <= m < front.len() && (#[trigger] front[m]).ts is Some && front[m].ts->0@ == t;
                assert(rows[m].ts is Some);
            } else {
                assert(rows[rows.len() - 1].ts is Some);
            }
        }
        if exists|k: int|
            0 <= k < rows.len() && (#[trigger] rows[k]).ts is Some && rows[k].ts->0@ == t {
            let k = choose|k: int|
                0 <= k < rows.len() && (#[trigger] rows[k]).ts is Some && rows[k].ts->0@ == t;
            if k < front.len() {
                assert(front[k].ts is Some);
                let m = choose|m: int| 0 <= m < a.len() && a[m] == t;
                assert(b[m] == t);
            } else {
                assert(b[a.len() as int] == t);
            }
        }
    }
}

/// The pace by which times without a row are judged is that of the trigger that
/// fires most often, a quarter of an hour where none is known.
pub proof fn law_shortest_pace(exp: Seq<CronExpectation>, now: Moment, n: int)
    requires
        0 <= n <= exp.len(),
    ensures
        match min_cadence(exp, now, n) {
            Some(c) => (exists|i: int|
                0 <= i < n && cadence((#[trigger] exp[i]).expr@, now) == Some(c)) && forall|i: int|
                0 <= i < n && cadence((#[trigger] exp[i]).expr@, now) is Some ==> c <= cadence(
                    exp[i].expr@,
                    now,
                )->0,
            None => forall|i: int|
                0 <= i < n ==> cadence((#[trigger] exp[i]).expr@, now) is None,
        },
        exp.len() == 0 ==> shortest_cadence(exp, now) == 900,
    decreases n,
{
    if n > 0 {
        law_shortest_pace(exp, now, n - 1);
        let c = cadence(exp[n - 1].expr@, now);
        assert(c is Some ==> cadence(exp[n - 1].expr@, now) == Some(c->0));
    }
}

// ── Laws of signatures ───────────────────────────────────────────────────────
/// Rows that tell of an error, a panic or a failure are failures, and no others.
pub proof fn law_what_fails(r: FailureRow)
    ensures
        failing(r) == (r.status@ == "error"@ || r.status@ == "panic"@ || r.status@ == "failed"@),
{
}

/// A window of so many hours starts that many times 3600 seconds before now.
pub proof fn law_window(now: Moment, hours: int)
    ensures
        window_start(now, hours) == rfc3339_text((now.secs - hours * 3600) as i64, now.nanos),
        window_start(now, 0) == rfc3339_text(now.secs, now.nanos),
{
}

/// Whether a row is a failure of that trigger with that head.
pub open spec fn is_failure_of(r: FailureRow, fid: Seq<char>, head: Seq<char>) -> bool {
    (r.status@ == "error"@ || r.status@ == "panic"@ || r.status@ == "failed"@) && r.event@ == fid
        && head_of(
        match r.detail {
            Some(d) => d@,
            None => Seq::empty(),
        },
    ) == head
}

/// Whether a signature is that of the failures of its trigger with its head: it
/// counts them all, and the first and the last of them are those that it names.
pub open spec fn is_signature_of(s: SigText, rows: Seq<FailureRow>) -> bool {
    &&& s.count == rows.filter(|r: FailureRow| is_failure_of(r, s.fid, s.head)).len()
    &&& exists|i: int|
        0 <= i < rows.len() && is_failure_of(#[trigger] rows[i], s.fid, s.head) && rows[i].ts@
            == s.first_seen
    &&& exists|i: int|
        0 <= i < rows.len() && is_failure_of(#[trigger] rows[i], s.fid, s.head) && rows[i].ts@
            == s.last_seen
    &&& forall|i: int|
        0 <= i < rows.len() && is_failure_of(#[trigger] rows[i], s.fid, s.head) ==> text::text_le(
            s.first_seen,
            rows[i].ts@,
        ) && text::text_le(rows[i].ts@, s.last_seen)
}

proof fn lemma_groups_are_signatures(rows: Seq<FailureRow>)
    requires
        order::ascending(rows, row_le()),
        forall|i: int| 0 <= i < rows.len() ==> failing(#[trigger] rows[i]),
    ensures
        forall|k: int|
            0 <= k < sig_groups(rows).len() ==> is_signature_of(#[trigger] sig_groups(rows)[k], rows),
        forall|i: int|
            0 <= i < rows.len() ==> sig_index(
                sig_groups(rows),
                (#[trigger] rows[i]).event@,
                row_head(rows[i]),
                0,
            ) is Some,
    decreases rows.len(),
{
    if rows.len() > 0 {
        let n = rows.len() - 1;
        let front = rows.drop_last();
        let r = rows.last();
        assert forall|i: int, j: int| 0 <= i < j < front.len() implies #[trigger] row_le()(
            front[i],
            front[j],
        ) by {
            assert(row_le()(rows[i], rows[j]));
        }
        assert forall|i: int| 0 <= i < front.len() implies failing(#[trigger] front[i]) by {
            assert(failing(rows[i]));
        }
        lemma_groups_are_signatures(front);
        lemma_sig_groups(front);
        let g = sig_groups(front);
        let all = sig_groups(rows);
        lemma_sig_index(g, r.event@, row_head(r), 0);
        assert(failing(rows[n]));
        assert forall|k: int| 0 <= k < all.len() implies is_signature_of(
            #[trigger] all[k],
            rows,
        ) by {
            let s = all[k];
            let keep = |x: FailureRow| is_failure_of(x, s.fid, s.head);
            assert(rows =~= front.push(r));
            assert(rows.filter(keep).len() == front.filter(keep).len() + if keep(r) {
                1int
            } else {
                0
            }) by {
                reveal(Seq::filter);
            }
            if k < g.len() {
                let o = g[k];
                assert(is_signature_of(o, front));
                assert(o.fid == s.fid && o.head == s.head && o.first_seen == s.first_seen);
                assert(front.filter(|x: FailureRow| is_failure_of(x, o.fid, o.head)).len()
                    == o.count);
                assert((|x: FailureRow| is_failure_of(x, o.fid, o.head)) == keep);
                let a = choose|a: int|
                    0 <= a < front.len() && is_failure_of(#[trigger] front[a], o.fid, o.head)
                        && front[a].ts@ == o.first_seen;
                let b = choose|b: int|
                    0 <= b < front.len() && is_failure_of(#[trigger] front[b], o.fid, o.head)
                        && front[b].ts@ == o.last_seen;
                assert(rows[a] == front[a] && rows[b] == front[b]);
                if keep(r) {
                    if sig_index(g, r.event@, row_head(r), 0) != Some(k) {
                        let m = sig_index(g, r.event@, row_head(r), 0)->0;
                        let key = sig_key();
                        assert(key(g[m]) == key(g[k]));
                    }
                    assert(is_failure_of(rows[n], s.fid, s.head) && rows[n].ts@ == s.last_seen);
                    assert(row_le()(rows[a], rows[n]));
                } else {
                    assert(s == o);
                    assert(is_failure_of(rows[b], s.fid, s.head) && rows[b].ts@ == s.last_seen);
                }
                assert(is_failure_of(rows[a], s.fid, s.head) && rows[a].ts@ == s.first_seen);
                assert forall|i: int|
                    0 <= i < rows.len() && is_failure_of(
                        #[trigger] rows[i],
                        s.fid,
                        s.head,
                    ) implies text::text_le(s.first_seen, rows[i].ts@) && text::text_le(
                    rows[i].ts@,
                    s.last_seen,
                ) by {
                    if i < n {
                        assert(rows[i] == front[i]);
                        if keep(r) {
                            assert(row_le()(rows[i], rows[n]));
                        }
                    } else {
                        text::lemma_text_le_total(r.ts@, r.ts@);
                    }
                }
            } else {
                assert(front.filter(keep).len() == 0) by {
                    if front.filter(keep).len() > 0 {
                        let at = lists::lemma_filter_places(front, keep);
                        assert(at.contains(at[0]));
                        assert(keep(front[at[0]]));
                        assert(sig_index(
                            g,
                            front[at[0]].event@,
                            row_head(front[at[0]]),
                            0,
                        ) is Some);
                    }
                }
                assert(is_failure_of(rows[n], s.fid, s.head));
                text::lemma_text_le_total(r.ts@, r.ts@);
                assert forall|i: int|
                    0 <= i < rows.len() && is_failure_of(
                        #[trigger] rows[i],
                        s.fid,
                        s.head,
                    ) implies i == n by {
                    if i < n {
                        assert(rows[i] == front[i]);
                        let at = lists::lemma_filter_places(front, keep);
                        assert(at.contains(i));
                    }
                }
            }
        }
        assert forall|i: int| 0 <= i < rows.len() implies sig_index(
            all,
            (#[trigger] rows[i]).event@,
            row_head(rows[i]),
            0,
        ) is Some by {
            lemma_sig_index(all, rows[i].event@, row_head(rows[i]), 0);
            if i < n {
                assert(rows[i] == front[i]);
                lemma_sig_index(g, front[i].event@, row_head(front[i]), 0);
                let m = sig_index(g, front[i].event@, row_head(front[i]), 0)->0;
                assert(all[m].fid == g[m].fid && all[m].head == g[m].head);
            } else {
                let m = match sig_index(g, r.event@, row_head(r), 0) {
                    Some(m) => m,
                    None => g.len() as int,
                };
                assert(all[m].fid == r.event@ && all[m].head == row_head(r));
            }
        }
    }
}

/// Every signature is that of failures of the store, all of them counted; and
/// every failure inside the window has its signature.
pub proof fn law_signatures_count_every_failure(rows: Seq<FailureRow>, start: Seq<char>)
    ensures
        forall|k: int|
            0 <= k < signatures(rows, start).len() ==> is_signature_of(
                #[trigger] signatures(rows, start)[k],
                rows,
            ),
        forall|i: int|
            0 <= i < rows.len() && failing(#[trigger] rows[i]) && text::text_le(start, rows[i].ts@)
                ==> has_signature(signatures(rows, start), rows[i]),
{
    let bad = |r: FailureRow| failing(r);
    let kept = rows.filter(bad);
    let ordered = failures_in_order(rows);
    let at = lists::lemma_filter_places(rows, bad);
    lemma_row_le_total();
    order::lemma_sorted(kept, row_le());
    assert forall|i: int| 0 <= i < ordered.len() implies failing(#[trigger] ordered[i]) by {
        order::lemma_sorted_contains(kept, row_le(), ordered[i]);
        assert(ordered.contains(ordered[i]));
        let k = choose|k: int| 0 <= k < kept.len() && kept[k] == ordered[i];
        assert(at.contains(at[k]));
    }
    lemma_groups_are_signatures(ordered);
    let groups = sig_groups(ordered);
    let by_key = order::sorted(groups, sig_key_le());
    let active = by_key.filter(active_since(start));
    let all = active.map_values(marked(start));
    let r = signatures(rows, start);
    lemma_sig_key_le_total();
    assert(order::total(sig_rank_le()));
    assert forall|k: int| 0 <= k < r.len() implies is_signature_of(#[trigger] r[k], rows) by {
        order::lemma_sorted_contains(all, sig_rank_le(), r[k]);
        assert(r.contains(r[k]));
        let a = choose|a: int| 0 <= a < all.len() && all[a] == r[k];
        let places = lists::lemma_filter_places(by_key, active_since(start));
        assert(by_key[places[a]] == active[a]);
        assert(by_key.contains(active[a]));
        order::lemma_sorted_contains(groups, sig_key_le(), active[a]);
        let m = choose|m: int| 0 <= m < groups.len() && groups[m] == active[a];
        assert(is_signature_of(groups[m], ordered));
        lemma_signature_of_all(groups[m], r[k], rows);
    }
    assert forall|i: int|
        0 <= i < rows.len() && failing(#[trigger] rows[i]) && text::text_le(
            start,
            rows[i].ts@,
        ) implies has_signature(r, rows[i]) by {
        assert(at.contains(i));
        let k = choose|k: int| 0 <= k < at.len() && at[k] == i;
        assert(kept[k] == rows[i]);
        assert(kept.contains(rows[i]));
        order::lemma_sorted_contains(kept, row_le(), rows[i]);
        let o = choose|o: int| 0 <= o < ordered.len() && ordered[o] == rows[i];
        assert(sig_index(groups, ordered[o].event@, row_head(ordered[o]), 0) is Some);
        lemma_sig_index(groups, ordered[o].event@, row_head(ordered[o]), 0);
        let m = sig_index(groups, ordered[o].event@, row_head(ordered[o]), 0)->0;
        let s = groups[m];
        assert(is_signature_of(s, ordered));
        assert(is_failure_of(ordered[o], s.fid, s.head));
        text::lemma_text_le_trans(start, rows[i].ts@, s.last_seen);
        assert(groups.contains(s));
        order::lemma_sorted_contains(groups, sig_key_le(), s);
        let b = choose|b: int| 0 <= b < by_key.len() && by_key[b] == s;
        let places = lists::lemma_filter_places(by_key, active_since(start));
        assert(places.contains(b));
        let a = choose|a: int| 0 <= a < places.len() && places[a] == b;
        assert(active[a] == s);
        assert(all[a] == marked(start)(s));
        assert(all.contains(all[a]));
        order::lemma_sorted_contains(all, sig_rank_le(), all[a]);
        let c = choose|c: int| 0 <= c < r.len() && r[c] == all[a];
        assert(r[c].fid == rows[i].event@ && r[c].head == row_head(rows[i]));
    }
}

/// Whether a failure has a signature.
pub open spec fn has_signature(s: Seq<SigText>, r: FailureRow) -> bool {
    exists|k: int| 0 <= k < s.len() && is_failure_of(r, (#[trigger] s[k]).fid, s[k].head)
}

proof fn lemma_signature_of_all(s: SigText, t: SigText, rows: Seq<FailureRow>)
    requires
        is_signature_of(s, failures_in_order(rows)),
        t.fid == s.fid,
        t.head == s.head,
        t.count == s.count,
        t.first_seen == s.first_seen,
        t.last_seen == s.last_seen,
    ensures
        is_signature_of(t, rows),
{
    let bad = |r: FailureRow| failing(r);
    let keep = |r: FailureRow| is_failure_of(r, s.fid, s.head);
    let kept = rows.filter(bad);
    let ordered = failures_in_order(rows);
    let at = lists::lemma_filter_places(rows, bad);
    lemma_row_le_total();
    order::lemma_sorted_filter_len(kept, row_le(), keep);
    lists::lemma_filter_filter(rows, bad, keep, keep);
    assert((|r: FailureRow| is_failure_of(r, t.fid, t.head)) == keep);
    let a = choose|a: int|
        0 <= a < ordered.len() && is_failure_of(#[trigger] ordered[a], s.fid, s.head)
            && ordered[a].ts@ == s.first_seen;
    let b = choose|b: int|
        0 <= b < ordered.len() && is_failure_of(#[trigger] ordered[b], s.fid, s.head)
            && ordered[b].ts@ == s.last_seen;
    assert(ordered.contains(ordered[a]) && ordered.contains(ordered[b]));
    order::lemma_sorted_contains(kept, row_le(), ordered[a]);
    order::lemma_sorted_contains(kept, row_le(), ordered[b]);
    let c = choose|c: int| 0 <= c < kept.len() && kept[c] == ordered[a];
    let d = choose|d: int| 0 <= d < kept.len() && kept[d] == ordered[b];
    assert(rows[at[c]] == ordered[a] && rows[at[d]] == ordered[b]);
    assert forall|i: int|
        0 <= i < rows.len() && is_failure_of(#[trigger] rows[i], t.fid, t.head) implies text::text_le(
        t.first_seen,
        rows[i].ts@,
    ) && text::text_le(rows[i].ts@, t.last_seen) by {
        assert(at.contains(i));
        let k = choose|k: int| 0 <= k < at.len() && at[k] == i;
        assert(kept[k] == rows[i]);
        assert(kept.contains(rows[i]));
        order::lemma_sorted_contains(kept, row_le(), rows[i]);
        let o = choose|o: int| 0 <= o < ordered.len() && ordered[o] == rows[i];
        assert(is_failure_of(ordered[o], s.fid, s.head));
    }
}

/// A run of digits becomes one `#`, whatever its digits and however many they are.
pub proof fn law_a_run_of_digits_collapses(a: Seq<char>, d: Seq<char>, b: Seq<char>)
    requires
        d.len() > 0,
        forall|i: int| 0 <= i < d.len() ==> text::is_digit(#[trigger] d[i]),
        a.len() == 0 || !text::is_digit(a.last()),
        b.len() == 0 || !text::is_digit(b[0]),
    ensures
        collapsed(a + d + b) == collapsed(a).push('#') + collapsed(b),
    decreases b.len(), d.len(),
{
    let s = a + d + b;
    if b.len() > 0 {
        let front = b.drop_last();
        law_a_run_of_digits_collapses(a, d, front);
        assert(s.drop_last() =~= a + d + front);
        assert(s.last() == b.last());
        if b.len() > 1 {
            assert(s[s.len() - 2] == b[b.len() - 2]);
        }
        assert(collapsed(s) =~= collapsed(a).push('#') + collapsed(b));
    } else {
        let front = d.drop_last();
        assert(s =~= a + d);
        assert(text::is_digit(d[d.len() - 1]));
        if d.len() > 1 {
            assert forall|i: int| 0 <= i < front.len() implies text::is_digit(
                #[trigger] front[i],
            ) by {
                assert(front[i] == d[i]);
            }
            law_a_run_of_digits_collapses(a, front, b);
            assert(s.drop_last() =~= a + front + b);
            assert(s[s.len() - 2] == d[d.len() - 2]);
            assert(text::is_digit(d[d.len() - 2]));
        } else {
            assert(s.drop_last() =~= a);
            if a.len() > 0 {
                assert(s[s.len() - 2] == a.last());
            }
        }
        assert(collapsed(b) =~= Seq::<char>::empty());
        assert(collapsed(s) =~= collapsed(a).push('#') + collapsed(b));
    }
}

/// A text without digits stays as it is.
pub proof fn law_without_digits_nothing_collapses(s: Seq<char>)
    requires
        forall|i: int| 0 <= i < s.len() ==> !text::is_digit(#[trigger] s[i]),
    ensures
        collapsed(s) == s,
    decreases s.len(),
{
    if s.len() > 0 {
        let front = s.drop_last();
        assert forall|i: int| 0 <= i < front.len() implies !text::is_digit(#[trigger] front[i]) by {
            assert(front[i] == s[i]);
        }
        law_without_digits_nothing_collapses(front);
        assert(!text::is_digit(s[s.len() - 1]));
        assert(front.push(s.last()) =~= s);
    } else {
        assert(s =~= Seq::<char>::empty());
    }
}

/// A signature looks at the first line alone: what follows a line break does not
/// matter, and of a line it is the collapsed text, cut behind 80 characters.
pub proof fn law_head_of_the_first_line(line: Seq<char>, rest: Seq<char>)
    requires
        !line.contains('\n'),
        line.len() > 0,
        line.last() != '\r',
    ensures
        head_of(line.push('\n') + rest) == head_of(line),
        collapsed(line).len() <= 80 ==> head_of(line) == collapsed(line),
        collapsed(line).len() > 80 ==> head_of(line) == collapsed(line).take(80),
        head_of(Seq::empty()) == Seq::<char>::empty(),
{
    text::law_lines(line, rest);
    assert(text::lines(line.push('\n') + rest)[0] == line);
    assert(first_line(Seq::empty()) =~= Seq::<char>::empty());
    assert(collapsed(Seq::empty()) =~= Seq::<char>::empty());
}

/// A report tells every missed expectation with its expression, its fire and when it
/// was last seen, every one that never ran, and nothing else under these heads.
pub proof fn law_report(
    exp: Seq<CronExpectation>,
    rows: Seq<EventRecord>,
    g: Seq<(Moment, Moment)>,
    now: Moment,
    excused: Seq<Seq<char>>,
    n: int,
)
    requires
        0 <= n <= exp.len(),
    ensures
        forall|i: int|
            0 <= i < n && verdict(#[trigger] exp[i], rows, g, now, excused) is Missed ==> report_on(
                exp,
                rows,
                g,
                now,
                excused,
                n,
            ).missed.contains(
                MissedText {
                    fid: exp[i].fid@,
                    expr: exp[i].expr@,
                    expected_at: cron_fires(exp[i].expr@, (now.secs + 1) as i64)[0],
                    last_seen: max_ts(rows, exp[i].fid@, rows.len() as int),
                },
            ),
        forall|i: int|
            0 <= i < n && verdict(#[trigger] exp[i], rows, g, now, excused) is NeverRan
                ==> report_on(exp, rows, g, now, excused, n).never_ran.contains(exp[i]@),
        forall|k: int|
            0 <= k < report_on(exp, rows, g, now, excused, n).missed.len() ==> is_missed_of(
                #[trigger] report_on(exp, rows, g, now, excused, n).missed[k],
                exp,
                rows,
                g,
                now,
                excused,
                n,
            ),
    decreases n,
{
    if n > 0 {
        law_report(exp, rows, g, now, excused, n - 1);
        let r = report_on(exp, rows, g, now, excused, n - 1);
        let all = report_on(exp, rows, g, now, excused, n);
        let e = exp[n - 1];
        assert forall|x: MissedText| r.missed.contains(x) implies #[trigger] all.missed.contains(
            x,
        ) by {
            let k = choose|k: int| 0 <= k < r.missed.len() && r.missed[k] == x;
            assert(all.missed[k] == x);
        }
        assert forall|x: CronText| r.never_ran.contains(x) implies #[trigger]
            all.never_ran.contains(x) by {
            let k = choose|k: int| 0 <= k < r.never_ran.len() && r.never_ran[k] == x;
            assert(all.never_ran[k] == x);
        }
        if verdict(e, rows, g, now, excused) is Missed {
            assert(all.missed[r.missed.len() as int].fid == e.fid@);
        }
        if verdict(e, rows, g, now, excused) is NeverRan {
            assert(all.never_ran[r.never_ran.len() as int] == e@);
        }
        assert forall|k: int| 0 <= k < all.missed.len() implies is_missed_of(
            #[trigger] all.missed[k],
            exp,
            rows,
            g,
            now,
            excused,
            n,
        ) by {
            if k < r.missed.len() {
                assert(all.missed[k] == r.missed[k]);
                assert(is_missed_of(r.missed[k], exp, rows, g, now, excused, n - 1));
            } else {
                assert(verdict(exp[n - 1], rows, g, now, excused) is Missed);
            }
        }
    }
}

/// Whether a report of a miss is that of an expectation.
pub open spec fn is_missed_of(
    m: MissedText,
    exp: Seq<CronExpectation>,
    rows: Seq<EventRecord>,
    g: Seq<(Moment, Moment)>,
    now: Moment,
    excused: Seq<Seq<char>>,
    n: int,
) -> bool {
    exists|i: int|
        0 <= i < n && verdict(#[trigger] exp[i], rows, g, now, excused) is Missed && m.fid
            == exp[i].fid@ && m.expr == exp[i].expr@
}

/// A trigger was last seen at the time of one of its rows, and none is later.
pub proof fn law_last_seen(rows: Seq<EventRecord>, fid: Seq<char>, n: int)
    requires
        0 <= n <= rows.len(),
    ensures
        match max_ts(rows, fid, n) {
            Some(t) => (exists|i: int|
                0 <= i < n && (#[trigger] rows[i]).event@ == fid && rows[i].ts is Some
                    && rows[i].ts->0@ == t) && forall|i: int|
                0 <= i < n && (#[trigger] rows[i]).event@ == fid && rows[i].ts is Some
                    ==> text::text_le(rows[i].ts->0@, t),
            None => forall|i: int|
                0 <= i < n && (#[trigger] rows[i]).event@ == fid ==> rows[i].ts is None,
        },
    decreases n,
{
    if n > 0 {
        law_last_seen(rows, fid, n - 1);
        let r = rows[n - 1];
        if r.event@ == fid && r.ts is Some {
            text::lemma_text_le_total(r.ts->0@, r.ts->0@);
            if let Some(x) = max_ts(rows, fid, n - 1) {
                text::lemma_text_le_total(x, r.ts->0@);
                assert forall|i: int|
                    0 <= i < n - 1 && (#[trigger] rows[i]).event@ == fid
                        && rows[i].ts is Some implies text::text_le(
                    rows[i].ts->0@,
                    max_ts(rows, fid, n)->0,
                ) by {
                    if text::text_le(x, r.ts->0@) {
                        text::lemma_text_le_trans(rows[i].ts->0@, x, r.ts->0@);
                    }
                }
                if !text::text_le(x, r.ts->0@) {
                    let i = choose|i: int|
                        0 <= i < n - 1 && (#[trigger] rows[i]).event@ == fid && rows[i].ts is Some
                            && rows[i].ts->0@ == x;
                    assert(rows[i].ts->0@ == max_ts(rows, fid, n)->0);
                } else {
                    assert(rows[n - 1].ts->0@ == max_ts(rows, fid, n)->0);
                }
            } else {
                assert(rows[n - 1].ts->0@ == max_ts(rows, fid, n)->0);
            }
        }
    }
}

/// Every handler of every worker is a registered trigger, under the worker's name; it
/// has an expression if and only if it is a cron one.
pub proof fn law_registered_triggers(w: Seq<Worker>, n: int, i: int, k: int)
    requires
        0 <= i < n <= w.len(),
        0 <= k < w[i].handlers@.len(),
    ensures
        all_triggers_of(w, n).contains(handler_trigger(w[i].name@, w[i].handlers@[k])),
        handler_trigger(w[i].name@, w[i].handlers@[k]).worker == w[i].name@,
        handler_trigger(w[i].name@, w[i].handlers@[k]).fid == w[i].handlers@[k].0@,
        (handler_trigger(w[i].name@, w[i].handlers@[k]).cron is Some) == (w[i].handlers@[k].1 is Cron),
        w[i].handlers@[k].1 is Cron ==> handler_trigger(w[i].name@, w[i].handlers@[k]).cron == Some(
            w[i].handlers@[k].1->Cron_0@,
        ),
    decreases n,
{
    let front = all_triggers_of(w, n - 1);
    let all = all_triggers_of(w, n);
    let t = handler_trigger(w[i].name@, w[i].handlers@[k]);
    if i < n - 1 {
        law_registered_triggers(w, n - 1, i, k);
        let j = choose|j: int| 0 <= j < front.len() && front[j] == t;
        assert(all[j] == t);
    } else {
        assert(worker_triggers(w[i])[k] == t);
        assert(all[front.len() + k] == t);
    }
}

/// Three workers make a storm, unless the setting is a positive number.
pub proof fn law_storm_threshold(n: nat, s: Seq<char>)
    ensures
        storm_threshold(None) == 3,
        0 < n <= usize::MAX ==> storm_threshold(Some(text::numeral(n))) == n,
        storm_threshold(Some(text::numeral(0))) == 3,
        text::parse_unsigned(s) is Err ==> storm_threshold(Some(s)) == 3,
        storm_threshold(Some(s)) > 0,
{
    text::law_numerals_are_read_back(n);
    text::law_numerals_are_read_back(0);
}

/// The files that have not landed are those of modules found but not compiled in, by
/// their names, in order.
pub proof fn law_not_landed(found: Seq<Seq<char>>, compiled: Seq<Seq<char>>, name: Seq<char>)
    ensures
        order::ascending(not_landed(found, compiled), text::by_text()),
        not_landed(found, compiled).contains(name) == (!compiled.contains(name) && text::ends_with(
            name,
            ".worker.rs"@,
        ) && exists|i: int| 0 <= i < found.len() && base_name(#[trigger] found[i]) == Some(name)),
{
    let keep = |p: Seq<char>| is_worker_file(p);
    let files = found.filter(keep);
    let names = base_names(files);
    let left = crate::memory::index::missing(names, compiled);
    text::lemma_by_text_total();
    order::lemma_sorted(left, text::by_text());
    order::lemma_sorted_contains(left, text::by_text(), name);
    lemma_base_names(files, name);
    crate::memory::index::law_missing(names, compiled, name);
    let at = lists::lemma_filter_places(found, keep);
    if names.contains(name) {
        let k = choose|k: int| 0 <= k < files.len() && base_name(#[trigger] files[k]) == Some(name);
        assert(at.contains(at[k]));
        assert(base_name(found[at[k]]) == Some(name));
        assert(is_worker_file(found[at[k]]));
    }
    if text::ends_with(name, ".worker.rs"@) && exists|i: int|
        0 <= i < found.len() && base_name(#[trigger] found[i]) == Some(name) {
        let i = choose|i: int| 0 <= i < found.len() && base_name(#[trigger] found[i]) == Some(name);
        assert(is_worker_file(found[i]));
        assert(at.contains(i));
        let k = choose|k: int| 0 <= k < at.len() && at[k] == i;
        assert(base_name(files[k]) == Some(name));
    }
}

proof fn lemma_base_names(paths: Seq<Seq<char>>, name: Seq<char>)
    ensures
        base_names(paths).contains(name) == exists|k: int|
            0 <= k < paths.len() && base_name(#[trigger] paths[k]) == Some(name),
    decreases paths.len(),
{
    if paths.len() > 0 {
        let front = paths.drop_last();
        lemma_base_names(front, name);
        let a = base_names(front);
        let b = base_names(paths);
        if b.contains(name) {
            let k = choose|k: int| 0 <= k < b.len() && b[k] == name;
            if k < a.len() {
                assert(a[k] == name);
                let m = choose|m: int|
                    0 <= m < front.len() && base_name(#[trigger] front[m]) == Some(name);
                assert(base_name(paths[m]) == Some(name));
            } else {
                assert(base_name(paths[paths.len() - 1]) == Some(name));
            }
        }
        if exists|k: int| 0 <= k < paths.len() && base_name(#[trigger] paths[k]) == Some(name) {
            let k = choose|k: int|
                0 <= k < paths.len() && base_name(#[trigger] paths[k]) == Some(name);
            if k < front.len() {
                assert(base_name(front[k]) == Some(name));
                let m = choose|m: int| 0 <= m < a.len() && a[m] == name;
                assert(b[m] == name);
            } else {
                assert(b[a.len() as int] == name);
            }
        }
    }
}

/// Whether the time of every row of a trigger can be read.
pub open spec fn all_read(rows: Seq<EventRecord>, fid: Seq<char>) -> bool {
    forall|j: int| 0 <= j < rows.len() && (#[trigger] rows[j]).event@ == fid ==> rows[j].ts is Some
}

/// The expectation that stops a report is the first with a row of its trigger whose time
/// cannot be read; there is none only where every such time can.
pub proof fn law_unread_rows(exp: Seq<CronExpectation>, rows: Seq<EventRecord>, i: int)
    requires
        0 <= i <= exp.len(),
    ensures
        match first_unread(exp, rows, i) {
            Some(k) => i <= k < exp.len() && !all_read(rows, exp[k].fid@) && forall|m: int|
                i <= m < k ==> all_read(rows, (#[trigger] exp[m]).fid@),
            None => forall|m: int| i <= m < exp.len() ==> all_read(rows, (#[trigger] exp[m]).fid@),
        },
    decreases exp.len() - i,
{
    if i < exp.len() {
        let fid = exp[i].fid@;
        if has_unread(rows, fid) {
            let j = choose|j: int| 0 <= j < rows.len() && is_unread(#[trigger] rows[j], fid);
            assert(rows[j].event@ == fid);
        } else {
            assert forall|j: int|
                0 <= j < rows.len() && (#[trigger] rows[j]).event@ == fid implies rows[j].ts is Some by {
                assert(!is_unread(rows[j], fid));
            }
            law_unread_rows(exp, rows, i + 1);
        }
    }
}

/// The moments of texts are those of the texts one by one, in their order: a text that
/// names a moment gives that one, and any other gives none.
pub proof fn law_moments(a: Seq<Seq<char>>, b: Seq<Seq<char>>, t: Seq<char>)
    ensures
        moments(a + b) == moments(a) + moments(b),
        rfc3339_moment(t) is None ==> moments(seq![t]).len() == 0,
        rfc3339_moment(t) matches Some(m) ==> moments(seq![t]) == seq![
            Moment { secs: m.0, nanos: m.1 },
        ],
    decreases b.len(),
{
    assert(seq![t].drop_last() =~= Seq::<Seq<char>>::empty());
    assert(moments(Seq::<Seq<char>>::empty()) =~= Seq::<Moment>::empty());
    if b.len() == 0 {
        assert(a + b =~= a);
        assert(moments(a) + moments(b) =~= moments(a));
    } else {
        law_moments(a, b.drop_last(), t);
        assert((a + b).drop_last() =~= a + b.drop_last());
        assert((a + b).last() == b.last());
        assert(moments(a + b) =~= moments(a) + moments(b));
    }
    assert(rfc3339_moment(t) matches Some(m) ==> moments(seq![t]) =~= seq![
        Moment { secs: m.0, nanos: m.1 },
    ]);
}

} // verus!
