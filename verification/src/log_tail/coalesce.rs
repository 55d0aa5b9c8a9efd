//! Bursts of breaches taken together as episodes.
use super::observer::{self, Latency, Severity};
use crate::json;
use vstd::prelude::*;

verus! {

/// One burst of breaches.
#[derive(Debug, Clone)]
pub struct StallEpisode {
    pub count: u64,
    /// The longest latency of the burst.
    pub peak: Latency,
    /// The worst severity of the burst.
    pub peak_severity: Severity,
    /// The stage at the peak.
    pub dominant_stage: Option<String>,
}

pub struct EpisodeText {
    pub count: int,
    pub peak: observer::LatencyText,
    pub peak_severity: Severity,
    pub dominant_stage: Option<Seq<char>>,
}

impl View for StallEpisode {
    type V = EpisodeText;

    open spec fn view(&self) -> EpisodeText {
        EpisodeText {
            count: self.count as int,
            peak: self.peak@,
            peak_severity: self.peak_severity,
            dominant_stage: json::opt_text(self.dominant_stage),
        }
    }
}

pub open spec fn episode_text(e: Option<StallEpisode>) -> Option<EpisodeText> {
    match e {
        Some(x) => Some(x@),
        None => None,
    }
}

/// Takes breaches together until none has come for a while. Times are
/// nanoseconds of one monotonic clock.
#[derive(Debug, Clone)]
pub struct EpisodeCoalescer {
    pub quiet_window: u128,
    pub open: Option<OpenEpisode>,
}

/// An episode that may still grow.
#[derive(Debug, Clone)]
pub struct OpenEpisode {
    pub episode: StallEpisode,
    pub last_breach: u128,
}

pub struct CoalescerState {
    pub quiet_window: u128,
    pub open: Option<(EpisodeText, u128)>,
}

impl View for EpisodeCoalescer {
    type V = CoalescerState;

    open spec fn view(&self) -> CoalescerState {
        CoalescerState {
            quiet_window: self.quiet_window,
            open: match self.open {
                Some(o) => Some((o.episode@, o.last_breach)),
                None => None,
            },
        }
    }
}

/// The episode of one breach.
pub open spec fn begun(
    value: observer::LatencyText,
    severity: Severity,
    stage: Option<Seq<char>>,
) -> EpisodeText {
    EpisodeText { count: 1, peak: value, peak_severity: severity, dominant_stage: stage }
}

/// An episode with one breach more.
pub open spec fn grown(
    e: EpisodeText,
    value: observer::LatencyText,
    severity: Severity,
    stage: Option<Seq<char>>,
) -> EpisodeText {
    let longer = value.rank > e.peak.rank;
    EpisodeText {
        count: e.count + 1,
        peak: if longer {
            value
        } else {
            e.peak
        },
        peak_severity: e.peak_severity.worst(severity),
        dominant_stage: if longer {
            stage
        } else {
            e.dominant_stage
        },
    }
}

impl CoalescerState {
    /// Whether the open episode has been quiet for longer than the window.
    pub open spec fn is_over(self, now: u128) -> bool {
        match self.open {
            Some(o) => now - o.1 > self.quiet_window,
            None => false,
        }
    }

    /// The episode that ends at `now`.
    pub open spec fn ended(self, now: u128) -> Option<EpisodeText> {
        if self.is_over(now) {
            Some((self.open->0).0)
        } else {
            None
        }
    }

    /// The state once what ends at `now` has been closed.
    pub open spec fn ticked(self, now: u128) -> CoalescerState {
        if self.is_over(now) {
            CoalescerState { quiet_window: self.quiet_window, open: None }
        } else {
            self
        }
    }

    /// The state after one more breach.
    pub open spec fn breached(
        self,
        now: u128,
        value: observer::LatencyText,
        severity: Severity,
        stage: Option<Seq<char>>,
    ) -> CoalescerState {
        let t = self.ticked(now);
        CoalescerState {
            quiet_window: t.quiet_window,
            open: Some(
                match t.open {
                    None => (begun(value, severity, stage), now),
                    Some(o) => (grown(o.0, value, severity, stage), now),
                },
            ),
        }
    }
}

impl EpisodeCoalescer {
    pub fn new(quiet_window: u128) -> (c: EpisodeCoalescer)
        ensures
            c@ == (CoalescerState { quiet_window, open: None }),
    {
        EpisodeCoalescer { quiet_window, open: None }
    }

    /// Takes in one breach. An episode whose window passed before it is closed
    /// and returned, and the breach opens another.
    pub fn record_breach(
        &mut self,
        now: u128,
        value: Latency,
        severity: Severity,
        stage: Option<String>,
    ) -> (r: Option<StallEpisode>)
        requires
            old(self)@.open is Some ==> (old(self)@.open->0).0.count < u64::MAX,
        ensures
            episode_text(r) == old(self)@.ended(now),
            final(self)@ == old(self)@.breached(now, value@, severity, json::opt_text(stage)),
    {
        let closed = self.tick(now);
        match self.open.take() {
            Some(o) => {
                let mut e = o.episode;
                e.count = e.count + 1;
                if value.rank > e.peak.rank {
                    e.peak = value;
                    e.dominant_stage = stage;
                }
                e.peak_severity = e.peak_severity.worse(severity);
                self.open = Some(OpenEpisode { episode: e, last_breach: now });
            },
            None => {
                self.open = Some(
                    OpenEpisode {
                        episode: StallEpisode {
                            count: 1,
                            peak: value,
                            peak_severity: severity,
                            dominant_stage: stage,
                        },
                        last_breach: now,
                    },
                );
            },
        }
        closed
    }

    /// Closes and returns the open episode where its window has passed.
    pub fn tick(&mut self, now: u128) -> (r: Option<StallEpisode>)
        ensures
            episode_text(r) == old(self)@.ended(now),
            final(self)@ == old(self)@.ticked(now),
    {
        let over = match &self.open {
            Some(o) => now >= o.last_breach && now - o.last_breach > self.quiet_window,
            None => false,
        };
        if over {
            match self.open.take() {
                Some(o) => Some(o.episode),
                None => None,
            }
        } else {
            None
        }
    }
}

// ── Laws ─────────────────────────────────────────────────────────────────────
/// One breach: when, how long, how bad and in which stage.
pub struct Breach {
    pub at: u128,
    pub value: observer::LatencyText,
    pub severity: Severity,
    pub stage: Option<Seq<char>>,
}

/// The state after breaches.
pub open spec fn after(s: CoalescerState, breaches: Seq<Breach>) -> CoalescerState
    decreases breaches.len(),
{
    if breaches.len() == 0 {
        s
    } else {
        let b = breaches.last();
        after(s, breaches.drop_last()).breached(b.at, b.value, b.severity, b.stage)
    }
}

/// Breaches of one burst: none comes later than the window behind the one
/// before it.
pub open spec fn is_burst(quiet_window: u128, breaches: Seq<Breach>) -> bool {
    forall|i: int|
        0 <= i < breaches.len() - 1 ==> #[trigger] breaches[i + 1].at - breaches[i].at
            <= quiet_window
}

/// What an episode says of its breaches: it counts every one, its peak is one of
/// them and none is longer, its stage is the one at the peak, and it is as bad
/// as the worst of them.
pub open spec fn tells(e: EpisodeText, breaches: Seq<Breach>) -> bool {
    &&& e.count == breaches.len()
    &&& exists|i: int|
        0 <= i < breaches.len() && e.peak == (#[trigger] breaches[i]).value && e.dominant_stage
            == breaches[i].stage
    &&& forall|i: int|
        0 <= i < breaches.len() ==> (#[trigger] breaches[i]).value.rank <= e.peak.rank
    &&& exists|i: int|
        0 <= i < breaches.len() && e.peak_severity == (#[trigger] breaches[i]).severity
    &&& forall|i: int|
        0 <= i < breaches.len() ==> (#[trigger] breaches[i]).severity.level()
            <= e.peak_severity.level()
}

proof fn lemma_tells_of_one(b: Breach)
    ensures
        tells(begun(b.value, b.severity, b.stage), seq![b]),
{
    let all = seq![b];
    assert(all[0] == b);
}

proof fn lemma_tells_of_one_more(e: EpisodeText, front: Seq<Breach>, b: Breach)
    requires
        tells(e, front),
    ensures
        tells(grown(e, b.value, b.severity, b.stage), front.push(b)),
{
    let all = front.push(b);
    let n = front.len() as int;
    let g = grown(e, b.value, b.severity, b.stage);
    let i = choose|i: int|
        0 <= i < n && e.peak == (#[trigger] front[i]).value && e.dominant_stage == front[i].stage;
    let j = choose|j: int| 0 <= j < n && e.peak_severity == (#[trigger] front[j]).severity;
    assert(all[n] == b && all[i] == front[i] && all[j] == front[j]);
    if b.value.rank > e.peak.rank {
        assert(g.peak == all[n].value && g.dominant_stage == all[n].stage);
    } else {
        assert(g.peak == all[i].value && g.dominant_stage == all[i].stage);
    }
    if b.severity.level() >= e.peak_severity.level() {
        assert(g.peak_severity == all[n].severity);
    } else {
        assert(g.peak_severity == all[j].severity);
    }
    assert forall|k: int| 0 <= k < all.len() implies (#[trigger] all[k]).value.rank <= g.peak.rank
        && all[k].severity.level() <= g.peak_severity.level() by {
        if k < n {
            assert(front[k] == all[k]);
        }
    }
}

/// A burst becomes one episode, which tells of every breach of it.
pub proof fn law_burst_is_one_episode(quiet_window: u128, breaches: Seq<Breach>)
    requires
        breaches.len() > 0,
        is_burst(quiet_window, breaches),
    ensures
        ({
            let s = after(CoalescerState { quiet_window, open: None }, breaches);
            &&& s.quiet_window == quiet_window
            &&& s.open is Some
            &&& (s.open->0).1 == breaches.last().at
            &&& tells((s.open->0).0, breaches)
        }),
    decreases breaches.len(),
{
    let start = CoalescerState { quiet_window, open: None };
    let front = breaches.drop_last();
    let b = breaches.last();
    let n = breaches.len();
    assert(breaches =~= front.push(b));
    if n == 1 {
        assert(after(start, front) == start);
        assert(breaches =~= seq![b]);
        lemma_tells_of_one(b);
    } else {
        assert forall|i: int| 0 <= i < front.len() - 1 implies #[trigger] front[i + 1].at
            - front[i].at <= quiet_window by {
            assert(breaches[i + 1].at - breaches[i].at <= quiet_window);
        }
        law_burst_is_one_episode(quiet_window, front);
        let t = after(start, front);
        assert(breaches[n - 2 + 1].at - breaches[n - 2].at <= quiet_window);
        assert(t.ticked(b.at) == t);
        lemma_tells_of_one_more((t.open->0).0, front, b);
    }
}

/// A call of the coalescer.
pub enum Call {
    Breach(Breach),
    Tick(u128),
}

/// The breaches among calls.
pub open spec fn breaches_in(calls: Seq<Call>) -> Seq<Breach>
    decreases calls.len(),
{
    if calls.len() == 0 {
        Seq::empty()
    } else {
        match calls.last() {
            Call::Breach(b) => breaches_in(calls.drop_last()).push(b),
            Call::Tick(_) => breaches_in(calls.drop_last()),
        }
    }
}

pub open spec fn handed_out(out: Seq<EpisodeText>, e: Option<EpisodeText>) -> Seq<EpisodeText> {
    match e {
        Some(x) => out.push(x),
        None => out,
    }
}

/// The state after calls, and the episodes that they have returned.
pub open spec fn ran(s: CoalescerState, calls: Seq<Call>) -> (CoalescerState, Seq<EpisodeText>)
    decreases calls.len(),
{
    if calls.len() == 0 {
        (s, Seq::empty())
    } else {
        let (t, out) = ran(s, calls.drop_last());
        match calls.last() {
            Call::Breach(b) => (
                t.breached(b.at, b.value, b.severity, b.stage),
                handed_out(out, t.ended(b.at)),
            ),
            Call::Tick(now) => (t.ticked(now), handed_out(out, t.ended(now))),
        }
    }
}

/// How many breaches episodes count together.
pub open spec fn counted(episodes: Seq<EpisodeText>) -> int
    decreases episodes.len(),
{
    if episodes.len() == 0 {
        0
    } else {
        counted(episodes.drop_last()) + episodes.last().count
    }
}

/// How many breaches the open episode counts.
pub open spec fn open_count(s: CoalescerState) -> int {
    match s.open {
        Some(o) => o.0.count,
        None => 0,
    }
}

/// Whether episode `k` tells of the breaches that follow those of the episodes
/// before it.
pub open spec fn told(episodes: Seq<EpisodeText>, breaches: Seq<Breach>, k: int) -> bool {
    let from = counted(episodes.take(k));
    let to = from + episodes[k].count;
    0 <= from <= to <= breaches.len() && tells(episodes[k], breaches.subrange(from, to))
}

proof fn lemma_told_still(
    episodes: Seq<EpisodeText>,
    more_episodes: Seq<EpisodeText>,
    breaches: Seq<Breach>,
    more_breaches: Seq<Breach>,
    k: int,
)
    requires
        0 <= k < episodes.len() <= more_episodes.len(),
        more_episodes.take(episodes.len() as int) == episodes,
        breaches.len() <= more_breaches.len(),
        more_breaches.take(breaches.len() as int) == breaches,
        told(episodes, breaches, k),
    ensures
        told(more_episodes, more_breaches, k),
{
    let from = counted(episodes.take(k));
    let to = from + episodes[k].count;
    assert(more_episodes.take(k) =~= episodes.take(k)) by {
        assert(more_episodes.take(episodes.len() as int).take(k) =~= more_episodes.take(k));
    }
    assert(more_episodes.take(episodes.len() as int)[k] == more_episodes[k]);
    assert(more_breaches.subrange(from, to) =~= more_breaches.take(
        breaches.len() as int,
    ).subrange(from, to));
}

/// Every breach is told once: whatever comes, breaches or ticks, the returned
/// episodes and then the open one tell of all breaches in the order in which
/// they came, so that together they count as many as there were; and the open
/// episode has been quiet since the last of them.
pub proof fn law_every_breach_is_told_once(quiet_window: u128, calls: Seq<Call>)
    ensures
        ({
            let (s, out) = ran(CoalescerState { quiet_window, open: None }, calls);
            let all = breaches_in(calls);
            &&& s.quiet_window == quiet_window
            &&& counted(out) + open_count(s) == all.len()
            &&& forall|k: int| 0 <= k < out.len() ==> #[trigger] told(out, all, k)
            &&& 0 <= counted(out) <= all.len()
            &&& s.open matches Some(o) ==> tells(o.0, all.skip(counted(out))) && o.1
                == all.last().at
        }),
    decreases calls.len(),
{
    if calls.len() > 0 {
        let start = CoalescerState { quiet_window, open: None };
        let front = calls.drop_last();
        law_every_breach_is_told_once(quiet_window, front);
        let (t, before) = ran(start, front);
        let (s, out) = ran(start, calls);
        let old_all = breaches_in(front);
        let all = breaches_in(calls);
        let now = match calls.last() {
            Call::Breach(b) => b.at,
            Call::Tick(n) => n,
        };
        assert(all.take(old_all.len() as int) =~= old_all);
        assert(out.take(before.len() as int) =~= before);
        if t.is_over(now) {
            let e = (t.open->0).0;
            assert(out == before.push(e));
            assert(out.drop_last() =~= before);
            assert(counted(out) == old_all.len());
            assert(all.subrange(counted(before), counted(before) + e.count) =~= old_all.skip(
                counted(before),
            ));
            assert(told(out, all, before.len() as int));
        }
        assert forall|k: int| 0 <= k < out.len() implies #[trigger] told(out, all, k) by {
            if k < before.len() {
                assert(told(before, old_all, k));
                lemma_told_still(before, out, old_all, all, k);
            }
        }
        if let Call::Breach(b) = calls.last() {
            if t.ticked(now).open is None {
                assert(all.skip(counted(out)) =~= seq![b]);
                lemma_tells_of_one(b);
            } else {
                let e = (t.open->0).0;
                assert(all.skip(counted(out)) =~= old_all.skip(counted(before)).push(b));
                lemma_tells_of_one_more(e, old_all.skip(counted(before)), b);
            }
        }
    }
}

/// Nothing is reported twice: what a tick closes is gone, and a second tick at
/// the same time reports nothing.
pub proof fn law_closed_once(s: CoalescerState, now: u128)
    ensures
        s.ticked(now).ended(now) is None,
        s.ended(now) is Some ==> s.ticked(now).open is None,
{
}

/// An episode is over once more than the window has gone by since its last breach, and
/// not before; a breach that comes later begins a new one.
pub proof fn law_a_quiet_time_ends_an_episode(
    s: CoalescerState,
    now: u128,
    value: observer::LatencyText,
    severity: Severity,
    stage: Option<Seq<char>>,
)
    requires
        s.open is Some,
    ensures
        (s.ended(now) is Some) == (now - (s.open->0).1 > s.quiet_window),
        s.ended(now) is Some ==> s.ended(now) == Some((s.open->0).0),
        now - (s.open->0).1 > s.quiet_window ==> s.ticked(now).open is None,
        now - (s.open->0).1 <= s.quiet_window ==> s.ticked(now) == s,
        now - (s.open->0).1 > s.quiet_window ==> (s.breached(
            now,
            value,
            severity,
            stage,
        ).open->0).0 == (EpisodeText {
            count: 1,
            peak: value,
            peak_severity: severity,
            dominant_stage: stage,
        }),
        now - (s.open->0).1 <= s.quiet_window ==> (s.breached(
            now,
            value,
            severity,
            stage,
        ).open->0).0.count == (s.open->0).0.count + 1,
        (s.breached(now, value, severity, stage).open->0).1 == now,
{
}

} // verus!
