//! Answering a query from the registry step by step: the registry is read, it
//! decides which sources may answer, and these are read one by one until one of
//! them settles the answer.
use crate::json;
use crate::memory::authority::{
    self, finish, query_intent, select, Pick, QueryIntent, Registry, RegistryRead, Resolution,
    ResolutionKind, Selected, Selection, SourceRead, REGISTRY_LIMIT, REGISTRY_RELATIVE,
    SOURCE_AGGREGATE_LIMIT, SOURCE_LIMIT,
};
use crate::memory::safe_read::Fault;
use crate::text;
use vstd::prelude::*;

verus! {

/// What the answer waits for.
#[derive(Debug, Clone, Copy, PartialEq, Eq, Structural)]
pub enum Stage {
    Registry,
    Parse,
    Source,
    Over,
}

/// What the answer is told of, in reply to its last action.
#[derive(Debug)]
pub enum Event {
    /// The bytes that were asked for.
    Bytes(Result<Vec<u8>, Fault>),
    Parsed(Result<Registry, String>),
}

/// What is to be done next.
#[derive(Debug)]
pub enum Action {
    /// Read the file at this path below the root, so many bytes at most.
    Read(String, u64),
    /// Parse the registry.
    Parse(String),
    Finish(Resolution),
}

/// A step: what to print, then what to do.
#[derive(Debug)]
pub struct Move {
    pub log: Option<String>,
    pub action: Action,
}

/// An answer on its way: the query, the entries that are read for it, and what
/// reading them has given so far.
#[derive(Debug)]
pub struct Resolving {
    stage: Stage,
    query: String,
    for_agent: bool,
    registry: Registry,
    picks: Vec<Pick>,
    reads: Vec<SourceRead>,
}

pub struct ResolvingText {
    pub stage: Stage,
    pub query: Seq<char>,
    pub for_agent: bool,
    pub sources: Seq<authority::RegistrySource>,
    pub picks: Seq<Pick>,
    pub reads: Seq<SourceRead>,
}

impl View for Resolving {
    type V = ResolvingText;

    closed spec fn view(&self) -> ResolvingText {
        ResolvingText {
            stage: self.stage,
            query: self.query@,
            for_agent: self.for_agent,
            sources: self.registry.sources@,
            picks: self.picks@,
            reads: self.reads@,
        }
    }
}

impl ResolvingText {
    /// At most so many entries are read as may be, each of them stands in the
    /// registry and may be shown, and while a source is read, all before it have
    /// been.
    pub open spec fn wf(self) -> bool {
        &&& self.picks.len() <= authority::MAX_SOURCES
        &&& forall|k: int|
            0 <= k < self.picks.len() ==> (#[trigger] self.picks[k]).index < self.sources.len()
                && !authority::hidden(self.sources[self.picks[k].index as int], self.for_agent)
        &&& self.stage is Source ==> self.reads.len() < self.picks.len()
    }
}

// ── What an answer does ──────────────────────────────────────────────────────
/// The answer is settled from the registry alone.
pub open spec fn settles(
    m: Move,
    kind: ResolutionKind,
    query: Seq<char>,
    notice: Option<Seq<char>>,
) -> bool {
    m.action matches Action::Finish(r) && r.is_simple(kind, authority::intent_of(query), notice)
}

/// The next source is asked for.
pub open spec fn asks_for(m: Move, r: ResolvingText) -> bool {
    m.action matches Action::Read(path, limit) && path@
        == r.sources[r.picks[r.reads.len() as int].index as int].path@ && limit == SOURCE_LIMIT
}

/// The notice of the first source that cannot be used, among those that have
/// been read.
pub open spec fn notice_so_far(r: ResolvingText) -> Option<Seq<char>> {
    authority::first_notice(r.sources, r.picks.take(r.reads.len() as int), r.reads, 0)
}

/// What follows the registry: the answer, or the first of the entries that are
/// read for it.
pub open spec fn after_registry(
    r: ResolvingText,
    registry: RegistryRead,
    s: ResolvingText,
    m: Move,
) -> bool {
    match authority::selected(registry, r.query, r.for_agent) {
        Selected::Settled(kind, notice) => s == (ResolvingText { stage: Stage::Over, ..r })
            && settles(m, kind, r.query, notice),
        Selected::Read(p) => {
            &&& registry is Parsed
            &&& s == ResolvingText {
                stage: if p.len() == 0 {
                    Stage::Over
                } else {
                    Stage::Source
                },
                sources: registry->Parsed_0.sources@,
                picks: p,
                reads: Seq::empty(),
                ..r
            }
            &&& if p.len() == 0 {
                m.action matches Action::Finish(a) && authority::is_answer(
                    a,
                    s.sources,
                    p,
                    s.reads,
                    authority::intent_of(r.query),
                )
            } else {
                asks_for(m, s)
            }
        },
    }
}

/// What follows a source: the answer, where it is the last one or cannot be
/// used, else the next one.
pub open spec fn after_source(r: ResolvingText, read: SourceRead, s: ResolvingText, m: Move) -> bool {
    let t = ResolvingText { reads: r.reads.push(read), ..r };
    if notice_so_far(t) is Some || t.reads.len() == t.picks.len() {
        &&& s == (ResolvingText { stage: Stage::Over, ..t })
        &&& m.action matches Action::Finish(a) && authority::is_answer(
            a,
            t.sources,
            t.picks.take(t.reads.len() as int),
            t.reads,
            authority::intent_of(t.query),
        )
    } else {
        s == t && asks_for(m, t)
    }
}

/// What reading a source gave.
pub open spec fn source_read(b: Result<Vec<u8>, Fault>) -> SourceRead {
    match b {
        Ok(v) => SourceRead::Body(v),
        Err(_) => SourceRead::Unavailable,
    }
}

/// Whether an event answers what is waited for.
pub open spec fn answers(stage: Stage, e: Event) -> bool {
    match e {
        Event::Bytes(_) => stage is Registry || stage is Source,
        Event::Parsed(_) => stage is Parse,
    }
}

/// The step of an answer when it is told of an event. A registry that is not
/// there is no failure; one that cannot be read, is no text or does not parse
/// is.
pub open spec fn after(r: ResolvingText, e: Event, s: ResolvingText, m: Move) -> bool {
    match e {
        Event::Bytes(b) => if r.stage is Source {
            after_source(r, source_read(b), s, m)
        } else {
            match b {
                Ok(v) => if vstd::utf8::valid_utf8(v@) {
                    &&& s == (ResolvingText { stage: Stage::Parse, ..r })
                    &&& m.action matches Action::Parse(t) && t@ == vstd::utf8::decode_utf8(v@)
                } else {
                    after_registry(r, RegistryRead::Unreadable, s, m)
                },
                Err(f) => after_registry(
                    r,
                    if f.missing {
                        RegistryRead::Absent
                    } else {
                        RegistryRead::Unreadable
                    },
                    s,
                    m,
                ),
            }
        },
        Event::Parsed(p) => match p {
            Ok(reg) => after_registry(r, RegistryRead::Parsed(reg), s, m),
            Err(_) => after_registry(r, RegistryRead::Unreadable, s, m),
        },
    }
}

/// The id of the source that is being read.
pub open spec fn current_id(r: ResolvingText) -> Seq<char> {
    r.sources[r.picks[r.reads.len() as int].index as int].id@
}

/// What is printed of a registry: what is wrong with it, where that settles the
/// answer.
pub open spec fn registry_log(r: ResolvingText, registry: RegistryRead) -> Option<Seq<char>> {
    match authority::registry_detail(registry, r.query, r.for_agent) {
        Some(detail) => Some("[memory authority] "@ + detail),
        None => None,
    }
}

/// What is printed of the bytes of a source: that they are no text, unless there
/// are too many of them.
pub open spec fn source_log(r: ResolvingText, b: Seq<u8>) -> Option<Seq<char>> {
    if authority::bytes_of(r.reads, r.reads.len() as int) + b.len() <= SOURCE_AGGREGATE_LIMIT
        && !vstd::utf8::valid_utf8(b) {
        Some(
            "[memory authority] source "@ + current_id(r) + " is not UTF-8: "@ + text::utf8_error(b),
        )
    } else {
        None
    }
}

/// What is printed of an event.
pub open spec fn log_of(r: ResolvingText, e: Event) -> Option<Seq<char>> {
    match e {
        Event::Bytes(b) => match b {
            Ok(v) => if r.stage is Source {
                source_log(r, v@)
            } else if !vstd::utf8::valid_utf8(v@) {
                Some("[memory authority] registry is not UTF-8: "@ + text::utf8_error(v@))
            } else {
                None
            },
            Err(f) => if r.stage is Source {
                Some(
                    "[memory authority] source "@ + current_id(r) + " read failed: "@ + f.text@,
                )
            } else if f.missing {
                None
            } else {
                Some("[memory authority] registry read failed: "@ + f.text@)
            },
        },
        Event::Parsed(p) => match p {
            Ok(reg) => registry_log(r, RegistryRead::Parsed(reg)),
            Err(e) => Some("[memory authority] registry parse failed: "@ + e@),
        },
    }
}

// ── The steps ────────────────────────────────────────────────────────────────
/// Starts to answer a query: the registry is read.
pub fn resolve(query: &str, for_agent: bool) -> (r: (Resolving, Move))
    ensures
        r.0@.wf(),
        r.0@.stage is Registry,
        r.0@.query == query@,
        r.0@.for_agent == for_agent,
        r.0@.sources.len() == 0,
        r.0@.picks.len() == 0,
        r.0@.reads.len() == 0,
        r.1.log is None,
        r.1.action matches Action::Read(path, limit) && path@ == REGISTRY_RELATIVE@ && limit
            == REGISTRY_LIMIT,
{
    let r = Resolving {
        stage: Stage::Registry,
        query: query.to_owned(),
        for_agent,
        registry: Registry { version: 0, sources: Vec::new() },
        picks: Vec::new(),
        reads: Vec::new(),
    };
    (
        r,
        Move { log: None, action: Action::Read(REGISTRY_RELATIVE.to_owned(), REGISTRY_LIMIT) },
    )
}

fn note(what: &str, why: &str) -> (r: Option<String>)
    ensures
        json::opt_text(r) == Some(what@ + why@),
{
    let mut s = what.to_owned();
    s.append(why);
    Some(s)
}

fn first_picks(v: &Vec<Pick>, n: usize) -> (r: Vec<Pick>)
    requires
        n <= v@.len(),
    ensures
        r@ == v@.take(n as int),
{
    let mut r: Vec<Pick> = Vec::new();
    let mut i: usize = 0;
    while i < n
        invariant
            i <= n <= v@.len(),
            r@ == v@.take(i as int),
        decreases n - i,
    {
        r.push(v[i]);
        i = i + 1;
        proof {
            assert(r@ =~= v@.take(i as int));
        }
    }
    r
}

proof fn lemma_bytes_grow(reads: Seq<SourceRead>, i: int, n: int)
    requires
        0 <= i <= n,
    ensures
        0 <= authority::bytes_of(reads, i) <= authority::bytes_of(reads, n),
    decreases n,
{
    if i < n {
        lemma_bytes_grow(reads, i, n - 1);
    } else if i > 0 {
        lemma_bytes_grow(reads, i - 1, i - 1);
    }
}

/// Whether so many bytes more still fit what may be read in all.
fn within_aggregate(reads: &Vec<SourceRead>, more: usize) -> (b: bool)
    ensures
        b == (authority::bytes_of(reads@, reads@.len() as int) + more <= SOURCE_AGGREGATE_LIMIT),
{
    let mut left: u64 = SOURCE_AGGREGATE_LIMIT;
    let mut i: usize = 0;
    while i < reads.len()
        invariant
            i <= reads@.len(),
            left == SOURCE_AGGREGATE_LIMIT - authority::bytes_of(reads@, i as int),
        decreases reads.len() - i,
    {
        if let SourceRead::Body(b) = &reads[i] {
            if b.len() as u64 > left {
                proof {
                    lemma_bytes_grow(reads@, i + 1, reads@.len() as int);
                }
                return false;
            }
            left = left - b.len() as u64;
        }
        i = i + 1;
    }
    more as u64 <= left
}

impl Resolving {
    fn take_registry(&mut self, registry: RegistryRead, log: Option<String>) -> (m: Move)
        requires
            old(self)@.wf(),
        ensures
            final(self)@.wf(),
            after_registry(old(self)@, registry, final(self)@, m),
            json::opt_text(m.log) == match registry_log(old(self)@, registry) {
                Some(l) => Some(l),
                None => json::opt_text(log),
            },
    {
        match select(&registry, self.query.as_str(), self.for_agent) {
            Selection::Settled(r, detail) => {
                self.stage = Stage::Over;
                let log = match detail {
                    Some(d) => note("[memory authority] ", d.as_str()),
                    None => log,
                };
                Move { log, action: Action::Finish(r) }
            },
            Selection::Read(picks) => match registry {
                RegistryRead::Parsed(reg) => {
                    proof {
                        authority::law_private_sources_stay_closed(
                            reg,
                            self.query@,
                            self.for_agent,
                        );
                    }
                    self.registry = reg;
                    self.picks = picks;
                    self.reads = Vec::new();
                    proof {
                        assert(self.reads@ =~= Seq::<SourceRead>::empty());
                    }
                    if self.picks.len() == 0 {
                        self.stage = Stage::Over;
                        let a = finish(
                            &self.registry,
                            &self.picks,
                            &self.reads,
                            query_intent(self.query.as_str()),
                        );
                        return Move { log, action: Action::Finish(a) };
                    }
                    self.stage = Stage::Source;
                    self.ask(log)
                },
                _ => {
                    proof {
                        assert(false);
                    }
                    Move { log, action: Action::Parse(String::new()) }
                },
            },
        }
    }

    fn ask(&self, log: Option<String>) -> (m: Move)
        requires
            self@.wf(),
            self@.stage is Source,
        ensures
            asks_for(m, self@),
            m.log == log,
    {
        let p = self.picks[self.reads.len()];
        let path = self.registry.sources[p.index].path.as_str().to_owned();
        Move { log, action: Action::Read(path, SOURCE_LIMIT) }
    }

    fn source_note(&self, what: &str, why: &str) -> (r: Option<String>)
        requires
            self@.wf(),
            self@.stage is Source,
        ensures
            json::opt_text(r) == Some(
                "[memory authority] source "@ + current_id(self@) + what@ + why@,
            ),
    {
        let p = self.picks[self.reads.len()];
        let mut s = "[memory authority] source ".to_owned();
        s.append(self.registry.sources[p.index].id.as_str());
        s.append(what);
        s.append(why);
        Some(s)
    }

    /// What is to be printed of the bytes of the source that is being read.
    fn body_note(&self, b: &Vec<u8>) -> (r: Option<String>)
        requires
            self@.wf(),
            self@.stage is Source,
        ensures
            json::opt_text(r) == source_log(self@, b@),
    {
        if !within_aggregate(&self.reads, b.len()) {
            return None;
        }
        match text::from_utf8(b) {
            Ok(_) => None,
            Err(e) => self.source_note(" is not UTF-8: ", e.as_str()),
        }
    }

    fn take_source(&mut self, read: SourceRead, log: Option<String>) -> (m: Move)
        requires
            old(self)@.wf(),
            old(self)@.stage is Source,
        ensures
            final(self)@.wf(),
            after_source(old(self)@, read, final(self)@, m),
            m.log == log,
    {
        self.reads.push(read);
        let picks = first_picks(&self.picks, self.reads.len());
        let a = finish(
            &self.registry,
            &picks,
            &self.reads,
            query_intent(self.query.as_str()),
        );
        if a.notice.is_some() || self.reads.len() == self.picks.len() {
            self.stage = Stage::Over;
            return Move { log, action: Action::Finish(a) };
        }
        self.ask(log)
    }

    /// Goes on with what came of the last action.
    pub fn step(&mut self, e: Event) -> (m: Move)
        requires
            old(self)@.wf(),
            answers(old(self)@.stage, e),
        ensures
            final(self)@.wf(),
            after(old(self)@, e, final(self)@, m),
            json::opt_text(m.log) == log_of(old(self)@, e),
    {
        match e {
            Event::Bytes(b) => {
                if matches!(self.stage, Stage::Source) {
                    return match b {
                        Ok(v) => {
                            let log = self.body_note(&v);
                            self.take_source(SourceRead::Body(v), log)
                        },
                        Err(f) => {
                            let log = self.source_note(" read failed: ", f.text.as_str());
                            self.take_source(SourceRead::Unavailable, log)
                        },
                    };
                }
                match b {
                    Ok(v) => match text::from_utf8(&v) {
                        Ok(t) => {
                            self.stage = Stage::Parse;
                            Move { log: None, action: Action::Parse(t) }
                        },
                        Err(e) => self.take_registry(
                            RegistryRead::Unreadable,
                            note("[memory authority] registry is not UTF-8: ", e.as_str()),
                        ),
                    },
                    Err(f) => if f.missing {
                        self.take_registry(RegistryRead::Absent, None)
                    } else {
                        self.take_registry(
                            RegistryRead::Unreadable,
                            note("[memory authority] registry read failed: ", f.text.as_str()),
                        )
                    },
                }
            },
            Event::Parsed(p) => match p {
                Ok(reg) => self.take_registry(RegistryRead::Parsed(reg), None),
                Err(e) => self.take_registry(
                    RegistryRead::Unreadable,
                    note("[memory authority] registry parse failed: ", e.as_str()),
                ),
            },
        }
    }
}

// ── Laws ─────────────────────────────────────────────────────────────────────
/// A registry that is not there leaves generic recall as it is, and nothing is
/// read for it.
pub proof fn law_no_registry_no_change(r: ResolvingText, f: Fault, s: ResolvingText, m: Move)
    requires
        r.stage is Registry,
        f.missing,
        after(r, Event::Bytes(Err(f)), s, m),
    ensures
        settles(m, ResolutionKind::Absent, r.query, None),
{
}

/// A source that cannot be used settles the answer: no other is read.
pub proof fn law_a_bad_source_settles(r: ResolvingText, e: Event, s: ResolvingText, m: Move)
    requires
        r.wf(),
        r.stage is Source,
        answers(r.stage, e),
        after(r, e, s, m),
        notice_so_far(
            ResolvingText { reads: r.reads.push(source_read(e->Bytes_0)), ..r },
        ) is Some,
    ensures
        s.stage is Over,
        m.action matches Action::Finish(a) && a.kind is Invalid && a.sources@.len() == 0,
{
}

/// An agent is never read a source that is not marked as public.
pub proof fn law_private_sources_are_not_read(
    r: ResolvingText,
    registry: Registry,
    s: ResolvingText,
    m: Move,
)
    requires
        r.stage is Parse,
        after(r, Event::Parsed(Ok(registry)), s, m),
        s.stage is Source,
    ensures
        s.picks.len() <= authority::MAX_SOURCES,
        forall|k: int|
            0 <= k < s.picks.len() ==> (#[trigger] s.picks[k]).index < s.sources.len()
                && !authority::hidden(s.sources[s.picks[k].index as int], r.for_agent),
{
    authority::law_private_sources_stay_closed(registry, r.query, r.for_agent);
}

/// Whether a source of an answer is that of an entry which may be shown, with a
/// part of it that is neither empty nor longer than it may be.
pub open spec fn is_fit(
    a: authority::ResolvedSource,
    sources: Seq<authority::RegistrySource>,
    for_agent: bool,
) -> bool {
    &&& 0 < a.excerpt@.len() <= authority::MAX_EXCERPT_CHARS
    &&& exists|i: int|
        0 <= i < sources.len() && a.id@ == (#[trigger] sources[i]).id@ && a.path@
            == sources[i].path@ && !authority::hidden(sources[i], for_agent)
}

proof fn lemma_no_notice(
    s: Seq<authority::RegistrySource>,
    picks: Seq<Pick>,
    reads: Seq<SourceRead>,
    i: int,
    k: int,
)
    requires
        0 <= i <= k < picks.len(),
        authority::first_notice(s, picks, reads, i) is None,
    ensures
        authority::source_outcome(
            s[picks[k].index as int],
            reads[k],
            authority::bytes_of(reads, k),
        ) is Ok,
    decreases k - i,
{
    if i < k {
        lemma_no_notice(s, picks, reads, i + 1, k);
    }
}

proof fn lemma_answer_is_fit(a: Resolution, r: ResolvingText, n: int)
    requires
        r.wf(),
        0 < n <= r.picks.len(),
        n <= r.reads.len(),
        authority::is_answer(
            a,
            r.sources,
            r.picks.take(n),
            r.reads,
            authority::intent_of(r.query),
        ),
    ensures
        is_bounded(a, r),
{
    let p = r.picks.take(n);
    if authority::first_notice(r.sources, p, r.reads, 0) is None {
        assert forall|k: int| 0 <= k < a.sources@.len() implies is_fit(
            #[trigger] a.sources@[k],
            r.sources,
            r.for_agent,
        ) by {
            let source = r.sources[p[k].index as int];
            lemma_no_notice(r.sources, p, r.reads, 0, k);
            assert(p[k] == r.picks[k]);
            if let SourceRead::Body(b) = r.reads[k] {
                authority::law_excerpt_is_bounded(
                    vstd::utf8::decode_utf8(b@),
                    crate::llm_config::opt_text(source.heading),
                );
            }
            assert(a.sources@[k].id@ == source.id@);
        }
    }
}

/// What holds of every answer: it has the intent of the query; it has sources,
/// at most as many as may be read, if and only if it matched; it has a notice if
/// and only if the registry was meant to answer and did not; and each source is
/// fit to be shown.
pub open spec fn is_bounded(a: Resolution, r: ResolvingText) -> bool {
    &&& a.intent == authority::intent_of(r.query)
    &&& a.sources@.len() <= authority::MAX_SOURCES
    &&& (a.kind is Matched) == (a.sources@.len() > 0)
    &&& (a.notice is None) == (a.kind is Absent || a.kind is Unmatched || a.kind is Matched)
    &&& forall|k: int|
        0 <= k < a.sources@.len() ==> is_fit(#[trigger] a.sources@[k], r.sources, r.for_agent)
}

/// Every answer is bounded, whatever the registry and the sources hold.
pub proof fn law_every_answer_is_bounded(r: ResolvingText, e: Event, s: ResolvingText, m: Move)
    requires
        r.wf(),
        answers(r.stage, e),
        after(r, e, s, m),
    ensures
        m.action matches Action::Finish(a) ==> is_bounded(a, s),
{
    if let Event::Parsed(Ok(registry)) = e {
        authority::law_private_sources_stay_closed(registry, r.query, r.for_agent);
    }
    if let Action::Finish(a) = m.action {
        if r.stage is Source {
            lemma_answer_is_fit(a, s, s.reads.len() as int);
        }
    }
}

/// How much an answer has left to do.
pub open spec fn left(r: ResolvingText) -> int {
    match r.stage {
        Stage::Registry => authority::MAX_SOURCES + 2,
        Stage::Parse => authority::MAX_SOURCES + 1,
        Stage::Source => r.picks.len() - r.reads.len(),
        Stage::Over => 0,
    }
}

/// Every answer comes: each step leaves less to do.
pub proof fn law_every_answer_comes(r: ResolvingText, e: Event, s: ResolvingText, m: Move)
    requires
        r.wf(),
        answers(r.stage, e),
        after(r, e, s, m),
    ensures
        0 <= left(s) < left(r),
{
    if let Event::Parsed(Ok(registry)) = e {
        authority::law_private_sources_stay_closed(registry, r.query, r.for_agent);
    }
}

/// What is read for an answer is the next of the chosen sources, 131,072 bytes of it at
/// most; for an agent, only one that says it is not private.
pub proof fn law_what_is_read(r: ResolvingText, e: Event, s: ResolvingText, m: Move)
    requires
        r.wf(),
        answers(r.stage, e),
        after(r, e, s, m),
    ensures
        m.action matches Action::Read(path, limit) ==> {
            let source = s.sources[s.picks[s.reads.len() as int].index as int];
            &&& s.stage is Source
            &&& s.reads.len() < s.picks.len() <= 2
            &&& path@ == source.path@
            &&& limit == 131_072
            &&& r.for_agent ==> source.private == Some(false)
        },
        r.stage is Source ==> s.sources == r.sources && s.picks == r.picks && s.reads.len()
            == r.reads.len() + 1 && s.reads.drop_last() == r.reads,
        s.query == r.query && s.for_agent == r.for_agent,
{
    if let Event::Parsed(Ok(registry)) = e {
        authority::law_private_sources_stay_closed(registry, r.query, r.for_agent);
    }
    if r.stage is Source {
        assert(s.reads.drop_last() =~= r.reads);
    }
}

/// The bytes of a registry are parsed if and only if they are a text, and as that text.
/// Bytes that are none, a failure other than that there is no registry, and a registry
/// that does not parse settle the answer as invalid, with a line that says what was wrong.
pub proof fn law_a_registry_that_cannot_be_read(
    r: ResolvingText,
    e: Event,
    s: ResolvingText,
    m: Move,
)
    requires
        r.stage is Registry || r.stage is Parse,
        answers(r.stage, e),
        after(r, e, s, m),
        json::opt_text(m.log) == log_of(r, e),
    ensures
        (m.action is Parse) == (e matches Event::Bytes(Ok(v)) && vstd::utf8::valid_utf8(v@)),
        m.action matches Action::Parse(t) ==> t@ == vstd::utf8::decode_utf8((e->Bytes_0->Ok_0)@)
            && m.log is None,
        e matches Event::Bytes(Ok(v)) ==> vstd::utf8::valid_utf8(v@) || (m.action matches Action::Finish(
            a,
        ) && a.kind is Invalid && m.log is Some),
        e matches Event::Bytes(Err(f)) ==> f.missing || (m.action matches Action::Finish(a)
            && a.kind is Invalid && json::opt_text(m.log) == Some(
            "[memory authority] registry read failed: "@ + f.text@,
        )),
        e matches Event::Bytes(Err(f)) ==> !f.missing || (m.action matches Action::Finish(a)
            && a.kind is Absent && a.notice is None && m.log is None),
        e matches Event::Parsed(Err(error)) ==> (m.action matches Action::Finish(a)
            && a.kind is Invalid && json::opt_text(m.log) == Some(
            "[memory authority] registry parse failed: "@ + error@,
        )),
{
}

/// A source that cannot be read is told by its name, and so is one whose bytes are no
/// text unless they are too many; of any other nothing is told.
pub proof fn law_what_is_told_of_a_source(r: ResolvingText, e: Event, b: Vec<u8>, f: Fault)
    requires
        r.wf(),
        r.stage is Source,
    ensures
        ({
            let id = r.sources[r.picks[r.reads.len() as int].index as int].id@;
            &&& log_of(r, Event::Bytes(Err(f))) == Some(
                "[memory authority] source "@ + id + " read failed: "@ + f.text@,
            )
            &&& (log_of(r, Event::Bytes(Ok(b))) is Some) == (!vstd::utf8::valid_utf8(b@)
                && authority::bytes_of(r.reads, r.reads.len() as int) + b@.len() <= 262_144)
            &&& log_of(r, Event::Bytes(Ok(b))) is Some ==> log_of(r, Event::Bytes(Ok(b))) == Some(
                "[memory authority] source "@ + id + " is not UTF-8: "@ + text::utf8_error(b@),
            )
        }),
{
}

} // verus!
