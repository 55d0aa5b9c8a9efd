//! A run over one transcript, step by step: what it asks for next, what it
//! tells, and what it leaves stored.
use crate::json;
use crate::memory::distill::{
    self, after_failure, after_success, candidate_error, effective_fact, resume, take_candidate,
    take_slice, Candidate, CandidateText, CandidateWrite, CandidateWriteText, Decision, DedupOutcome,
    DistillReport, FactWrite, Slice, SliceText, SpanStep, WriteText,
};
use crate::memory::provider::ProviderError;
use crate::telemetry::{TelemetryEvent, TelemetryText};
use crate::text;
use vstd::prelude::*;
use vstd::string::StringSliceAdditionalSpecFns;
use vstd::utf8;

verus! {

/// What a run waits for.
#[derive(Debug, Clone, Copy, PartialEq, Eq, Structural)]
pub enum Stage {
    Text,
    Offset,
    Strikes,
    Cap,
    Extraction,
    Failing,
    Begin,
    Savepoint,
    Outcome,
    Write,
    Rollback,
    Release,
    Closing,
    Over,
}

/// What a run is told, in answer to its last action.
#[derive(Debug)]
pub enum Event {
    Text(Result<String, String>),
    /// The stored watermark.
    Offset(Result<u64, String>),
    /// The configured input budget, where there is one, and the stored strikes.
    Strikes { base: Option<u32>, strikes: Result<u32, String> },
    /// How many bytes of the new text the cap allows.
    Cap(usize),
    /// The candidates, each with whether its predicate is a known one.
    Extracted(Result<Vec<(Candidate, bool)>, ProviderError>),
    Stored(Result<(), String>),
    Begun(Result<(), String>),
    Savepoint(Result<(), String>),
    Classified(Result<DedupOutcome, String>),
    Written(Result<(), String>),
    RolledBack,
    Released(Result<(), String>),
}

/// What is to be done next.
#[derive(Debug)]
pub enum Action {
    Read(String),
    LastOffset(String),
    Strikes(String),
    Cap { span: String, budget: u32 },
    Extract(String),
    /// Store the strikes, and the watermark where it moves, as one.
    Store { advance_to: Option<u64>, strikes: u32 },
    Begin,
    Savepoint,
    /// Look for facts like candidate number `index` with this predicate and
    /// object.
    Classify { index: usize, predicate: String, object: String },
    Write { index: usize, predicate: String, object: String, write: CandidateWrite },
    Rollback,
    Release,
    /// Move the watermark, forget the strikes, commit.
    Close { advance_to: u64 },
    Finish(Result<DistillReport, String>),
}

pub enum ActionText {
    Read(Seq<char>),
    LastOffset(Seq<char>),
    Strikes(Seq<char>),
    Cap { span: Seq<char>, budget: int },
    Extract(Seq<char>),
    Store { advance_to: Option<u64>, strikes: u32 },
    Begin,
    Savepoint,
    Classify { index: int, predicate: Seq<char>, object: Seq<char> },
    Write { index: int, predicate: Seq<char>, object: Seq<char>, write: CandidateWriteText },
    Rollback,
    Release,
    Close { advance_to: int },
    Done(DistillReport),
    Failed(Seq<char>),
}

impl View for Action {
    type V = ActionText;

    open spec fn view(&self) -> ActionText {
        match self {
            Action::Read(p) => ActionText::Read(p@),
            Action::LastOffset(p) => ActionText::LastOffset(p@),
            Action::Strikes(p) => ActionText::Strikes(p@),
            Action::Cap { span, budget } => ActionText::Cap { span: span@, budget: *budget as int },
            Action::Extract(s) => ActionText::Extract(s@),
            Action::Store { advance_to, strikes } => ActionText::Store {
                advance_to: *advance_to,
                strikes: *strikes,
            },
            Action::Begin => ActionText::Begin,
            Action::Savepoint => ActionText::Savepoint,
            Action::Classify { index, predicate, object } => ActionText::Classify {
                index: *index as int,
                predicate: predicate@,
                object: object@,
            },
            Action::Write { index, predicate, object, write } => ActionText::Write {
                index: *index as int,
                predicate: predicate@,
                object: object@,
                write: write@,
            },
            Action::Rollback => ActionText::Rollback,
            Action::Release => ActionText::Release,
            Action::Close { advance_to } => ActionText::Close { advance_to: *advance_to as int },
            Action::Finish(r) => match r {
                Ok(d) => ActionText::Done(*d),
                Err(e) => ActionText::Failed(e@),
            },
        }
    }
}

/// A step of a run: what to print, what to record, then what to do.
#[derive(Debug)]
pub struct Move {
    pub log: Option<String>,
    pub events: Vec<TelemetryEvent>,
    pub action: Action,
}

pub struct MoveText {
    pub log: Option<Seq<char>>,
    pub events: Seq<TelemetryText>,
    pub action: ActionText,
}

impl View for Move {
    type V = MoveText;

    open spec fn view(&self) -> MoveText {
        MoveText {
            log: json::opt_text(self.log),
            events: distill::event_texts(self.events@),
            action: self.action@,
        }
    }
}

/// A run on its way.
#[derive(Debug)]
pub struct FileRun {
    path: String,
    min_tokens: usize,
    full: String,
    stage: Stage,
    offset: usize,
    base: Option<u32>,
    strikes: u32,
    slice: Slice,
    candidates: Vec<(Candidate, bool)>,
    next: usize,
    report: DistillReport,
    pending: DistillReport,
}

/// What a run is, over texts and numbers: `next` is the candidate that it is
/// at, `pending` the report once that candidate is written.
pub struct RunText {
    pub path: Seq<char>,
    pub min_tokens: int,
    pub full: Seq<char>,
    pub stage: Stage,
    pub offset: int,
    pub base: Option<u32>,
    pub strikes: u32,
    pub slice: SliceText,
    pub candidates: Seq<(CandidateText, bool)>,
    pub next: int,
    pub report: DistillReport,
    pub pending: DistillReport,
}

pub open spec fn proposed(v: Seq<(Candidate, bool)>) -> Seq<(CandidateText, bool)> {
    v.map_values(|c: (Candidate, bool)| (c.0@, c.1))
}

impl View for FileRun {
    type V = RunText;

    closed spec fn view(&self) -> RunText {
        RunText {
            path: self.path@,
            min_tokens: self.min_tokens as int,
            full: self.full@,
            stage: self.stage,
            offset: self.offset as int,
            base: self.base,
            strikes: self.strikes,
            slice: self.slice@,
            candidates: proposed(self.candidates@),
            next: self.next as int,
            report: self.report,
            pending: self.pending,
        }
    }
}

// ── What a run does ──────────────────────────────────────────────────────────
pub open spec fn bytes(r: RunText) -> Seq<u8> {
    utf8::encode_utf8(r.full)
}

pub open spec fn span_bytes(r: RunText) -> Seq<u8> {
    bytes(r).subrange(r.offset, bytes(r).len() as int)
}

/// A step without words.
pub open spec fn go(r: RunText, stage: Stage, action: ActionText) -> (RunText, MoveText) {
    (RunText { stage, ..r }, MoveText { log: None, events: Seq::empty(), action })
}

pub open spec fn logged(s: (RunText, MoveText), log: Option<Seq<char>>) -> (RunText, MoveText) {
    (s.0, MoveText { log, ..s.1 })
}

pub open spec fn recorded(s: (RunText, MoveText), events: Seq<TelemetryText>) -> (
    RunText,
    MoveText,
) {
    (s.0, MoveText { events, ..s.1 })
}

/// The end of a run, with its report.
pub open spec fn done(r: RunText) -> (RunText, MoveText) {
    go(r, Stage::Over, ActionText::Done(r.report))
}

/// The end of a run that could not go on.
pub open spec fn failed(r: RunText, error: Seq<char>) -> (RunText, MoveText) {
    go(r, Stage::Over, ActionText::Failed(error))
}

pub open spec fn no_slice() -> SliceText {
    SliceText { path: Seq::empty(), offset: 0, bytes: 0, budget: 0, strikes: 0 }
}

pub open spec fn empty_report() -> DistillReport {
    DistillReport { adds: 0, updates: 0, noops: 0, flags: 0 }
}

pub open spec fn beginning(path: Seq<char>, min_tokens: int) -> (RunText, MoveText) {
    go(
        RunText {
            path,
            min_tokens,
            full: Seq::empty(),
            stage: Stage::Text,
            offset: 0,
            base: None,
            strikes: 0,
            slice: no_slice(),
            candidates: Seq::empty(),
            next: 0,
            report: empty_report(),
            pending: empty_report(),
        },
        Stage::Text,
        ActionText::Read(path),
    )
}

/// The step once the watermark is known: nothing is to be done where there is
/// no new text or too little of it.
pub open spec fn after_offset(r: RunText, stored: int) -> (RunText, MoveText) {
    let start = distill::resume_at(bytes(r), stored);
    let note = distill::resume_note(bytes(r), stored, r.path);
    if start >= bytes(r).len() || text::words(distill::text_from(bytes(r), start)).len()
        < r.min_tokens {
        logged(done(r), note)
    } else {
        logged(
            go(RunText { offset: start, ..r }, Stage::Strikes, ActionText::Strikes(r.path)),
            note,
        )
    }
}

pub open spec fn after_strikes(r: RunText, base: Option<u32>, strikes: u32) -> (RunText, MoveText) {
    go(
        RunText { base, strikes, ..r },
        Stage::Cap,
        ActionText::Cap {
            span: utf8::decode_utf8(span_bytes(r)),
            budget: distill::slice_budget(base, strikes),
        },
    )
}

pub open spec fn after_cap(r: RunText, cap: int) -> (RunText, MoveText) {
    let slice = distill::slice_of(r.path, r.offset, cap, r.base, r.strikes);
    logged(
        go(
            RunText { slice, ..r },
            Stage::Extraction,
            ActionText::Extract(utf8::decode_utf8(span_bytes(r).subrange(0, cap))),
        ),
        distill::slice_note(slice, span_bytes(r).len() as int),
    )
}

/// The step after a failed extraction: a problem of configuration stores
/// nothing.
pub open spec fn after_extract_failure(r: RunText, e: ProviderError) -> (RunText, MoveText) {
    let s = match distill::strikes_after(r.slice, e) {
        None => done(r),
        Some(n) => go(
            r,
            Stage::Failing,
            ActionText::Store { advance_to: distill::advance_after(r.slice, e), strikes: n },
        ),
    };
    logged(
        recorded(s, distill::failure_events(r.slice, e)),
        Some(distill::failure_log(r.slice, e)),
    )
}

/// The step to the candidate that the run is at, or past them all.
pub open spec fn to_candidate(r: RunText) -> (RunText, MoveText) {
    if r.next < r.candidates.len() {
        go(r, Stage::Savepoint, ActionText::Savepoint)
    } else {
        go(r, Stage::Closing, ActionText::Close { advance_to: r.slice.end() })
    }
}

/// The predicate and object of the candidate that the run is at.
pub open spec fn here(r: RunText) -> (Seq<char>, Seq<char>) {
    distill::effective(r.candidates[r.next].0, r.candidates[r.next].1)
}

/// What is printed of a candidate that failed.
pub open spec fn candidate_log(r: RunText, error: Seq<char>) -> Seq<char> {
    let c = r.candidates[r.next].0;
    "[distill] candidate failed (rolled back, slice continues): "@ + distill::triple(
        c.subject,
        c.predicate,
        c.object,
    ) + " in "@ + r.path + ": "@ + error
}

/// The step after a candidate failed: it is rolled back, loudly.
pub open spec fn candidate_failed(r: RunText, error: Seq<char>) -> (RunText, MoveText) {
    logged(
        recorded(
            go(r, Stage::Rollback, ActionText::Rollback),
            seq![distill::candidate_row(r.candidates[r.next].0, r.path, error)],
        ),
        Some(candidate_log(r, error)),
    )
}

/// What is printed where the judge has failed.
pub open spec fn judge_log(r: RunText, o: DedupOutcome) -> Option<Seq<char>> {
    match o {
        DedupOutcome::Judged(Err(e)) => Some(
            "[distill] judge failed for "@ + distill::triple(
                r.candidates[r.next].0.subject,
                here(r).0,
                here(r).1,
            ) + " in "@ + r.path + ": "@ + e@ + " — recording FLAG and continuing"@,
        ),
        _ => None,
    }
}

/// The step once it is known what a candidate is: what the facts gain is
/// written, what they cannot carry is recorded. A fact that is already there is
/// counted at once, anything else once it is written.
pub open spec fn after_outcome(r: RunText, o: DedupOutcome) -> (RunText, MoveText) {
    let report = distill::counted_outcome(r.report, o);
    let w = distill::candidate_write(
        r.candidates[r.next].0.subject,
        here(r).0,
        here(r).1,
        o,
        r.path,
    );
    let write = ActionText::Write {
        index: r.next,
        predicate: here(r).0,
        object: here(r).1,
        write: w,
    };
    match w {
        CandidateWriteText::Touch(_) => go(
            RunText { report, pending: report, ..r },
            Stage::Write,
            write,
        ),
        CandidateWriteText::Fact(f) => match f {
            WriteText::Event(v) => logged(
                recorded(
                    go(RunText { report, ..r }, Stage::Release, ActionText::Release),
                    seq![v],
                ),
                judge_log(r, o),
            ),
            WriteText::Nothing => go(
                RunText { report, ..r },
                Stage::Release,
                ActionText::Release,
            ),
            _ => go(RunText { pending: report, ..r }, Stage::Write, write),
        },
    }
}

pub open spec fn next_candidate(r: RunText) -> (RunText, MoveText) {
    to_candidate(RunText { next: r.next + 1, ..r })
}

/// Whether an event answers what a run waits for.
pub open spec fn answers(stage: Stage, e: Event) -> bool {
    match e {
        Event::Text(_) => stage is Text,
        Event::Offset(_) => stage is Offset,
        Event::Strikes { .. } => stage is Strikes,
        Event::Cap(_) => stage is Cap,
        Event::Extracted(_) => stage is Extraction,
        Event::Stored(_) => stage is Failing || stage is Closing,
        Event::Begun(_) => stage is Begin,
        Event::Savepoint(_) => stage is Savepoint,
        Event::Classified(_) => stage is Outcome,
        Event::Written(_) => stage is Write,
        Event::RolledBack => stage is Rollback,
        Event::Released(_) => stage is Release,
    }
}

/// What an event must bring: a cap that ends the slice between two characters,
/// and numbers that can be counted on.
pub open spec fn fits(r: RunText, e: Event) -> bool {
    match e {
        Event::Strikes { strikes: Ok(n), .. } => n < u32::MAX,
        Event::Cap(n) => n <= span_bytes(r).len() && utf8::is_char_boundary(
            span_bytes(r),
            n as int,
        ),
        Event::Extracted(Ok(v)) => v@.len() <= u32::MAX,
        _ => true,
    }
}

/// A step that goes on where something was done and ends the run where not.
pub open spec fn unless_failed(r: RunText, done: Result<(), String>, s: (RunText, MoveText)) -> (
    RunText,
    MoveText,
) {
    match done {
        Ok(_) => s,
        Err(e) => failed(r, e@),
    }
}

/// The step of a run when it is told of an event.
pub open spec fn after(r: RunText, e: Event) -> (RunText, MoveText) {
    match e {
        Event::Text(t) => match t {
            Ok(full) => go(
                RunText { full: full@, ..r },
                Stage::Offset,
                ActionText::LastOffset(r.path),
            ),
            Err(x) => failed(r, x@),
        },
        Event::Offset(o) => match o {
            Ok(stored) => after_offset(r, stored as int),
            Err(x) => failed(r, x@),
        },
        Event::Strikes { base, strikes } => match strikes {
            Ok(n) => after_strikes(r, base, n),
            Err(x) => failed(r, x@),
        },
        Event::Cap(n) => after_cap(r, n as int),
        Event::Extracted(c) => match c {
            Ok(v) => go(
                RunText { candidates: proposed(v@), ..r },
                Stage::Begin,
                ActionText::Begin,
            ),
            Err(x) => after_extract_failure(r, x),
        },
        Event::Stored(d) => unless_failed(
            r,
            d,
            if r.stage is Closing {
                recorded(done(r), seq![distill::slice_row(r.slice, "ok"@, 0, None)])
            } else {
                done(r)
            },
        ),
        Event::Begun(d) => unless_failed(r, d, to_candidate(r)),
        Event::Savepoint(d) => unless_failed(
            r,
            d,
            go(
                r,
                Stage::Outcome,
                ActionText::Classify { index: r.next, predicate: here(r).0, object: here(r).1 },
            ),
        ),
        Event::Classified(o) => match o {
            Ok(x) => after_outcome(r, x),
            Err(x) => candidate_failed(r, x@),
        },
        Event::Written(d) => match d {
            Ok(_) => go(RunText { report: r.pending, ..r }, Stage::Release, ActionText::Release),
            Err(x) => candidate_failed(r, x@),
        },
        Event::RolledBack => next_candidate(r),
        Event::Released(d) => unless_failed(r, d, next_candidate(r)),
    }
}

/// Everything that a report counts.
pub open spec fn total(d: DistillReport) -> int {
    d.adds + d.updates + d.noops + d.flags
}

/// What holds of every run: the text goes on at the start of a character, no
/// candidate is counted twice, and what the run is at is there.
pub open spec fn sound(r: RunText) -> bool {
    &&& 0 <= r.offset <= bytes(r).len() <= usize::MAX
    &&& utf8::is_char_boundary(bytes(r), r.offset)
    &&& r.stage is Text ==> r.offset == 0
    &&& r.strikes < u32::MAX
    &&& r.slice.wf()
    &&& 0 <= r.next <= r.candidates.len() <= u32::MAX
    &&& total(r.report) <= r.next + if r.stage is Write || r.stage is Release || r.stage
        is Rollback || r.stage is Over {
        1int
    } else {
        0
    }
    &&& r.stage is Write ==> total(r.pending) <= r.next + 1
    &&& r.stage is Savepoint || r.stage is Outcome || r.stage is Write || r.stage is Rollback
        || r.stage is Release ==> r.next < r.candidates.len()
    &&& r.stage is Text || r.stage is Offset || r.stage is Strikes || r.stage is Cap || r.stage
        is Extraction || r.stage is Begin ==> r.next == 0
}

// ── The steps ────────────────────────────────────────────────────────────────
fn silent(action: Action) -> (m: Move)
    ensures
        m@ == (MoveText { log: None, events: Seq::empty(), action: action@ }),
{
    let m = Move { log: None, events: Vec::new(), action };
    proof {
        assert(distill::event_texts(m.events@) =~= Seq::<TelemetryText>::empty());
    }
    m
}

fn with_log(m: Move, log: Option<String>) -> (r: Move)
    ensures
        r@ == (MoveText { log: json::opt_text(log), ..m@ }),
{
    Move { log, events: m.events, action: m.action }
}

fn with_event(m: Move, e: TelemetryEvent) -> (r: Move)
    ensures
        r@ == (MoveText { events: seq![e@], ..m@ }),
{
    let mut events: Vec<TelemetryEvent> = Vec::new();
    events.push(e);
    proof {
        assert(distill::event_texts(events@) =~= seq![e@]);
    }
    Move { log: m.log, events, action: m.action }
}

/// Starts a run over the transcript at `path`; a text of fewer than
/// `min_tokens` words waits.
pub fn run_on_file(path: &str, min_tokens: usize) -> (r: (FileRun, Move))
    ensures
        r.0.wf(),
        (r.0@, r.1@) == beginning(path@, min_tokens as int),
{
    let zero = DistillReport { adds: 0, updates: 0, noops: 0, flags: 0 };
    let run = FileRun {
        path: path.to_owned(),
        min_tokens,
        full: String::new(),
        stage: Stage::Text,
        offset: 0,
        base: None,
        strikes: 0,
        slice: Slice { path: String::new(), offset: 0, bytes: 0, budget: 0, strikes: 0 },
        candidates: Vec::new(),
        next: 0,
        report: zero,
        pending: zero,
    };
    proof {
        assert(run@.full =~= Seq::<char>::empty());
        assert(run@.slice.path =~= Seq::<char>::empty());
        assert(run@.candidates =~= Seq::<(CandidateText, bool)>::empty());
        utf8::encode_utf8_valid_utf8(run@.full);
        utf8::is_char_boundary_start_end_of_seq(bytes(run@));
        assert(bytes(run@).len() == 0);
    }
    (run, silent(Action::Read(path.to_owned())))
}

impl FileRun {
    /// What holds of every run.
    pub open spec fn wf(&self) -> bool {
        sound(self@)
    }

    fn done(&mut self) -> (m: Move)
        requires
            sound(RunText { stage: Stage::Over, ..old(self)@ }),
        ensures
            final(self).wf(),
            (final(self)@, m@) == done(old(self)@),
    {
        self.stage = Stage::Over;
        silent(Action::Finish(Ok(self.report)))
    }

    fn fail(&mut self, error: String) -> (m: Move)
        requires
            sound(RunText { stage: Stage::Over, ..old(self)@ }),
        ensures
            final(self).wf(),
            (final(self)@, m@) == failed(old(self)@, error@),
    {
        self.stage = Stage::Over;
        silent(Action::Finish(Err(error)))
    }

    fn take_text(&mut self, full: String) -> (m: Move)
        requires
            old(self).wf(),
            old(self)@.stage is Text,
        ensures
            final(self).wf(),
            (final(self)@, m@) == after(old(self)@, Event::Text(Ok(full))),
    {
        let len: usize = full.as_str().as_bytes().len();
        proof {
            utf8::encode_utf8_valid_utf8(full@);
            utf8::is_char_boundary_start_end_of_seq(utf8::encode_utf8(full@));
            assert(utf8::encode_utf8(full@).len() == len);
        }
        self.full = full;
        self.stage = Stage::Offset;
        silent(Action::LastOffset(self.path.as_str().to_owned()))
    }

    fn take_offset(&mut self, stored: u64) -> (m: Move)
        requires
            old(self).wf(),
            old(self)@.stage is Offset,
        ensures
            final(self).wf(),
            (final(self)@, m@) == after_offset(old(self)@, stored as int),
    {
        let r = resume(self.full.as_str(), self.path.as_str(), stored, self.min_tokens);
        match r.step {
            SpanStep::From(o) => {
                proof {
                    distill::lemma_resume_at(self.full@, stored as int);
                }
                self.offset = o;
                self.stage = Stage::Strikes;
                let m = silent(Action::Strikes(self.path.as_str().to_owned()));
                with_log(m, r.note)
            },
            _ => {
                let m = self.done();
                with_log(m, r.note)
            },
        }
    }

    fn span(&self) -> (s: &str)
        requires
            sound(self@),
        ensures
            s.spec_bytes() == span_bytes(self@),
            s@ == utf8::decode_utf8(span_bytes(self@)),
    {
        let (_, s) = self.full.as_str().split_at(self.offset);
        proof {
            utf8::encode_utf8_decode_utf8(s@);
        }
        s
    }

    fn take_strikes(&mut self, base: Option<u32>, strikes: u32) -> (m: Move)
        requires
            old(self).wf(),
            old(self)@.stage is Strikes,
            strikes < u32::MAX,
        ensures
            final(self).wf(),
            (final(self)@, m@) == after_strikes(old(self)@, base, strikes),
    {
        let budget: u32 = distill::input_budget(base, strikes);
        let span = self.span().to_owned();
        self.base = base;
        self.strikes = strikes;
        self.stage = Stage::Cap;
        silent(Action::Cap { span, budget })
    }

    fn take_cap(&mut self, cap: usize) -> (m: Move)
        requires
            old(self).wf(),
            old(self)@.stage is Cap,
            fits(old(self)@, Event::Cap(cap)),
        ensures
            final(self).wf(),
            (final(self)@, m@) == after_cap(old(self)@, cap as int),
    {
        let span = self.span();
        let len: usize = span.as_bytes().len();
        let (head, _) = span.split_at(cap);
        proof {
            utf8::encode_utf8_decode_utf8(head@);
            assert(head.spec_bytes() == span_bytes(self@).subrange(0, cap as int));
        }
        let piece = head.to_owned();
        let (slice, log) = take_slice(
            self.path.as_str(),
            self.offset as u64,
            len as u64,
            cap as u64,
            self.base,
            self.strikes,
        );
        self.slice = slice;
        self.stage = Stage::Extraction;
        with_log(silent(Action::Extract(piece)), log)
    }

    fn take_extract_failure(&mut self, e: &ProviderError) -> (m: Move)
        requires
            old(self).wf(),
            old(self)@.stage is Extraction,
        ensures
            final(self).wf(),
            (final(self)@, m@) == after_extract_failure(old(self)@, *e),
    {
        let plan = after_failure(&self.slice, e);
        let action = match plan.set_strikes {
            None => {
                self.stage = Stage::Over;
                Action::Finish(Ok(self.report))
            },
            Some(n) => {
                self.stage = Stage::Failing;
                Action::Store { advance_to: plan.advance_to, strikes: n }
            },
        };
        Move { log: plan.log, events: plan.events, action }
    }

    fn to_candidate(&mut self) -> (m: Move)
        requires
            sound(RunText { stage: Stage::Closing, ..old(self)@ }),
        ensures
            final(self).wf(),
            (final(self)@, m@) == to_candidate(old(self)@),
    {
        if self.next < self.candidates.len() {
            self.stage = Stage::Savepoint;
            silent(Action::Savepoint)
        } else {
            self.stage = Stage::Closing;
            silent(Action::Close { advance_to: self.slice.offset + self.slice.bytes })
        }
    }

    fn next_candidate(&mut self) -> (m: Move)
        requires
            old(self).wf(),
            old(self)@.stage is Rollback || old(self)@.stage is Release,
        ensures
            final(self).wf(),
            (final(self)@, m@) == next_candidate(old(self)@),
    {
        let count: usize = self.candidates.len();
        proof {
            assert(self.next < count);
        }
        self.next = self.next + 1;
        self.to_candidate()
    }

    fn here(&self) -> (r: (String, String))
        requires
            0 <= self@.next < self@.candidates.len(),
        ensures
            (r.0@, r.1@) == here(self@),
    {
        let c = &self.candidates[self.next];
        effective_fact(&c.0, c.1)
    }

    fn candidate_failed(&mut self, error: &str) -> (m: Move)
        requires
            old(self).wf(),
            old(self)@.stage is Outcome || old(self)@.stage is Write,
        ensures
            final(self).wf(),
            (final(self)@, m@) == candidate_failed(old(self)@, error@),
    {
        let c = &self.candidates[self.next].0;
        let e = candidate_error(c, self.path.as_str(), error);
        let mut log = "[distill] candidate failed (rolled back, slice continues): ".to_owned();
        let who = distill::triple_text(
            c.subject.as_str(),
            c.predicate.as_str(),
            c.object.as_str(),
        );
        log.append(who.as_str());
        log.append(" in ");
        log.append(self.path.as_str());
        log.append(": ");
        log.append(error);
        self.stage = Stage::Rollback;
        with_log(with_event(silent(Action::Rollback), e), Some(log))
    }

    fn judge_log(&self, o: &DedupOutcome) -> (r: Option<String>)
        requires
            0 <= self@.next < self@.candidates.len(),
        ensures
            json::is_text(r, judge_log(self@, *o)),
    {
        match o {
            DedupOutcome::Judged(Err(e)) => {
                let (pred, obj) = self.here();
                let mut log = "[distill] judge failed for ".to_owned();
                let who = distill::triple_text(
                    self.candidates[self.next].0.subject.as_str(),
                    pred.as_str(),
                    obj.as_str(),
                );
                log.append(who.as_str());
                log.append(" in ");
                log.append(self.path.as_str());
                log.append(": ");
                log.append(e.as_str());
                log.append(" — recording FLAG and continuing");
                Some(log)
            },
            _ => None,
        }
    }

    fn take_outcome(&mut self, o: &DedupOutcome) -> (m: Move)
        requires
            old(self).wf(),
            old(self)@.stage is Outcome,
        ensures
            final(self).wf(),
            (final(self)@, m@) == after_outcome(old(self)@, *o),
    {
        let (predicate, object) = self.here();
        let mut report = self.report;
        let write = take_candidate(
            &self.candidates[self.next].0,
            predicate.as_str(),
            object.as_str(),
            o,
            self.path.as_str(),
            &mut report,
        );
        let index: usize = self.next;
        match write {
            CandidateWrite::Touch(id) => {
                self.report = report;
                self.pending = report;
                self.stage = Stage::Write;
                let write = CandidateWrite::Touch(id);
                silent(Action::Write { index, predicate, object, write })
            },
            CandidateWrite::Fact(f) => match f {
                FactWrite::Event(v) => {
                    let log = self.judge_log(o);
                    self.report = report;
                    self.stage = Stage::Release;
                    with_log(with_event(silent(Action::Release), v), log)
                },
                FactWrite::Nothing => {
                    self.report = report;
                    self.stage = Stage::Release;
                    silent(Action::Release)
                },
                f => {
                    self.pending = report;
                    self.stage = Stage::Write;
                    let write = CandidateWrite::Fact(f);
                    silent(Action::Write { index, predicate, object, write })
                },
            },
        }
    }

    fn take_stored(&mut self, d: Result<(), String>) -> (m: Move)
        requires
            old(self).wf(),
            old(self)@.stage is Failing || old(self)@.stage is Closing,
        ensures
            final(self).wf(),
            (final(self)@, m@) == after(old(self)@, Event::Stored(d)),
    {
        match d {
            Err(x) => self.fail(x),
            Ok(_) => {
                let closing = matches!(self.stage, Stage::Closing);
                let m = self.done();
                if closing {
                    let plan = after_success(&self.slice);
                    Move { log: m.log, events: plan.events, action: m.action }
                } else {
                    m
                }
            },
        }
    }

    /// Goes on with what came of the last action.
    pub fn step(&mut self, e: Event) -> (m: Move)
        requires
            old(self).wf(),
            answers(old(self)@.stage, e),
            fits(old(self)@, e),
        ensures
            final(self).wf(),
            (final(self)@, m@) == after(old(self)@, e),
    {
        match e {
            Event::Text(t) => match t {
                Ok(full) => self.take_text(full),
                Err(x) => self.fail(x),
            },
            Event::Offset(o) => match o {
                Ok(stored) => self.take_offset(stored),
                Err(x) => self.fail(x),
            },
            Event::Strikes { base, strikes } => match strikes {
                Ok(n) => self.take_strikes(base, n),
                Err(x) => self.fail(x),
            },
            Event::Cap(n) => self.take_cap(n),
            Event::Extracted(c) => match c {
                Ok(v) => {
                    self.candidates = v;
                    self.stage = Stage::Begin;
                    silent(Action::Begin)
                },
                Err(x) => self.take_extract_failure(&x),
            },
            Event::Stored(d) => self.take_stored(d),
            Event::Begun(d) => match d {
                Ok(_) => self.to_candidate(),
                Err(x) => self.fail(x),
            },
            Event::Savepoint(d) => match d {
                Ok(_) => {
                    let (predicate, object) = self.here();
                    self.stage = Stage::Outcome;
                    silent(Action::Classify { index: self.next, predicate, object })
                },
                Err(x) => self.fail(x),
            },
            Event::Classified(o) => match o {
                Ok(x) => self.take_outcome(&x),
                Err(x) => self.candidate_failed(x.as_str()),
            },
            Event::Written(d) => match d {
                Ok(_) => {
                    self.report = self.pending;
                    self.stage = Stage::Release;
                    silent(Action::Release)
                },
                Err(x) => self.candidate_failed(x.as_str()),
            },
            Event::RolledBack => self.next_candidate(),
            Event::Released(d) => match d {
                Ok(_) => self.next_candidate(),
                Err(x) => self.fail(x),
            },
        }
    }
}

// ── Laws ─────────────────────────────────────────────────────────────────────
/// A problem of configuration leaves strikes and watermark alone: the run ends
/// with its report and stores nothing.
pub proof fn law_deferred_stores_nothing(r: RunText, e: ProviderError)
    requires
        r.stage is Extraction,
        e is Deferred,
    ensures
        after(r, Event::Extracted(Err(e))).1.action == ActionText::Done(r.report),
        after(r, Event::Extracted(Err(e))).0.stage is Over,
{
}

/// The watermark only ever moves to the end of the slice, and where it moves
/// the strikes are forgotten: after a slice that was taken in, and after one
/// that has failed too often.
pub proof fn law_watermark_moves_past_the_slice(r: RunText, e: Event)
    requires
        sound(r),
        answers(r.stage, e),
        fits(r, e),
    ensures
        match after(r, e).1.action {
            ActionText::Close { advance_to } => advance_to == after(r, e).0.slice.end(),
            ActionText::Store { advance_to: Some(o), strikes } => o == after(r, e).0.slice.end()
                && strikes == 0,
            _ => true,
        },
{
}

/// A candidate that cannot be looked up or written costs itself only: the
/// report stays as it was but for a fact that was already there, and the run
/// goes on with the next candidate.
pub proof fn law_a_failed_candidate_costs_only_itself(r: RunText, e: Event)
    requires
        sound(r),
        (r.stage is Outcome && e matches Event::Classified(Err(_))) || (r.stage is Write && e
            matches Event::Written(Err(_))),
    ensures
        after(r, e).1.action is Rollback,
        after(r, e).0.report == r.report,
        after(after(r, e).0, Event::RolledBack) == next_candidate(
            RunText { stage: Stage::Rollback, ..r },
        ),
{
}

/// How much a run has left to do: in the order of the parts.
pub open spec fn left(r: RunText) -> (int, int, int) {
    match r.stage {
        Stage::Text => (8, 0, 0),
        Stage::Offset => (7, 0, 0),
        Stage::Strikes => (6, 0, 0),
        Stage::Cap => (5, 0, 0),
        Stage::Extraction => (4, 0, 0),
        Stage::Begin => (3, 0, 0),
        Stage::Savepoint => (2, r.candidates.len() - r.next, 3),
        Stage::Outcome => (2, r.candidates.len() - r.next, 2),
        Stage::Write => (2, r.candidates.len() - r.next, 1),
        Stage::Rollback => (2, r.candidates.len() - r.next, 0),
        Stage::Release => (2, r.candidates.len() - r.next, 0),
        Stage::Failing => (1, 0, 0),
        Stage::Closing => (1, 0, 0),
        Stage::Over => (0, 0, 0),
    }
}

/// Every run ends: each step leaves less to do, and what holds of a run still
/// holds.
pub proof fn law_every_run_ends(r: RunText, e: Event)
    requires
        sound(r),
        answers(r.stage, e),
        fits(r, e),
        e matches Event::Text(Ok(full)) ==> utf8::encode_utf8(full@).len() <= usize::MAX,
    ensures
        sound(after(r, e).0),
        ({
            let a = left(r);
            let b = left(after(r, e).0);
            &&& b.0 >= 0 && b.1 >= 0 && b.2 >= 0
            &&& b.0 < a.0 || (b.0 == a.0 && b.1 < a.1) || (b.0 == a.0 && b.1 == a.1 && b.2 < a.2)
        }),
{
    match e {
        Event::Text(Ok(full)) => {
            utf8::encode_utf8_valid_utf8(full@);
            utf8::is_char_boundary_start_end_of_seq(utf8::encode_utf8(full@));
        },
        Event::Offset(Ok(stored)) => {
            distill::lemma_resume_at(r.full, stored as int);
        },
        _ => {},
    }
}

/// New text is asked about only where there are enough words of it from the watermark
/// on; else the run ends with nothing done.
pub proof fn law_too_little_text_waits(r: RunText, stored: u64)
    requires
        sound(r),
        r.stage is Offset,
    ensures
        ({
            let start = distill::resume_at(utf8::encode_utf8(r.full), stored as int);
            let len = utf8::encode_utf8(r.full).len();
            let s = after(r, Event::Offset(Ok(stored)));
            let enough = start < len && text::words(
                utf8::decode_utf8(utf8::encode_utf8(r.full).subrange(start, len as int)),
            ).len() >= r.min_tokens;
            &&& enough ==> s.1.action == ActionText::Strikes(r.path) && s.0.offset == start
            &&& !enough ==> s.1.action == ActionText::Done(r.report)
        }),
{
}

/// The model is asked about the front of the new text, as long as the cap allows, and
/// the slice is that part: it starts at the watermark and has that many bytes.
pub proof fn law_the_slice_is_what_is_asked_about(r: RunText, cap: usize)
    requires
        sound(r),
        r.stage is Cap,
        fits(r, Event::Cap(cap)),
    ensures
        ({
            let s = after(r, Event::Cap(cap));
            let b = utf8::encode_utf8(r.full);
            &&& s.1.action == ActionText::Extract(
                utf8::decode_utf8(b.subrange(r.offset, r.offset + cap)),
            )
            &&& s.0.slice.offset == r.offset
            &&& s.0.slice.bytes == cap
            &&& s.0.slice.path == r.path
            &&& s.0.slice.strikes == r.strikes
        }),
{
    let b = utf8::encode_utf8(r.full);
    assert(b.subrange(r.offset, b.len() as int).subrange(0, cap as int) =~= b.subrange(
        r.offset,
        r.offset + cap,
    ));
}

/// The budget of a slice is the configured one, halved for each strike.
pub proof fn law_the_budget_is_asked_for(r: RunText, base: Option<u32>, strikes: u32)
    requires
        sound(r),
        r.stage is Strikes,
    ensures
        after(r, Event::Strikes { base, strikes: Ok(strikes) }).1.action is Cap,
        after(r, Event::Strikes { base, strikes: Ok(strikes) }).1.action->Cap_budget
            == distill::slice_budget(base, strikes),
        after(r, Event::Strikes { base, strikes: Ok(strikes) }).0.strikes == strikes,
{
}

/// A slice is closed only behind its last candidate, with its end for the watermark and
/// a row that says that it went well.
pub proof fn law_a_slice_is_closed_at_its_end(r: RunText)
    requires
        sound(r),
        r.stage is Release || r.stage is Closing,
    ensures
        r.stage is Release && r.next + 1 == r.candidates.len() ==> after(
            r,
            Event::Released(Ok(())),
        ).1.action == (ActionText::Close { advance_to: r.slice.offset + r.slice.bytes }),
        r.stage is Release && r.next + 1 < r.candidates.len() ==> after(
            r,
            Event::Released(Ok(())),
        ).1.action is Savepoint && after(r, Event::Released(Ok(()))).0.next == r.next + 1,
        r.stage is Closing ==> after(r, Event::Stored(Ok(()))).1.action == ActionText::Done(r.report)
            && after(r, Event::Stored(Ok(()))).1.events.len() == 1 && after(
            r,
            Event::Stored(Ok(())),
        ).1.events[0].status == "ok"@,
{
}

/// A candidate is judged with the predicate and object that it is stored with, and what
/// is written of it is counted once it is written.
pub proof fn law_a_candidate_is_counted_when_written(r: RunText, d: Decision)
    requires
        sound(r),
        r.stage is Outcome,
        d.action is Add,
    ensures
        after(r, Event::Classified(Ok(DedupOutcome::Judged(Ok(d))))).1.action is Write,
        after(r, Event::Classified(Ok(DedupOutcome::Judged(Ok(d))))).0.report == r.report,
        after(r, Event::Classified(Ok(DedupOutcome::CleanAdd))).1.action is Write,
        after(r, Event::Classified(Ok(DedupOutcome::CleanAdd))).0.report == r.report,
        after(
            after(r, Event::Classified(Ok(DedupOutcome::CleanAdd))).0,
            Event::Written(Ok(())),
        ).0.report.adds == (r.report.adds + 1) as u32,
{
}

/// A run starts with reading its file; nothing has been asked, found or counted.
pub proof fn law_start(path: Seq<char>, min_tokens: int)
    ensures
        beginning(path, min_tokens).1.action == ActionText::Read(path),
        ({
            let r = beginning(path, min_tokens).0;
            &&& r.path == path && r.min_tokens == min_tokens
            &&& r.stage is Text
            &&& r.offset == 0 && r.strikes == 0 && r.next == 0
            &&& r.full.len() == 0 && r.candidates.len() == 0 && r.base is None
            &&& r.report.adds == 0 && r.report.updates == 0 && r.report.noops == 0
                && r.report.flags == 0
            &&& r.pending.adds == 0 && r.pending.updates == 0 && r.pending.noops == 0
                && r.pending.flags == 0
        }),
{
}

} // verus!
