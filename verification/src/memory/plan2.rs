//! The tables of the facts, made or brought up to date step by step. The index
//! of an old database covers objects alone: it is made anew within one
//! transaction, or stays as it is.
use crate::json;
use crate::memory::schema::{self, backfill_note, facts_fts_needs_widening, FACTS_SCHEMA_VERSION};
use crate::text;
use vstd::prelude::*;

verus! {

/// What the setup waits for.
#[derive(Debug, Clone, Copy, PartialEq, Eq, Structural)]
pub enum Stage {
    Tables,
    Authority,
    Failures,
    Vectors,
    Look,
    Begin,
    LookAgain,
    Drop,
    Widen,
    Rebuild,
    Commit,
    Rollback,
    Index,
    Record,
    Over,
}

/// What a look at the index shows: how many tables of its name there are, and
/// how many columns for subjects.
#[derive(Debug, Clone, Copy)]
pub struct IndexSeen {
    pub tables: i64,
    pub subjects: i64,
}

/// What the setup is told, in answer to its last action.
#[derive(Debug)]
pub enum Event {
    Done(Result<(), String>),
    Seen(Result<IndexSeen, String>),
}

/// What is to be done next.
#[derive(Debug)]
pub enum Action {
    /// Make the tables that are not there.
    MakeTables,
    /// Migrate the facts to the columns of authority.
    MigrateAuthority,
    /// Add the column that counts failures.
    AddFailures,
    MakeVectors,
    LookAtIndex,
    Begin,
    DropIndex,
    MakeIndex,
    FillIndex,
    Commit,
    Rollback,
    Record(i64),
    Finish(Result<(), String>),
}

pub enum ActionText {
    MakeTables,
    MigrateAuthority,
    AddFailures,
    MakeVectors,
    LookAtIndex,
    Begin,
    DropIndex,
    MakeIndex,
    FillIndex,
    Commit,
    Rollback,
    Record(i64),
    Done,
    Failed(Seq<char>),
}

impl View for Action {
    type V = ActionText;

    open spec fn view(&self) -> ActionText {
        match self {
            Action::MakeTables => ActionText::MakeTables,
            Action::MigrateAuthority => ActionText::MigrateAuthority,
            Action::AddFailures => ActionText::AddFailures,
            Action::MakeVectors => ActionText::MakeVectors,
            Action::LookAtIndex => ActionText::LookAtIndex,
            Action::Begin => ActionText::Begin,
            Action::DropIndex => ActionText::DropIndex,
            Action::MakeIndex => ActionText::MakeIndex,
            Action::FillIndex => ActionText::FillIndex,
            Action::Commit => ActionText::Commit,
            Action::Rollback => ActionText::Rollback,
            Action::Record(n) => ActionText::Record(*n),
            Action::Finish(r) => match r {
                Ok(_) => ActionText::Done,
                Err(e) => ActionText::Failed(e@),
            },
        }
    }
}

/// A step: what to print, then what to do.
#[derive(Debug)]
pub struct Move {
    pub log: Option<String>,
    pub action: Action,
}

pub struct MoveText {
    pub log: Option<Seq<char>>,
    pub action: ActionText,
}

impl View for Move {
    type V = MoveText;

    open spec fn view(&self) -> MoveText {
        MoveText { log: json::opt_text(self.log), action: self.action@ }
    }
}

/// A setup on its way: whether the index was made anew, and why it is not.
#[derive(Debug)]
pub struct Setup {
    stage: Stage,
    widened: bool,
    error: String,
}

pub struct SetupText {
    pub stage: Stage,
    pub widened: bool,
    pub error: Seq<char>,
}

impl View for Setup {
    type V = SetupText;

    closed spec fn view(&self) -> SetupText {
        SetupText { stage: self.stage, widened: self.widened, error: self.error@ }
    }
}

// ── What a setup does ────────────────────────────────────────────────────────
pub open spec fn go(s: SetupText, stage: Stage, action: ActionText) -> (SetupText, MoveText) {
    (SetupText { stage, ..s }, MoveText { log: None, action })
}

pub open spec fn failed(s: SetupText, error: Seq<char>) -> (SetupText, MoveText) {
    go(s, Stage::Over, ActionText::Failed(error))
}

pub open spec fn undone(s: SetupText, error: Seq<char>) -> (SetupText, MoveText) {
    go(SetupText { error, ..s }, Stage::Rollback, ActionText::Rollback)
}

pub open spec fn beginning() -> (SetupText, MoveText) {
    go(
        SetupText { stage: Stage::Tables, widened: false, error: Seq::empty() },
        Stage::Tables,
        ActionText::MakeTables,
    )
}

pub open spec fn needs_widening(i: IndexSeen) -> bool {
    i.tables != 0 && i.subjects == 0
}

/// The step after a look at the index. The look is taken twice where the index
/// is an old one: another process may have made it anew meanwhile.
pub open spec fn after_look(s: SetupText, seen: Result<IndexSeen, String>) -> (
    SetupText,
    MoveText,
) {
    let first = s.stage is Look;
    match seen {
        Err(e) => if first {
            failed(s, e@)
        } else {
            undone(s, e@)
        },
        Ok(i) => if needs_widening(i) {
            if first {
                go(s, Stage::Begin, ActionText::Begin)
            } else {
                go(s, Stage::Drop, ActionText::DropIndex)
            }
        } else if first {
            go(s, Stage::Index, ActionText::MakeIndex)
        } else {
            go(s, Stage::Commit, ActionText::Commit)
        },
    }
}

/// What is printed of the column that counts failures: it may be there already.
pub open spec fn failures_log(d: Result<(), String>) -> Option<Seq<char>> {
    match d {
        Ok(_) => None,
        Err(e) => if text::contains(e@, "duplicate column"@) {
            None
        } else {
            Some("[schema] transcript_files.consecutive_failures backfill: "@ + e@)
        },
    }
}

pub open spec fn widened_log(widened: bool) -> Option<Seq<char>> {
    if widened {
        Some("[schema] facts_fts widened to subject+predicate+object and rebuilt"@)
    } else {
        None
    }
}

/// The step after an action that succeeded.
pub open spec fn after_success(s: SetupText) -> (SetupText, MoveText) {
    match s.stage {
        Stage::Tables => go(s, Stage::Authority, ActionText::MigrateAuthority),
        Stage::Authority => go(s, Stage::Failures, ActionText::AddFailures),
        Stage::Vectors => go(s, Stage::Look, ActionText::LookAtIndex),
        Stage::Begin => go(s, Stage::LookAgain, ActionText::LookAtIndex),
        Stage::Drop => go(s, Stage::Widen, ActionText::MakeIndex),
        Stage::Widen => go(s, Stage::Rebuild, ActionText::FillIndex),
        Stage::Rebuild => go(
            SetupText { widened: true, ..s },
            Stage::Commit,
            ActionText::Commit,
        ),
        Stage::Commit => (
            SetupText { stage: Stage::Record, ..s },
            MoveText {
                log: widened_log(s.widened),
                action: ActionText::Record(FACTS_SCHEMA_VERSION),
            },
        ),
        Stage::Index => go(s, Stage::Record, ActionText::Record(FACTS_SCHEMA_VERSION)),
        _ => go(s, Stage::Over, ActionText::Done),
    }
}

pub open spec fn after_done(s: SetupText, d: Result<(), String>) -> (SetupText, MoveText) {
    if s.stage is Failures {
        (
            SetupText { stage: Stage::Vectors, ..s },
            MoveText { log: failures_log(d), action: ActionText::MakeVectors },
        )
    } else if s.stage is Rollback {
        failed(s, s.error)
    } else {
        match d {
            Ok(_) => after_success(s),
            Err(e) => if s.stage is Drop || s.stage is Widen || s.stage is Rebuild {
                undone(s, e@)
            } else {
                failed(s, e@)
            },
        }
    }
}

/// Whether an event answers what a setup waits for.
pub open spec fn answers(stage: Stage, e: Event) -> bool {
    match e {
        Event::Seen(_) => stage is Look || stage is LookAgain,
        Event::Done(_) => !(stage is Look || stage is LookAgain || stage is Over),
    }
}

/// The step of a setup when it is told of an event.
pub open spec fn after(s: SetupText, e: Event) -> (SetupText, MoveText) {
    match e {
        Event::Seen(i) => after_look(s, i),
        Event::Done(d) => after_done(s, d),
    }
}

// ── The steps ────────────────────────────────────────────────────────────────
fn silent(action: Action) -> (m: Move)
    ensures
        m@ == (MoveText { log: None, action: action@ }),
{
    Move { log: None, action }
}

/// Starts the setup.
pub fn apply_plan2() -> (r: (Setup, Move))
    ensures
        (r.0@, r.1@) == beginning(),
{
    let s = Setup { stage: Stage::Tables, widened: false, error: String::new() };
    proof {
        assert(s@.error =~= Seq::<char>::empty());
    }
    (s, silent(Action::MakeTables))
}

impl Setup {
    fn go(&mut self, stage: Stage, action: Action) -> (m: Move)
        ensures
            (final(self)@, m@) == go(old(self)@, stage, action@),
    {
        self.stage = stage;
        silent(action)
    }

    fn fail(&mut self, error: String) -> (m: Move)
        ensures
            (final(self)@, m@) == failed(old(self)@, error@),
    {
        self.go(Stage::Over, Action::Finish(Err(error)))
    }

    fn undo(&mut self, error: String) -> (m: Move)
        ensures
            (final(self)@, m@) == undone(old(self)@, error@),
    {
        self.error = error;
        self.go(Stage::Rollback, Action::Rollback)
    }

    fn take_look(&mut self, seen: Result<IndexSeen, String>) -> (m: Move)
        ensures
            (final(self)@, m@) == after_look(old(self)@, seen),
    {
        let first = matches!(self.stage, Stage::Look);
        match seen {
            Err(e) => if first {
                self.fail(e)
            } else {
                self.undo(e)
            },
            Ok(i) => if facts_fts_needs_widening(i.tables, i.subjects) {
                if first {
                    self.go(Stage::Begin, Action::Begin)
                } else {
                    self.go(Stage::Drop, Action::DropIndex)
                }
            } else if first {
                self.go(Stage::Index, Action::MakeIndex)
            } else {
                self.go(Stage::Commit, Action::Commit)
            },
        }
    }

    fn take_success(&mut self) -> (m: Move)
        ensures
            (final(self)@, m@) == after_success(old(self)@),
    {
        match self.stage {
            Stage::Tables => self.go(Stage::Authority, Action::MigrateAuthority),
            Stage::Authority => self.go(Stage::Failures, Action::AddFailures),
            Stage::Vectors => self.go(Stage::Look, Action::LookAtIndex),
            Stage::Begin => self.go(Stage::LookAgain, Action::LookAtIndex),
            Stage::Drop => self.go(Stage::Widen, Action::MakeIndex),
            Stage::Widen => self.go(Stage::Rebuild, Action::FillIndex),
            Stage::Rebuild => {
                self.widened = true;
                self.go(Stage::Commit, Action::Commit)
            },
            Stage::Commit => {
                let log = if self.widened {
                    Some(
                        "[schema] facts_fts widened to subject+predicate+object and rebuilt".to_owned(),
                    )
                } else {
                    None
                };
                self.stage = Stage::Record;
                Move { log, action: Action::Record(FACTS_SCHEMA_VERSION) }
            },
            Stage::Index => self.go(Stage::Record, Action::Record(FACTS_SCHEMA_VERSION)),
            _ => self.go(Stage::Over, Action::Finish(Ok(()))),
        }
    }

    fn take_done(&mut self, d: Result<(), String>) -> (m: Move)
        ensures
            (final(self)@, m@) == after_done(old(self)@, d),
    {
        if matches!(self.stage, Stage::Failures) {
            let log = match d {
                Ok(_) => None,
                Err(e) => backfill_note(e.as_str()),
            };
            self.stage = Stage::Vectors;
            return Move { log, action: Action::MakeVectors };
        }
        if matches!(self.stage, Stage::Rollback) {
            let error = self.error.as_str().to_owned();
            return self.fail(error);
        }
        match d {
            Ok(_) => self.take_success(),
            Err(e) => match self.stage {
                Stage::Drop => self.undo(e),
                Stage::Widen => self.undo(e),
                Stage::Rebuild => self.undo(e),
                _ => self.fail(e),
            },
        }
    }

    /// Goes on with what came of the last action.
    pub fn step(&mut self, e: Event) -> (m: Move)
        requires
            answers(old(self)@.stage, e),
        ensures
            (final(self)@, m@) == after(old(self)@, e),
    {
        match e {
            Event::Seen(i) => self.take_look(i),
            Event::Done(d) => self.take_done(d),
        }
    }
}

// ── Laws ─────────────────────────────────────────────────────────────────────
/// The old index is dropped only within a transaction, after a second look that
/// still shows it.
pub proof fn law_dropped_only_if_still_old(s: SetupText, e: Event)
    requires
        answers(s.stage, e),
        after(s, e).1.action is DropIndex,
    ensures
        s.stage is LookAgain,
        e matches Event::Seen(Ok(i)) && needs_widening(i),
{
}

/// A failure while the index is made anew undoes the transaction, and the setup
/// ends with that failure.
pub proof fn law_failed_widening_is_undone(s: SetupText, error: String, undo: Result<(), String>)
    requires
        s.stage is Drop || s.stage is Widen || s.stage is Rebuild,
    ensures
        after(s, Event::Done(Err(error))).1.action is Rollback,
        after(after(s, Event::Done(Err(error))).0, Event::Done(undo)).1.action
            == ActionText::Failed(error@),
{
}

/// An index over subjects is never dropped, and the setup of such a database
/// goes straight to recording the version.
pub proof fn law_wide_index_stays(s: SetupText, i: IndexSeen)
    requires
        s.stage is Look,
        !needs_widening(i),
    ensures
        ({
            let seen = after(s, Event::Seen(Ok(i)));
            &&& seen.1.action is MakeIndex
            &&& after(seen.0, Event::Done(Ok(()))).1.action == ActionText::Record(
                FACTS_SCHEMA_VERSION,
            )
        }),
{
}

/// How much a setup has left to do.
pub open spec fn left(stage: Stage) -> int {
    match stage {
        Stage::Tables => 14,
        Stage::Authority => 13,
        Stage::Failures => 12,
        Stage::Vectors => 11,
        Stage::Look => 10,
        Stage::Begin => 9,
        Stage::LookAgain => 8,
        Stage::Drop => 7,
        Stage::Widen => 6,
        Stage::Rebuild => 5,
        Stage::Commit => 4,
        Stage::Rollback => 1,
        Stage::Index => 3,
        Stage::Record => 2,
        Stage::Over => 0,
    }
}

/// Every setup ends: each step leaves less to do.
pub proof fn law_every_setup_ends(s: SetupText, e: Event)
    requires
        answers(s.stage, e),
    ensures
        0 <= left(after(s, e).0.stage) < left(s.stage),
{
}

/// An old index, one that covers objects alone, is dropped, made and filled again
/// within one transaction; whatever else the index is, it is only made where missing.
pub proof fn law_what_becomes_of_the_index(s: SetupText, e: Event)
    requires
        answers(s.stage, e),
    ensures
        ({
            let done = e matches Event::Done(Ok(_));
            let old_one = e matches Event::Seen(Ok(i)) && i.tables != 0 && i.subjects == 0;
            let other = e matches Event::Seen(Ok(i)) && !(i.tables != 0 && i.subjects == 0);
            let m = after(s, e).1;
            &&& (m.action is Begin) == (s.stage is Look && old_one)
            &&& (m.action is DropIndex) == (s.stage is LookAgain && old_one)
            &&& (m.action is MakeIndex) == ((s.stage is Look && other) || (s.stage is Drop && done))
            &&& (m.action is FillIndex) == (s.stage is Widen && done)
            &&& (m.action is Commit) == ((s.stage is LookAgain && other) || (s.stage is Rebuild
                && done))
            &&& after(s, e).0.widened == (s.widened || (s.stage is Rebuild && done))
            &&& s.stage is Commit && done ==> m.log == if s.widened {
                Some("[schema] facts_fts widened to subject+predicate+object and rebuilt"@)
            } else {
                None
            }
        }),
{
}

/// The tables come first, then the columns of authority, the column that counts
/// failures, the vectors and the index, and the version last.
pub proof fn law_order_of_the_setup(s: SetupText, e: Event)
    requires
        answers(s.stage, e),
    ensures
        ({
            let done = e matches Event::Done(Ok(_));
            let a = after(s, e).1.action;
            &&& (a is MigrateAuthority) == (s.stage is Tables && done)
            &&& (a is AddFailures) == (s.stage is Authority && done)
            &&& (a is MakeVectors) == (s.stage is Failures)
            &&& (a is LookAtIndex) == ((s.stage is Vectors || s.stage is Begin) && done)
            &&& (a is Record) == ((s.stage is Commit || s.stage is Index) && done)
            &&& a matches ActionText::Record(n) ==> n == 4
            &&& (a is Done) == (s.stage is Record && done)
            &&& e matches Event::Done(Err(error)) ==> s.stage is Failures || s.stage is Drop
                || s.stage is Widen || s.stage is Rebuild || s.stage is Rollback || a
                == ActionText::Failed(error@)
        }),
{
}

/// That the column which counts failures is there already is no news; another failure to
/// add it is told and stops nothing.
pub proof fn law_the_column_that_counts_failures(s: SetupText, d: Result<(), String>)
    requires
        s.stage is Failures,
    ensures
        after(s, Event::Done(d)).1.action is MakeVectors,
        (after(s, Event::Done(d)).1.log is Some) == (d is Err && !text::contains(
            d->Err_0@,
            "duplicate column"@,
        )),
        after(s, Event::Done(d)).1.log is Some ==> after(s, Event::Done(d)).1.log->0
            == "[schema] transcript_files.consecutive_failures backfill: "@ + d->Err_0@,
{
}

/// The setup starts with the tables; nothing has been made anew and nothing has failed.
pub proof fn law_start()
    ensures
        beginning().1.action is MakeTables && beginning().1.log is None,
        beginning().0.stage is Tables && !beginning().0.widened && beginning().0.error.len() == 0,
{
}

} // verus!
