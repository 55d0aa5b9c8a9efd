//! The migration of the facts to the columns of authority, step by step: as one
//! transaction, and not at all where a step fails.
use crate::json;
use crate::memory::schema::{
    self, additions, after_additions, has_status, status_error, validate_columns, ColumnDefinition,
    ColumnText, AUTHORITY_SCHEMA_VERSION,
};
use crate::text;
use vstd::prelude::*;

verus! {

/// What a look at the facts shows: their columns, and how many statuses are
/// none of the three where there is a column for them.
#[derive(Debug, Clone)]
pub struct Seen {
    pub columns: Vec<ColumnDefinition>,
    pub invalid: i64,
}

/// Whether every column is there, or what is wrong.
pub open spec fn verdict(columns: Seq<ColumnText>, invalid: i64) -> Result<bool, Seq<char>> {
    match schema::authority_check(columns) {
        Err(c) => Err(schema::misfit(c)),
        Ok(complete) => if schema::column(columns, "authority_status"@) is Some && invalid != 0 {
            Err(
                "authority schema: authority_status contains "@ + text::signed_numeral(
                    invalid as int,
                ) + " invalid values"@,
            )
        } else {
            Ok(complete)
        },
    }
}

pub open spec fn seen_verdict(s: Seen) -> Result<bool, Seq<char>> {
    verdict(schema::column_texts(s.columns@), s.invalid)
}

/// Whether every column is there, or what is wrong.
pub fn validate_authority_schema(s: &Seen) -> (r: Result<bool, String>)
    ensures
        match r {
            Ok(b) => seen_verdict(*s) == Ok::<bool, Seq<char>>(b),
            Err(e) => seen_verdict(*s) == Err::<bool, Seq<char>>(e@),
        },
{
    let complete = match validate_columns(&s.columns) {
        Ok(b) => b,
        Err(e) => {
            return Err(e);
        },
    };
    if has_status(&s.columns) {
        if let Some(e) = status_error(s.invalid) {
            return Err(e);
        }
    }
    Ok(complete)
}

/// What a migration waits for.
#[derive(Debug, Clone, Copy, PartialEq, Eq, Structural)]
pub enum Stage {
    FirstLook,
    FirstVersion,
    Begin,
    SecondLook,
    SecondVersion,
    Adding,
    LastLook,
    Record,
    Commit,
    Rollback,
    Over,
}

/// What a migration is told, in answer to its last action.
#[derive(Debug)]
pub enum Event {
    Seen(Result<Seen, String>),
    /// Whether the version is recorded.
    Version(Result<bool, String>),
    Done(Result<(), String>),
}

/// What is to be done next.
#[derive(Debug)]
pub enum Action {
    Look,
    Version(i64),
    Begin,
    Execute(String),
    Record(i64),
    Commit,
    Rollback,
    Finish(Result<(), String>),
}

pub enum ActionText {
    Look,
    Version(i64),
    Begin,
    Execute(Seq<char>),
    Record(i64),
    Commit,
    Rollback,
    Done,
    Failed(Seq<char>),
}

impl View for Action {
    type V = ActionText;

    open spec fn view(&self) -> ActionText {
        match self {
            Action::Look => ActionText::Look,
            Action::Version(n) => ActionText::Version(*n),
            Action::Begin => ActionText::Begin,
            Action::Execute(s) => ActionText::Execute(s@),
            Action::Record(n) => ActionText::Record(*n),
            Action::Commit => ActionText::Commit,
            Action::Rollback => ActionText::Rollback,
            Action::Finish(r) => match r {
                Ok(_) => ActionText::Done,
                Err(e) => ActionText::Failed(e@),
            },
        }
    }
}

/// A step: what to print, then what to do.
#[derive(Debug)]
pub struct Move {
    pub log: Option<String>,
    pub action: Action,
}

pub struct MoveText {
    pub log: Option<Seq<char>>,
    pub action: ActionText,
}

impl View for Move {
    type V = MoveText;

    open spec fn view(&self) -> MoveText {
        MoveText { log: json::opt_text(self.log), action: self.action@ }
    }
}

/// A migration on its way: `next` is the statement that it is at, `error` why
/// it is undone.
#[derive(Debug)]
pub struct Migration {
    stage: Stage,
    statements: Vec<String>,
    next: usize,
    error: String,
}

pub struct MigrationText {
    pub stage: Stage,
    pub statements: Seq<Seq<char>>,
    pub next: int,
    pub error: Seq<char>,
}

impl View for Migration {
    type V = MigrationText;

    closed spec fn view(&self) -> MigrationText {
        MigrationText {
            stage: self.stage,
            statements: text::texts(self.statements@),
            next: self.next as int,
            error: self.error@,
        }
    }
}

// ── What a migration does ────────────────────────────────────────────────────
pub open spec fn go(m: MigrationText, stage: Stage, action: ActionText) -> (MigrationText, MoveText) {
    (MigrationText { stage, ..m }, MoveText { log: None, action })
}

/// The end before a transaction was begun.
pub open spec fn failed(m: MigrationText, error: Seq<char>) -> (MigrationText, MoveText) {
    go(m, Stage::Over, ActionText::Failed(error))
}

pub open spec fn done(m: MigrationText) -> (MigrationText, MoveText) {
    go(m, Stage::Over, ActionText::Done)
}

/// The transaction is undone.
pub open spec fn undone(m: MigrationText, error: Seq<char>) -> (MigrationText, MoveText) {
    go(MigrationText { error, ..m }, Stage::Rollback, ActionText::Rollback)
}

/// The step to the statement that the migration is at, or past them.
pub open spec fn adding(m: MigrationText) -> (MigrationText, MoveText) {
    if m.next < m.statements.len() {
        go(m, Stage::Adding, ActionText::Execute(m.statements[m.next]))
    } else {
        go(m, Stage::LastLook, ActionText::Look)
    }
}

pub open spec fn beginning() -> (MigrationText, MoveText) {
    go(
        MigrationText {
            stage: Stage::FirstLook,
            statements: Seq::empty(),
            next: 0,
            error: Seq::empty(),
        },
        Stage::FirstLook,
        ActionText::Look,
    )
}

pub open spec fn after_first_look(m: MigrationText, v: Result<bool, Seq<char>>) -> (
    MigrationText,
    MoveText,
) {
    match v {
        Err(e) => failed(m, e),
        Ok(complete) => if complete {
            go(m, Stage::FirstVersion, ActionText::Version(AUTHORITY_SCHEMA_VERSION))
        } else {
            go(m, Stage::Begin, ActionText::Begin)
        },
    }
}

/// The statements that add what is missing.
pub open spec fn statements_for(columns: Seq<ColumnText>) -> Seq<Seq<char>> {
    schema::missing(columns, schema::authority_names().len() as int).map_values(
        |n: Seq<char>| schema::add_statement(n),
    )
}

/// The step after a look within the transaction: another process may have
/// migrated meanwhile.
pub open spec fn after_second_look(m: MigrationText, s: Seen) -> (MigrationText, MoveText) {
    let columns = schema::column_texts(s.columns@);
    let n = MigrationText { statements: statements_for(columns), ..m };
    match verdict(columns, s.invalid) {
        Err(e) => undone(m, e),
        Ok(complete) => if complete {
            go(n, Stage::SecondVersion, ActionText::Version(AUTHORITY_SCHEMA_VERSION))
        } else {
            adding(n)
        },
    }
}

pub open spec fn after_last_look(m: MigrationText, v: Result<bool, Seq<char>>) -> (
    MigrationText,
    MoveText,
) {
    match v {
        Err(e) => undone(m, e),
        Ok(complete) => if complete {
            go(m, Stage::Record, ActionText::Record(AUTHORITY_SCHEMA_VERSION))
        } else {
            undone(m, "authority schema: required columns remain missing after migration"@)
        },
    }
}

pub open spec fn after_look(m: MigrationText, seen: Result<Seen, String>) -> (
    MigrationText,
    MoveText,
) {
    match seen {
        Err(e) => if m.stage is FirstLook {
            failed(m, e@)
        } else {
            undone(m, e@)
        },
        Ok(s) => if m.stage is FirstLook {
            after_first_look(m, seen_verdict(s))
        } else if m.stage is SecondLook {
            after_second_look(m, s)
        } else {
            after_last_look(m, seen_verdict(s))
        },
    }
}

pub open spec fn after_version(m: MigrationText, v: Result<bool, String>) -> (
    MigrationText,
    MoveText,
) {
    let first = m.stage is FirstVersion;
    match v {
        Err(e) => if first {
            failed(m, e@)
        } else {
            undone(m, e@)
        },
        Ok(recorded) => if recorded {
            if first {
                done(m)
            } else {
                go(m, Stage::Commit, ActionText::Commit)
            }
        } else if first {
            go(m, Stage::Begin, ActionText::Begin)
        } else {
            adding(m)
        },
    }
}

/// What is printed where the transaction could not be undone.
pub open spec fn rollback_log(d: Result<(), String>) -> Option<Seq<char>> {
    match d {
        Ok(_) => None,
        Err(e) => Some("[schema] authority migration rollback warning: "@ + e@),
    }
}

pub open spec fn after_done(m: MigrationText, d: Result<(), String>) -> (MigrationText, MoveText) {
    if m.stage is Rollback {
        let s = failed(m, m.error);
        (s.0, MoveText { log: rollback_log(d), action: s.1.action })
    } else {
        match d {
            Err(e) => if m.stage is Begin {
                failed(m, e@)
            } else {
                undone(m, e@)
            },
            Ok(_) => if m.stage is Begin {
                go(m, Stage::SecondLook, ActionText::Look)
            } else if m.stage is Adding {
                adding(MigrationText { next: m.next + 1, ..m })
            } else if m.stage is Record {
                go(m, Stage::Commit, ActionText::Commit)
            } else {
                done(m)
            },
        }
    }
}

/// Whether an event answers what a migration waits for.
pub open spec fn answers(stage: Stage, e: Event) -> bool {
    match e {
        Event::Seen(_) => stage is FirstLook || stage is SecondLook || stage is LastLook,
        Event::Version(_) => stage is FirstVersion || stage is SecondVersion,
        Event::Done(_) => stage is Begin || stage is Adding || stage is Record || stage is Commit
            || stage is Rollback,
    }
}

/// The step of a migration when it is told of an event.
pub open spec fn after(m: MigrationText, e: Event) -> (MigrationText, MoveText) {
    match e {
        Event::Seen(s) => after_look(m, s),
        Event::Version(v) => after_version(m, v),
        Event::Done(d) => after_done(m, d),
    }
}

/// What holds of every migration.
pub open spec fn sound(m: MigrationText) -> bool {
    &&& 0 <= m.next <= m.statements.len()
    &&& m.stage is Adding ==> m.next < m.statements.len()
    &&& m.stage is FirstLook || m.stage is FirstVersion || m.stage is Begin || m.stage is SecondLook
        || m.stage is SecondVersion ==> m.next == 0
}

// ── The steps ────────────────────────────────────────────────────────────────
fn silent(action: Action) -> (m: Move)
    ensures
        m@ == (MoveText { log: None, action: action@ }),
{
    Move { log: None, action }
}

/// Starts the migration.
pub fn apply_authority_schema() -> (r: (Migration, Move))
    ensures
        r.0.wf(),
        (r.0@, r.1@) == beginning(),
{
    let m = Migration {
        stage: Stage::FirstLook,
        statements: Vec::new(),
        next: 0,
        error: String::new(),
    };
    proof {
        assert(m@.statements =~= Seq::<Seq<char>>::empty());
        assert(m@.error =~= Seq::<char>::empty());
    }
    (m, silent(Action::Look))
}

impl Migration {
    /// What holds of every migration.
    pub open spec fn wf(&self) -> bool {
        sound(self@)
    }

    fn fail(&mut self, error: String) -> (m: Move)
        requires
            old(self).wf(),
        ensures
            final(self).wf(),
            (final(self)@, m@) == failed(old(self)@, error@),
    {
        self.stage = Stage::Over;
        silent(Action::Finish(Err(error)))
    }

    fn done(&mut self) -> (m: Move)
        requires
            old(self).wf(),
        ensures
            final(self).wf(),
            (final(self)@, m@) == done(old(self)@),
    {
        self.stage = Stage::Over;
        silent(Action::Finish(Ok(())))
    }

    fn undo(&mut self, error: String) -> (m: Move)
        requires
            old(self).wf(),
        ensures
            final(self).wf(),
            (final(self)@, m@) == undone(old(self)@, error@),
    {
        self.error = error;
        self.stage = Stage::Rollback;
        silent(Action::Rollback)
    }

    fn add(&mut self) -> (m: Move)
        requires
            sound(MigrationText { stage: Stage::Over, ..old(self)@ }),
        ensures
            final(self).wf(),
            (final(self)@, m@) == adding(old(self)@),
    {
        proof {
            assert(text::texts(self.statements@).len() == self.statements@.len());
        }
        if self.next < self.statements.len() {
            let s = self.statements[self.next].as_str().to_owned();
            proof {
                assert(text::texts(self.statements@)[self.next as int] == s@);
            }
            self.stage = Stage::Adding;
            silent(Action::Execute(s))
        } else {
            self.stage = Stage::LastLook;
            silent(Action::Look)
        }
    }

    fn take_second_look(&mut self, s: &Seen) -> (m: Move)
        requires
            old(self).wf(),
            old(self)@.stage is SecondLook,
        ensures
            final(self).wf(),
            (final(self)@, m@) == after_second_look(old(self)@, *s),
    {
        match validate_authority_schema(s) {
            Err(e) => self.undo(e),
            Ok(complete) => {
                self.statements = additions(&s.columns);
                if complete {
                    self.stage = Stage::SecondVersion;
                    silent(Action::Version(AUTHORITY_SCHEMA_VERSION))
                } else {
                    self.add()
                }
            },
        }
    }

    fn take_look(&mut self, seen: Result<Seen, String>) -> (m: Move)
        requires
            old(self).wf(),
            answers(old(self)@.stage, Event::Seen(seen)),
        ensures
            final(self).wf(),
            (final(self)@, m@) == after_look(old(self)@, seen),
    {
        let first = matches!(self.stage, Stage::FirstLook);
        let s = match seen {
            Ok(s) => s,
            Err(e) => {
                return if first {
                    self.fail(e)
                } else {
                    self.undo(e)
                };
            },
        };
        if matches!(self.stage, Stage::SecondLook) {
            return self.take_second_look(&s);
        }
        match validate_authority_schema(&s) {
            Err(e) => if first {
                self.fail(e)
            } else {
                self.undo(e)
            },
            Ok(complete) => if first {
                if complete {
                    self.stage = Stage::FirstVersion;
                    silent(Action::Version(AUTHORITY_SCHEMA_VERSION))
                } else {
                    self.stage = Stage::Begin;
                    silent(Action::Begin)
                }
            } else {
                match after_additions(complete) {
                    Ok(_) => {
                        self.stage = Stage::Record;
                        silent(Action::Record(AUTHORITY_SCHEMA_VERSION))
                    },
                    Err(e) => self.undo(e),
                }
            },
        }
    }

    fn take_version(&mut self, v: Result<bool, String>) -> (m: Move)
        requires
            old(self).wf(),
            answers(old(self)@.stage, Event::Version(v)),
        ensures
            final(self).wf(),
            (final(self)@, m@) == after_version(old(self)@, v),
    {
        let first = matches!(self.stage, Stage::FirstVersion);
        match v {
            Err(e) => if first {
                self.fail(e)
            } else {
                self.undo(e)
            },
            Ok(recorded) => if recorded {
                if first {
                    self.done()
                } else {
                    self.stage = Stage::Commit;
                    silent(Action::Commit)
                }
            } else if first {
                self.stage = Stage::Begin;
                silent(Action::Begin)
            } else {
                self.add()
            },
        }
    }

    fn take_done(&mut self, d: Result<(), String>) -> (m: Move)
        requires
            old(self).wf(),
            answers(old(self)@.stage, Event::Done(d)),
        ensures
            final(self).wf(),
            (final(self)@, m@) == after_done(old(self)@, d),
    {
        if matches!(self.stage, Stage::Rollback) {
            let log = match d {
                Ok(_) => None,
                Err(e) => {
                    let mut l = "[schema] authority migration rollback warning: ".to_owned();
                    l.append(e.as_str());
                    Some(l)
                },
            };
            let error = self.error.as_str().to_owned();
            let m = self.fail(error);
            return Move { log, action: m.action };
        }
        let stage = self.stage;
        match d {
            Err(e) => if matches!(stage, Stage::Begin) {
                self.fail(e)
            } else {
                self.undo(e)
            },
            Ok(_) => match stage {
                Stage::Begin => {
                    self.stage = Stage::SecondLook;
                    silent(Action::Look)
                },
                Stage::Adding => {
                    let count: usize = self.statements.len();
                    proof {
                        assert(self.next < count);
                    }
                    self.next = self.next + 1;
                    self.add()
                },
                Stage::Record => {
                    self.stage = Stage::Commit;
                    silent(Action::Commit)
                },
                _ => self.done(),
            },
        }
    }

    /// Goes on with what came of the last action.
    pub fn step(&mut self, e: Event) -> (m: Move)
        requires
            old(self).wf(),
            answers(old(self)@.stage, e),
        ensures
            final(self).wf(),
            (final(self)@, m@) == after(old(self)@, e),
    {
        match e {
            Event::Seen(s) => self.take_look(s),
            Event::Version(v) => self.take_version(v),
            Event::Done(d) => self.take_done(d),
        }
    }
}

// ── Laws ─────────────────────────────────────────────────────────────────────
/// Whether a transaction is open while a migration waits.
pub open spec fn in_transaction(stage: Stage) -> bool {
    stage is SecondLook || stage is SecondVersion || stage is Adding || stage is LastLook || stage
        is Record || stage is Commit
}

/// A step that fails within the transaction undoes it, and the migration then
/// ends with that failure, whatever becomes of the undoing.
pub proof fn law_failure_is_undone(m: MigrationText, e: Event, undo: Result<(), String>)
    requires
        sound(m),
        in_transaction(m.stage),
        answers(m.stage, e),
        e matches Event::Done(Err(_)) || e matches Event::Version(Err(_)) || e matches Event::Seen(
            Err(_),
        ),
    ensures
        after(m, e).1.action is Rollback,
        after(after(m, e).0, Event::Done(undo)).1.action == ActionText::Failed(
            match e {
                Event::Seen(r) => r->Err_0@,
                Event::Version(r) => r->Err_0@,
                Event::Done(r) => r->Err_0@,
            },
        ),
        after(after(m, e).0, Event::Done(undo)).0.stage is Over,
{
}

/// The version is recorded only once a look has shown every column, within the
/// transaction.
pub proof fn law_recorded_only_complete(m: MigrationText, e: Event)
    requires
        sound(m),
        answers(m.stage, e),
        after(m, e).1.action is Record,
    ensures
        in_transaction(m.stage),
        e matches Event::Seen(Ok(s)) && seen_verdict(s) == Ok::<bool, Seq<char>>(true),
{
}

/// A database that is migrated is not touched.
pub proof fn law_migrated_stays(m: MigrationText, s: Seen)
    requires
        m == beginning().0,
        seen_verdict(s) == Ok::<bool, Seq<char>>(true),
    ensures
        ({
            let seen = after(m, Event::Seen(Ok(s)));
            &&& seen.1.action == ActionText::Version(AUTHORITY_SCHEMA_VERSION)
            &&& after(seen.0, Event::Version(Ok(true))).1.action is Done
        }),
{
}

/// How much a migration has left to do: in the order of the parts.
pub open spec fn left(m: MigrationText) -> (int, int) {
    match m.stage {
        Stage::FirstLook => (9, 0),
        Stage::FirstVersion => (8, 0),
        Stage::Begin => (7, 0),
        Stage::SecondLook => (6, 0),
        Stage::SecondVersion => (5, 0),
        Stage::Adding => (4, m.statements.len() - m.next),
        Stage::LastLook => (3, 0),
        Stage::Record => (2, 1),
        Stage::Commit => (2, 0),
        Stage::Rollback => (1, 0),
        Stage::Over => (0, 0),
    }
}

/// Every migration ends: each step leaves less to do, and what holds of a
/// migration still holds.
pub proof fn law_every_migration_ends(m: MigrationText, e: Event)
    requires
        sound(m),
        answers(m.stage, e),
    ensures
        sound(after(m, e).0),
        ({
            let a = left(m);
            let b = left(after(m, e).0);
            &&& b.0 >= 0 && b.1 >= 0
            &&& b.0 < a.0 || (b.0 == a.0 && b.1 < a.1)
        }),
{
}

/// Whether a look shows every column, each as it should be, and no status that is none
/// of the three.
pub open spec fn shows_all(e: Event) -> bool {
    e matches Event::Seen(Ok(s)) && seen_verdict(s) == Ok::<bool, Seq<char>>(true)
}

/// Whether a look shows that columns are missing, and nothing wrong.
pub open spec fn shows_some(e: Event) -> bool {
    e matches Event::Seen(Ok(s)) && seen_verdict(s) == Ok::<bool, Seq<char>>(false)
}

/// A transaction is begun where columns are missing or the version is not recorded; it
/// is committed once the version is, by this migration or by another.
pub proof fn law_when_a_migration_is_due(m: MigrationText, e: Event)
    requires
        sound(m),
        answers(m.stage, e),
    ensures
        ({
            let done = e matches Event::Done(Ok(_));
            let a = after(m, e).1.action;
            &&& (a is Begin) == ((m.stage is FirstLook && shows_some(e)) || (m.stage is FirstVersion
                && e matches Event::Version(Ok(false))))
            &&& (a is Commit) == ((m.stage is SecondVersion && e matches Event::Version(Ok(true)))
                || (m.stage is Record && done))
            &&& (a is Record) == (m.stage is LastLook && shows_all(e))
            &&& (a is Done) == ((m.stage is FirstVersion && e matches Event::Version(Ok(true))) || (
            m.stage is Commit && done))
            &&& (a is Version) == ((m.stage is FirstLook || m.stage is SecondLook) && shows_all(e))
            &&& a matches ActionText::Version(n) ==> n == 5
            &&& a matches ActionText::Record(n) ==> n == 5
            &&& m.stage is LastLook && shows_some(e) ==> a is Rollback
        }),
{
}

/// Within the transaction each missing column is added by a statement of its own, in
/// order and once, and then the columns are looked at again.
pub proof fn law_each_missing_column_is_added(m: MigrationText, e: Event)
    requires
        sound(m),
        answers(m.stage, e),
    ensures
        ({
            let d = after(m, e).0;
            let a = after(m, e).1.action;
            &&& a is Execute ==> d.next < d.statements.len() && a == ActionText::Execute(
                d.statements[d.next],
            )
            &&& m.stage is Adding && (e matches Event::Done(Ok(_))) ==> d.next == m.next + 1
                && d.statements == m.statements && (a is Execute || m.next + 1
                == m.statements.len())
            &&& m.stage is SecondLook && shows_some(e) ==> d.next == m.next && d.statements
                == statements_for(schema::column_texts((e->Seen_0->Ok_0).columns@))
            &&& a is Execute ==> (m.stage is SecondLook && shows_some(e)) || (m.stage
                is SecondVersion && e matches Event::Version(Ok(false))) || (m.stage is Adding
                && e matches Event::Done(Ok(_)))
        }),
{
}

/// A transaction that cannot be undone is told of; the migration still ends with what
/// made it fail.
pub proof fn law_undoing(m: MigrationText, d: Result<(), String>)
    requires
        m.stage is Rollback,
    ensures
        after(m, Event::Done(d)).1.action == ActionText::Failed(m.error),
        after(m, Event::Done(d)).1.log == match d {
            Ok(_) => None,
            Err(e) => Some("[schema] authority migration rollback warning: "@ + e@),
        },
{
}

/// A migration starts with a look at the facts; no statement is planned.
pub proof fn law_start()
    ensures
        beginning().1.action is Look && beginning().1.log is None,
        beginning().0.stage is FirstLook && beginning().0.statements.len() == 0
            && beginning().0.next == 0 && beginning().0.error.len() == 0,
{
}

} // verus!
