//! The tables of the index, made or brought up to date step by step. An old
//! table of chunks is dropped once, so that every file is indexed again.
use crate::json;
use crate::memory::index::{self, chunks_step, needs_content_hash, ChunksStep};
use crate::text;
use vstd::prelude::*;

verus! {

/// What the setup waits for.
#[derive(Debug, Clone, Copy, PartialEq, Eq, Structural)]
pub enum Stage {
    Journal,
    Tables,
    There,
    Private,
    Marked,
    Rebuild,
    Mark,
    Chunks,
    Columns,
    Hash,
    Vectors,
    Over,
}

/// What the setup is told, in answer to its last action.
#[derive(Debug)]
pub enum Event {
    Done(Result<(), String>),
    /// How many there are, if that could be asked.
    Count(Option<i64>),
    /// Whether the column could be read.
    Readable(bool),
    Columns(Result<Vec<String>, String>),
}

/// What is to be done next.
#[derive(Debug)]
pub enum Action {
    /// Write ahead, if the database can.
    WriteAhead,
    MakeTables,
    CountChunkTables,
    ReadPrivate,
    CountMarks,
    /// Drop the chunks with their vectors and forget the files, and note it, as
    /// one transaction.
    DropChunks,
    /// Note that the chunks need no migration.
    MarkMigrated,
    MakeChunks,
    FileColumns,
    AddContentHash,
    MakeVectors,
    Finish(Result<(), String>),
}

pub enum ActionText {
    WriteAhead,
    MakeTables,
    CountChunkTables,
    ReadPrivate,
    CountMarks,
    DropChunks,
    MarkMigrated,
    MakeChunks,
    FileColumns,
    AddContentHash,
    MakeVectors,
    Done,
    Failed(Seq<char>),
}

impl View for Action {
    type V = ActionText;

    open spec fn view(&self) -> ActionText {
        match self {
            Action::WriteAhead => ActionText::WriteAhead,
            Action::MakeTables => ActionText::MakeTables,
            Action::CountChunkTables => ActionText::CountChunkTables,
            Action::ReadPrivate => ActionText::ReadPrivate,
            Action::CountMarks => ActionText::CountMarks,
            Action::DropChunks => ActionText::DropChunks,
            Action::MarkMigrated => ActionText::MarkMigrated,
            Action::MakeChunks => ActionText::MakeChunks,
            Action::FileColumns => ActionText::FileColumns,
            Action::AddContentHash => ActionText::AddContentHash,
            Action::MakeVectors => ActionText::MakeVectors,
            Action::Finish(r) => match r {
                Ok(_) => ActionText::Done,
                Err(e) => ActionText::Failed(e@),
            },
        }
    }
}

/// A step: what to print, then what to do.
#[derive(Debug)]
pub struct Move {
    pub log: Option<String>,
    pub action: Action,
}

pub struct MoveText {
    pub log: Option<Seq<char>>,
    pub action: ActionText,
}

impl View for Move {
    type V = MoveText;

    open spec fn view(&self) -> MoveText {
        MoveText { log: json::opt_text(self.log), action: self.action@ }
    }
}

/// A setup on its way.
#[derive(Debug)]
pub struct Setup {
    stage: Stage,
}

impl View for Setup {
    type V = Stage;

    closed spec fn view(&self) -> Stage {
        self.stage
    }
}

// ── What a setup does ────────────────────────────────────────────────────────
pub open spec fn quiet(action: ActionText) -> MoveText {
    MoveText { log: None, action }
}

pub open spec fn beginning() -> (Stage, MoveText) {
    (Stage::Journal, quiet(ActionText::WriteAhead))
}

pub open spec fn rebuild_note() -> Seq<char> {
    "  NOTE: Upgrading chunks schema (→ v3: private column + vectors). Files will be re-indexed."@
}

pub open spec fn make_chunks() -> (Stage, MoveText) {
    (Stage::Chunks, quiet(ActionText::MakeChunks))
}

/// The step to which what is known of the table of chunks leads.
pub open spec fn settled(there: bool, has_private: bool, migrated: bool) -> (Stage, MoveText) {
    if !there {
        (Stage::Mark, quiet(ActionText::MarkMigrated))
    } else if !has_private && !migrated {
        (
            Stage::Rebuild,
            MoveText { log: Some(rebuild_note()), action: ActionText::DropChunks },
        )
    } else {
        make_chunks()
    }
}

/// A count that could not be had is none.
pub open spec fn is_some_count(n: Option<i64>) -> bool {
    n is Some && n->0 > 0
}

pub open spec fn after_count(stage: Stage, n: Option<i64>) -> (Stage, MoveText) {
    if stage is There {
        if is_some_count(n) {
            (Stage::Private, quiet(ActionText::ReadPrivate))
        } else {
            settled(false, false, false)
        }
    } else {
        settled(true, false, is_some_count(n))
    }
}

pub open spec fn after_readable(readable: bool) -> (Stage, MoveText) {
    if readable {
        settled(true, true, false)
    } else {
        (Stage::Marked, quiet(ActionText::CountMarks))
    }
}

pub open spec fn after_columns(c: Result<Vec<String>, String>) -> (Stage, MoveText) {
    match c {
        Err(e) => (Stage::Over, quiet(ActionText::Failed(e@))),
        Ok(columns) => if text::texts(columns@).contains("content_hash"@) {
            (Stage::Vectors, quiet(ActionText::MakeVectors))
        } else {
            (Stage::Hash, quiet(ActionText::AddContentHash))
        },
    }
}

pub open spec fn after_success(stage: Stage) -> (Stage, MoveText) {
    match stage {
        Stage::Journal => (Stage::Tables, quiet(ActionText::MakeTables)),
        Stage::Tables => (Stage::There, quiet(ActionText::CountChunkTables)),
        Stage::Rebuild => make_chunks(),
        Stage::Mark => make_chunks(),
        Stage::Chunks => (Stage::Columns, quiet(ActionText::FileColumns)),
        Stage::Hash => (Stage::Vectors, quiet(ActionText::MakeVectors)),
        _ => (Stage::Over, quiet(ActionText::Done)),
    }
}

pub open spec fn after_done(stage: Stage, d: Result<(), String>) -> (Stage, MoveText) {
    match d {
        Err(e) => if stage is Journal {
            after_success(stage)
        } else {
            (Stage::Over, quiet(ActionText::Failed(e@)))
        },
        Ok(_) => after_success(stage),
    }
}

/// Whether an event answers what a setup waits for.
pub open spec fn answers(stage: Stage, e: Event) -> bool {
    match e {
        Event::Count(_) => stage is There || stage is Marked,
        Event::Readable(_) => stage is Private,
        Event::Columns(_) => stage is Columns,
        Event::Done(_) => stage is Journal || stage is Tables || stage is Rebuild || stage is Mark
            || stage is Chunks || stage is Hash || stage is Vectors,
    }
}

/// The step of a setup when it is told of an event.
pub open spec fn after(stage: Stage, e: Event) -> (Stage, MoveText) {
    match e {
        Event::Count(n) => after_count(stage, n),
        Event::Readable(b) => after_readable(b),
        Event::Columns(c) => after_columns(c),
        Event::Done(d) => after_done(stage, d),
    }
}

// ── The steps ────────────────────────────────────────────────────────────────
/// Starts the setup.
pub fn init_db() -> (r: (Setup, Move))
    ensures
        (r.0@, r.1@) == beginning(),
{
    (Setup { stage: Stage::Journal }, Move { log: None, action: Action::WriteAhead })
}

fn counted(n: Option<i64>) -> (b: bool)
    ensures
        b == is_some_count(n),
{
    match n {
        Some(x) => x > 0,
        None => false,
    }
}

impl Setup {
    fn go(&mut self, stage: Stage, action: Action) -> (m: Move)
        ensures
            (final(self)@, m@) == (stage, quiet(action@)),
    {
        self.stage = stage;
        Move { log: None, action }
    }

    fn settle(&mut self, there: bool, has_private: bool, migrated: bool) -> (m: Move)
        ensures
            (final(self)@, m@) == settled(there, has_private, migrated),
    {
        match chunks_step(there, has_private, migrated) {
            ChunksStep::MarkNew => self.go(Stage::Mark, Action::MarkMigrated),
            ChunksStep::Rebuild => {
                self.stage = Stage::Rebuild;
                Move {
                    log: Some(
                        "  NOTE: Upgrading chunks schema (→ v3: private column + vectors). Files will be re-indexed.".to_owned(),
                    ),
                    action: Action::DropChunks,
                }
            },
            ChunksStep::Keep => self.go(Stage::Chunks, Action::MakeChunks),
        }
    }

    fn succeed(&mut self) -> (m: Move)
        ensures
            (final(self)@, m@) == after_success(old(self)@),
    {
        match self.stage {
            Stage::Journal => self.go(Stage::Tables, Action::MakeTables),
            Stage::Tables => self.go(Stage::There, Action::CountChunkTables),
            Stage::Rebuild => self.go(Stage::Chunks, Action::MakeChunks),
            Stage::Mark => self.go(Stage::Chunks, Action::MakeChunks),
            Stage::Chunks => self.go(Stage::Columns, Action::FileColumns),
            Stage::Hash => self.go(Stage::Vectors, Action::MakeVectors),
            _ => self.go(Stage::Over, Action::Finish(Ok(()))),
        }
    }

    /// Goes on with what came of the last action.
    pub fn step(&mut self, e: Event) -> (m: Move)
        requires
            answers(old(self)@, e),
        ensures
            (final(self)@, m@) == after(old(self)@, e),
    {
        match e {
            Event::Count(n) => if matches!(self.stage, Stage::There) {
                if counted(n) {
                    self.go(Stage::Private, Action::ReadPrivate)
                } else {
                    self.settle(false, false, false)
                }
            } else {
                let migrated = counted(n);
                self.settle(true, false, migrated)
            },
            Event::Readable(b) => if b {
                self.settle(true, true, false)
            } else {
                self.go(Stage::Marked, Action::CountMarks)
            },
            Event::Columns(c) => match c {
                Err(error) => self.go(Stage::Over, Action::Finish(Err(error))),
                Ok(columns) => if needs_content_hash(&columns) {
                    self.go(Stage::Hash, Action::AddContentHash)
                } else {
                    self.go(Stage::Vectors, Action::MakeVectors)
                },
            },
            Event::Done(d) => match d {
                Err(error) => if matches!(self.stage, Stage::Journal) {
                    self.succeed()
                } else {
                    self.go(Stage::Over, Action::Finish(Err(error)))
                },
                Ok(_) => self.succeed(),
            },
        }
    }
}

// ── Laws ─────────────────────────────────────────────────────────────────────
/// Chunks are dropped only where their table is there, lacks its newest column
/// and was not dropped before.
pub proof fn law_dropped_only_if_old(before: Stage, d: Event, e: Event)
    requires
        answers(before, d),
        answers(after(before, d).0, e),
        after(after(before, d).0, e).1.action is DropChunks,
    ensures
        before is Private,
        d == Event::Readable(false),
        e matches Event::Count(n) && !is_some_count(n),
{
}

/// How much a setup has left to do.
pub open spec fn left(stage: Stage) -> int {
    match stage {
        Stage::Journal => 10,
        Stage::Tables => 9,
        Stage::There => 8,
        Stage::Private => 7,
        Stage::Marked => 6,
        Stage::Rebuild => 5,
        Stage::Mark => 5,
        Stage::Chunks => 4,
        Stage::Columns => 3,
        Stage::Hash => 2,
        Stage::Vectors => 1,
        Stage::Over => 0,
    }
}

/// Every setup ends: each step leaves less to do.
pub proof fn law_every_setup_ends(stage: Stage, e: Event)
    requires
        answers(stage, e),
    ensures
        0 <= left(after(stage, e).0) < left(stage),
{
}

/// The table of chunks is made anew where it is old, marked where it is new and left
/// alone in every other case; that it is made anew is told, and nothing else.
pub proof fn law_what_becomes_of_the_chunks(stage: Stage, e: Event)
    requires
        answers(stage, e),
    ensures
        ({
            let none = e matches Event::Count(n) && !(n is Some && n->0 > 0);
            let some = e matches Event::Count(n) && n is Some && n->0 > 0;
            let done = e matches Event::Done(Ok(_));
            let m = after(stage, e).1;
            &&& (m.action is MarkMigrated) == (stage is There && none)
            &&& (m.action is ReadPrivate) == (stage is There && some)
            &&& (m.action is CountMarks) == (e == Event::Readable(false))
            &&& (m.action is DropChunks) == (stage is Marked && none)
            &&& (m.action is MakeChunks) == (stage is Marked && some || e == Event::Readable(true)
                || ((stage is Rebuild || stage is Mark) && done))
            &&& (m.log is Some) == (m.action is DropChunks)
            &&& m.log is Some ==> m.log->0
                == "  NOTE: Upgrading chunks schema (→ v3: private column + vectors). Files will be re-indexed."@
        }),
{
}

/// The column for the hash is added where it is missing and nowhere else, the table of
/// vectors comes last, and only then is the setup done.
pub proof fn law_what_else_is_set_up(stage: Stage, e: Event)
    requires
        answers(stage, e),
    ensures
        ({
            let done = e matches Event::Done(Ok(_));
            let a = after(stage, e).1.action;
            &&& (a is MakeTables) == (stage is Journal)
            &&& (a is CountChunkTables) == (stage is Tables && done)
            &&& (a is FileColumns) == (stage is Chunks && done)
            &&& (a is AddContentHash) == (e matches Event::Columns(Ok(c)) && !text::texts(
                c@,
            ).contains("content_hash"@))
            &&& (a is MakeVectors) == ((stage is Hash && done) || (e matches Event::Columns(Ok(c))
                && text::texts(c@).contains("content_hash"@)))
            &&& (a is Done) == (stage is Vectors && done)
            &&& e matches Event::Columns(Err(error)) ==> a == ActionText::Failed(error@)
            &&& e matches Event::Done(Err(error)) ==> stage is Journal || a == ActionText::Failed(
                error@,
            )
        }),
{
}

} // verus!
