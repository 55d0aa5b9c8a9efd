//! A run of the indexer, step by step: what it asks for next, what it prints,
//! what it counts and how it ends.
use crate::json;
use crate::memory::index::{self, contains_text, content_hash};
use crate::paths;
use crate::text::{self, decimal, str_eq, trim_str};
use vstd::prelude::*;

verus! {

/// A file that discovery has found.
#[derive(Debug, Clone)]
pub struct SourceFile {
    pub path: String,
    /// The path below the workspace, where it is below it.
    pub rel: Option<String>,
    pub strategy: String,
}

pub struct FileText {
    pub path: Seq<char>,
    pub rel: Option<Seq<char>>,
    pub strategy: Seq<char>,
}

impl View for SourceFile {
    type V = FileText;

    open spec fn view(&self) -> FileText {
        FileText { path: self.path@, rel: json::opt_text(self.rel), strategy: self.strategy@ }
    }
}

/// What an earlier run has recorded of a file.
#[derive(Debug, Clone)]
pub struct Record {
    pub path: String,
    pub hash: String,
}

pub struct RecordText {
    pub path: Seq<char>,
    pub hash: Seq<char>,
}

impl View for Record {
    type V = RecordText;

    open spec fn view(&self) -> RecordText {
        RecordText { path: self.path@, hash: self.hash@ }
    }
}

/// What became of the lock that one run at a time holds.
#[derive(Debug, Clone)]
pub enum LockState {
    Taken,
    Busy,
    Failed(String),
}

/// What became of a record that was to be removed.
#[derive(Debug, Clone)]
pub enum Removal {
    /// There was none any more.
    Absent,
    ChunksFailed(String),
    RecordFailed(String),
    Done,
}

/// What a run waits for.
#[derive(Debug, Clone, Copy, PartialEq, Eq, Structural)]
pub enum Stage {
    Directory,
    Lock,
    Discovery,
    Database,
    Schema,
    Model,
    Records,
    Clock,
    Mtime,
    Content,
    Refresh,
    Indexing,
    Cleanup,
    Backfill,
    Stamp,
    Over,
}

/// What a run is told, in answer to its last action.
#[derive(Debug)]
pub enum Event {
    Directory(Result<(), String>),
    Lock(LockState),
    Files(Result<Vec<SourceFile>, String>),
    Database(Result<(), String>),
    Schema(Result<(), String>),
    Model(Result<(), String>),
    Records(Vec<Record>),
    /// Nanoseconds since the run began.
    Elapsed(u128),
    /// Whether the recorded time of modification is that of the file.
    SameMtime(bool),
    Content(Result<String, String>),
    Refreshed(Result<(), String>),
    /// The number of chunks of a file that was indexed.
    Indexed(Result<usize, String>),
    Removed(Removal),
    /// The number of vectors that were made.
    Backfilled(Result<usize, String>),
    /// The seconds that the run took, as they are printed.
    Stamped(String),
}

/// What is to be done next.
#[derive(Debug)]
pub enum Action {
    MakeDir(String),
    TakeLock(String),
    Discover,
    OpenDb(String),
    InitDb,
    LoadModel,
    ReadRecords,
    Clock,
    CompareMtime { path: String, rel: String },
    Read(String),
    RefreshMtime { path: String, rel: String },
    Index { path: String, rel: String, strategy: String, content: String },
    Remove(String),
    /// Make up to so many missing vectors.
    Backfill(usize),
    /// Record the time and the mode of the run; tell how long it took, with so
    /// many decimals.
    Stamp { mode: &'static str, decimals: usize },
    Exit(i32),
}

pub enum ActionText {
    MakeDir(Seq<char>),
    TakeLock(Seq<char>),
    Discover,
    OpenDb(Seq<char>),
    InitDb,
    LoadModel,
    ReadRecords,
    Clock,
    CompareMtime { path: Seq<char>, rel: Seq<char> },
    Read(Seq<char>),
    RefreshMtime { path: Seq<char>, rel: Seq<char> },
    Index { path: Seq<char>, rel: Seq<char>, strategy: Seq<char>, content: Seq<char> },
    Remove(Seq<char>),
    Backfill(usize),
    Stamp { mode: Seq<char>, decimals: usize },
    Exit(i32),
}

impl View for Action {
    type V = ActionText;

    open spec fn view(&self) -> ActionText {
        match self {
            Action::MakeDir(p) => ActionText::MakeDir(p@),
            Action::TakeLock(p) => ActionText::TakeLock(p@),
            Action::Discover => ActionText::Discover,
            Action::OpenDb(p) => ActionText::OpenDb(p@),
            Action::InitDb => ActionText::InitDb,
            Action::LoadModel => ActionText::LoadModel,
            Action::ReadRecords => ActionText::ReadRecords,
            Action::Clock => ActionText::Clock,
            Action::CompareMtime { path, rel } => ActionText::CompareMtime {
                path: path@,
                rel: rel@,
            },
            Action::Read(p) => ActionText::Read(p@),
            Action::RefreshMtime { path, rel } => ActionText::RefreshMtime {
                path: path@,
                rel: rel@,
            },
            Action::Index { path, rel, strategy, content } => ActionText::Index {
                path: path@,
                rel: rel@,
                strategy: strategy@,
                content: content@,
            },
            Action::Remove(p) => ActionText::Remove(p@),
            Action::Backfill(n) => ActionText::Backfill(*n),
            Action::Stamp { mode, decimals } => ActionText::Stamp {
                mode: mode@,
                decimals: *decimals,
            },
            Action::Exit(c) => ActionText::Exit(*c),
        }
    }
}

/// A line to print, to the error stream where it is an error.
#[derive(Debug, Clone)]
pub struct Line {
    pub text: String,
    pub error: bool,
}

/// A step of a run: what to print, then what to do.
#[derive(Debug)]
pub struct Move {
    pub line: Option<Line>,
    pub action: Action,
}

pub struct MoveText {
    pub line: Option<(Seq<char>, bool)>,
    pub action: ActionText,
}

impl View for Move {
    type V = MoveText;

    open spec fn view(&self) -> MoveText {
        MoveText {
            line: match self.line {
                Some(l) => Some((l.text@, l.error)),
                None => None,
            },
            action: self.action@,
        }
    }
}

/// A run on its way.
#[derive(Debug)]
pub struct IndexRun {
    root: String,
    full: bool,
    budget: Option<u64>,
    stage: Stage,
    files: Vec<SourceFile>,
    records: Vec<Record>,
    next: usize,
    stale: Vec<String>,
    gone: usize,
    indexed: usize,
    skipped_mtime: usize,
    skipped_hash: usize,
    removed: usize,
    total_chunks: usize,
    over_budget: bool,
}

/// What a run is, over texts and numbers. `next` is the file that it is at,
/// `gone` the number of stale records that it has gone through.
pub struct RunText {
    pub root: Seq<char>,
    pub full: bool,
    pub budget: Option<u64>,
    pub stage: Stage,
    pub files: Seq<FileText>,
    pub records: Seq<RecordText>,
    pub next: int,
    pub gone: int,
    pub indexed: int,
    pub skipped_mtime: int,
    pub skipped_hash: int,
    pub removed: int,
    pub total_chunks: int,
    pub over_budget: bool,
}

pub open spec fn file_texts(v: Seq<SourceFile>) -> Seq<FileText> {
    v.map_values(|f: SourceFile| f@)
}

pub open spec fn record_texts(v: Seq<Record>) -> Seq<RecordText> {
    v.map_values(|r: Record| r@)
}

impl View for IndexRun {
    type V = RunText;

    closed spec fn view(&self) -> RunText {
        RunText {
            root: self.root@,
            full: self.full,
            budget: self.budget,
            stage: self.stage,
            files: file_texts(self.files@),
            records: record_texts(self.records@),
            next: self.next as int,
            gone: self.gone as int,
            indexed: self.indexed as int,
            skipped_mtime: self.skipped_mtime as int,
            skipped_hash: self.skipped_hash as int,
            removed: self.removed as int,
            total_chunks: self.total_chunks as int,
            over_budget: self.over_budget,
        }
    }
}

// ── What a run does ──────────────────────────────────────────────────────────
/// Nanoseconds in a second.
pub const NANOS_PER_SEC: u128 = 1_000_000_000;

/// Most vectors that one run makes up for.
pub const BACKFILL_CAP: usize = 500;

/// The mode of a run, as it is recorded.
pub open spec fn mode(full: bool) -> Seq<char> {
    if full {
        "full"@
    } else {
        "incremental"@
    }
}

pub open spec fn exceeded(budget: Option<u64>, elapsed_nanos: int) -> bool {
    budget is Some && elapsed_nanos > budget->0 * NANOS_PER_SEC
}

/// The hash that is recorded of a path.
pub open spec fn recorded(records: Seq<RecordText>, path: Seq<char>) -> Option<Seq<char>>
    decreases records.len(),
{
    if records.len() == 0 {
        None
    } else if records.last().path == path {
        Some(records.last().hash)
    } else {
        recorded(records.drop_last(), path)
    }
}

pub open spec fn record_paths(records: Seq<RecordText>) -> Seq<Seq<char>> {
    records.map_values(|r: RecordText| r.path)
}

/// The paths of the files below the workspace.
pub open spec fn rel_paths(files: Seq<FileText>) -> Seq<Seq<char>>
    decreases files.len(),
{
    if files.len() == 0 {
        Seq::empty()
    } else {
        match files.last().rel {
            Some(p) => rel_paths(files.drop_last()).push(p),
            None => rel_paths(files.drop_last()),
        }
    }
}

/// The recorded paths that discovery has not found any more.
pub open spec fn stale_paths(r: RunText) -> Seq<Seq<char>> {
    index::missing(record_paths(r.records), rel_paths(r.files))
}

/// What a run does with a file that it has read.
#[derive(Debug, Clone, Copy, PartialEq, Eq, Structural)]
pub enum FileStep {
    /// The file holds no text.
    Blank,
    /// Only the recorded time of modification is renewed.
    SameContent,
    /// The file is indexed anew.
    Index,
}

pub open spec fn content_step(full: bool, hash: Option<Seq<char>>, content: Seq<char>) -> FileStep {
    if text::trim(content).len() == 0 {
        FileStep::Blank
    } else if !full && hash is Some && hash->0.len() > 0 && hash->0 == index::sha256_hex(content) {
        FileStep::SameContent
    } else {
        FileStep::Index
    }
}

/// What is said when the budget is used up before the next file.
pub open spec fn bail_message(r: RunText) -> Seq<char> {
    "hex memory index: EXCEEDED "@ + text::numeral(r.budget->0 as nat)
        + "s wall-clock budget after "@ + text::numeral(r.indexed as nat) + " indexed ("@
        + text::numeral((r.files.len() - r.next) as nat) + " of "@ + text::numeral(r.files.len())
        + " files unprocessed) — bailing loudly; remaining resume next tick (set HEX_INDEX_BUDGET_SECS to tune, 0 disables)"@
}

/// What is said of a file that was indexed into `n` chunks.
pub open spec fn indexed_message(
    rel_path: Seq<char>,
    strategy: Seq<char>,
    n: nat,
) -> Option<Seq<char>> {
    if n > 0 {
        Some(
            "  Indexed: "@ + rel_path + " ("@ + text::numeral(n) + " chunks"@ + (if strategy
                != "full"@ {
                " ["@ + strategy + "]"@
            } else {
                Seq::empty()
            }) + ")"@,
        )
    } else if strategy == "summary"@ {
        Some("  Indexed: "@ + rel_path + " (0 chunks, no summaries found [summary])"@)
    } else {
        None
    }
}

/// What was passed over.
pub open spec fn skipped_message(r: RunText) -> Seq<char> {
    text::numeral(r.indexed as nat) + " indexed, "@ + text::numeral(r.skipped_mtime as nat)
        + " unchanged (mtime), "@ + text::numeral(r.skipped_hash as nat) + " unchanged (hash), "@
}

/// The last words of a run.
pub open spec fn last_message(r: RunText, elapsed: Seq<char>) -> Seq<char> {
    if r.over_budget {
        "hex memory index: BAILED after "@ + elapsed + "s over budget — "@ + skipped_message(r)
            + text::numeral(r.total_chunks as nat)
            + " new chunks; cleanup + backfill skipped, resuming next tick"@
    } else {
        "\nDone in "@ + elapsed + "s: "@ + skipped_message(r) + text::numeral(r.removed as nat)
            + " removed, "@ + text::numeral(r.total_chunks as nat) + " new chunks"@
    }
}

/// A step to an action that is waited for in `stage`.
pub open spec fn go(r: RunText, stage: Stage, action: ActionText) -> (RunText, MoveText) {
    (RunText { stage, ..r }, MoveText { line: None, action })
}

/// A step with a line.
pub open spec fn told(s: (RunText, MoveText), line: Seq<char>, error: bool) -> (RunText, MoveText) {
    (s.0, MoveText { line: Some((line, error)), action: s.1.action })
}

/// A step with a line where there is one.
pub open spec fn maybe_told(
    s: (RunText, MoveText),
    line: Option<Seq<char>>,
    error: bool,
) -> (RunText, MoveText) {
    match line {
        Some(l) => told(s, l, error),
        None => s,
    }
}

/// A run that has failed.
pub open spec fn quit(r: RunText, line: Seq<char>) -> (RunText, MoveText) {
    told(go(r, Stage::Over, ActionText::Exit(1)), line, true)
}

/// The step to the next stale record, or to what comes after them.
pub open spec fn to_cleanup(r: RunText) -> (RunText, MoveText) {
    if r.gone < stale_paths(r).len() {
        go(r, Stage::Cleanup, ActionText::Remove(stale_paths(r)[r.gone]))
    } else {
        go(r, Stage::Backfill, ActionText::Backfill(BACKFILL_CAP))
    }
}

/// The step to the file that the run is at, or to what comes after the files.
pub open spec fn to_file(r: RunText) -> (RunText, MoveText) {
    if r.next < r.files.len() {
        go(r, Stage::Clock, ActionText::Clock)
    } else {
        to_cleanup(r)
    }
}

/// The step past the file that the run is at.
pub open spec fn past(r: RunText) -> (RunText, MoveText) {
    to_file(RunText { next: r.next + 1, ..r })
}

pub open spec fn lock_path(root: Seq<char>) -> Seq<char> {
    paths::joined(root, ".hex/memory-index.lock"@)
}

pub open spec fn database_path(root: Seq<char>) -> Seq<char> {
    paths::joined(root, ".hex/memory.db"@)
}

/// The path below the workspace of the file that the run is at.
pub open spec fn here(r: RunText) -> Seq<char> {
    r.files[r.next].rel->0
}

pub open spec fn reading(r: RunText) -> (RunText, MoveText) {
    go(r, Stage::Content, ActionText::Read(r.files[r.next].path))
}

/// Whether an event answers what a run waits for.
pub open spec fn answers(stage: Stage, e: Event) -> bool {
    match e {
        Event::Directory(_) => stage is Directory,
        Event::Lock(_) => stage is Lock,
        Event::Files(_) => stage is Discovery,
        Event::Database(_) => stage is Database,
        Event::Schema(_) => stage is Schema,
        Event::Model(_) => stage is Model,
        Event::Records(_) => stage is Records,
        Event::Elapsed(_) => stage is Clock,
        Event::SameMtime(_) => stage is Mtime,
        Event::Content(_) => stage is Content,
        Event::Refreshed(_) => stage is Refresh,
        Event::Indexed(_) => stage is Indexing,
        Event::Removed(_) => stage is Cleanup,
        Event::Backfilled(_) => stage is Backfill,
        Event::Stamped(_) => stage is Stamp,
    }
}

/// The first step of a run.
pub open spec fn beginning(root: Seq<char>, full: bool, budget: Option<u64>) -> (
    RunText,
    MoveText,
) {
    go(
        RunText {
            root,
            full,
            budget,
            stage: Stage::Directory,
            files: Seq::empty(),
            records: Seq::empty(),
            next: 0,
            gone: 0,
            indexed: 0,
            skipped_mtime: 0,
            skipped_hash: 0,
            removed: 0,
            total_chunks: 0,
            over_budget: false,
        },
        Stage::Directory,
        ActionText::MakeDir(paths::joined(root, ".hex"@)),
    )
}

/// The step once the outcome of a preparation is known: the next one, or the
/// end with what went wrong.
pub open spec fn prepared(
    r: RunText,
    done: Result<(), String>,
    stage: Stage,
    action: ActionText,
    failure: Seq<char>,
) -> (RunText, MoveText) {
    match done {
        Ok(_) => go(r, stage, action),
        Err(e) => quit(r, failure + e@),
    }
}

pub open spec fn after_lock(r: RunText, s: LockState) -> (RunText, MoveText) {
    match s {
        LockState::Taken => go(r, Stage::Discovery, ActionText::Discover),
        LockState::Busy => told(
            go(r, Stage::Over, ActionText::Exit(0)),
            "hex memory index: another run is in progress — skipping"@,
            false,
        ),
        LockState::Failed(e) => quit(
            r,
            "hex memory index: cannot open lock "@ + lock_path(r.root) + ": "@ + e@,
        ),
    }
}

pub open spec fn after_discovery(r: RunText, found: Result<Vec<SourceFile>, String>) -> (
    RunText,
    MoveText,
) {
    match found {
        Ok(v) => go(
            RunText { files: file_texts(v@), ..r },
            Stage::Database,
            ActionText::OpenDb(database_path(r.root)),
        ),
        Err(e) => quit(r, "hex memory index: source discovery failed: "@ + e@),
    }
}

pub open spec fn after_records(r: RunText, v: Seq<RecordText>) -> (RunText, MoveText) {
    told(
        to_file(RunText { records: v, ..r }),
        "Found "@ + text::numeral(r.files.len()) + " files to check"@,
        false,
    )
}

/// The step before a file: the end, where the budget is used up; else the file,
/// unless it is not below the workspace. An incremental run first compares the
/// times of modification where one is recorded.
pub open spec fn after_clock(r: RunText, elapsed: int) -> (RunText, MoveText) {
    if exceeded(r.budget, elapsed) {
        told(
            go(
                RunText { over_budget: true, ..r },
                Stage::Stamp,
                ActionText::Stamp { mode: mode(r.full), decimals: 1 },
            ),
            bail_message(r),
            true,
        )
    } else if r.files[r.next].rel is None {
        past(r)
    } else if !r.full && recorded(r.records, here(r)) is Some {
        go(
            r,
            Stage::Mtime,
            ActionText::CompareMtime { path: r.files[r.next].path, rel: here(r) },
        )
    } else {
        reading(r)
    }
}

pub open spec fn after_content(r: RunText, read: Result<String, String>) -> (RunText, MoveText) {
    match read {
        Err(e) => told(past(r), "  SKIP "@ + here(r) + ": "@ + e@, true),
        Ok(c) => match content_step(r.full, recorded(r.records, here(r)), c@) {
            FileStep::Blank => past(r),
            FileStep::SameContent => go(
                r,
                Stage::Refresh,
                ActionText::RefreshMtime { path: r.files[r.next].path, rel: here(r) },
            ),
            FileStep::Index => go(
                r,
                Stage::Indexing,
                ActionText::Index {
                    path: r.files[r.next].path,
                    rel: here(r),
                    strategy: r.files[r.next].strategy,
                    content: c@,
                },
            ),
        },
    }
}

pub open spec fn after_refresh(r: RunText, done: Result<(), String>) -> (RunText, MoveText) {
    let s = past(RunText { skipped_hash: r.skipped_hash + 1, ..r });
    match done {
        Ok(_) => s,
        Err(e) => told(s, "[memory index] mtime refresh failed for "@ + here(r) + ": "@ + e@, true),
    }
}

pub open spec fn after_indexing(r: RunText, done: Result<usize, String>) -> (RunText, MoveText) {
    match done {
        Ok(n) => maybe_told(
            past(
                RunText {
                    indexed: r.indexed + if n > 0 {
                        1int
                    } else {
                        0
                    },
                    total_chunks: r.total_chunks + n,
                    ..r
                },
            ),
            indexed_message(here(r), r.files[r.next].strategy, n as nat),
            false,
        ),
        Err(e) => told(past(r), "  ERROR indexing "@ + here(r) + ": "@ + e@, true),
    }
}

pub open spec fn after_removal(r: RunText, done: Removal) -> (RunText, MoveText) {
    let path = stale_paths(r)[r.gone];
    let s = to_cleanup(RunText { gone: r.gone + 1, ..r });
    match done {
        Removal::Absent => s,
        Removal::ChunksFailed(e) => told(
            s,
            "  ERROR removing chunks for "@ + path + ": "@ + e@,
            true,
        ),
        Removal::RecordFailed(e) => told(
            s,
            "  ERROR removing file record "@ + path + ": "@ + e@,
            true,
        ),
        Removal::Done => told(
            to_cleanup(RunText { gone: r.gone + 1, removed: r.removed + 1, ..r }),
            "  Removed: "@ + path,
            false,
        ),
    }
}

pub open spec fn after_backfill(r: RunText, done: Result<usize, String>) -> (RunText, MoveText) {
    let s = go(r, Stage::Stamp, ActionText::Stamp { mode: mode(r.full), decimals: 2 });
    match done {
        Ok(n) => if n == 0 {
            s
        } else {
            told(
                s,
                "index: backfilled "@ + text::numeral(n as nat) + " missing chunk vector(s)"@,
                false,
            )
        },
        Err(e) => told(s, "index: vector backfill FAILED: "@ + e@, true),
    }
}

pub open spec fn after_stamp(r: RunText, elapsed: Seq<char>) -> (RunText, MoveText) {
    told(
        go(
            r,
            Stage::Over,
            ActionText::Exit(
                if r.over_budget {
                    1
                } else {
                    0
                },
            ),
        ),
        last_message(r, elapsed),
        r.over_budget,
    )
}

/// The step of a run when it is told of an event.
pub open spec fn after(r: RunText, e: Event) -> (RunText, MoveText) {
    match e {
        Event::Directory(d) => prepared(
            r,
            d,
            Stage::Lock,
            ActionText::TakeLock(lock_path(r.root)),
            "hex memory index: cannot create .hex dir: "@,
        ),
        Event::Lock(s) => after_lock(r, s),
        Event::Files(f) => after_discovery(r, f),
        Event::Database(d) => prepared(
            r,
            d,
            Stage::Schema,
            ActionText::InitDb,
            "hex memory index: cannot open "@ + database_path(r.root) + ": "@,
        ),
        Event::Schema(d) => prepared(
            r,
            d,
            Stage::Model,
            ActionText::LoadModel,
            "hex memory index: schema init failed: "@,
        ),
        Event::Model(d) => prepared(
            r,
            d,
            Stage::Records,
            ActionText::ReadRecords,
            "hex memory index: embedding model failed to load: "@,
        ),
        Event::Records(v) => after_records(r, record_texts(v@)),
        Event::Elapsed(n) => after_clock(r, n as int),
        Event::SameMtime(same) => if same {
            past(RunText { skipped_mtime: r.skipped_mtime + 1, ..r })
        } else {
            reading(r)
        },
        Event::Content(c) => after_content(r, c),
        Event::Refreshed(d) => after_refresh(r, d),
        Event::Indexed(d) => after_indexing(r, d),
        Event::Removed(d) => after_removal(r, d),
        Event::Backfilled(d) => after_backfill(r, d),
        Event::Stamped(t) => after_stamp(r, t@),
    }
}

/// What holds of every run: a file is counted at most once, a stale record is
/// removed at most once, and what the run is at is there.
pub open spec fn sound(r: RunText) -> bool {
    &&& 0 <= r.next <= r.files.len()
    &&& 0 <= r.indexed && 0 <= r.skipped_mtime && 0 <= r.skipped_hash && 0 <= r.total_chunks
    &&& r.indexed + r.skipped_mtime + r.skipped_hash <= r.next
    &&& 0 <= r.removed <= r.gone <= stale_paths(r).len()
    &&& r.stage is Clock || r.stage is Mtime || r.stage is Content || r.stage is Refresh
        || r.stage is Indexing ==> r.next < r.files.len() && r.gone == 0
    &&& r.stage is Mtime || r.stage is Content || r.stage is Refresh || r.stage is Indexing
        ==> r.files[r.next].rel is Some
    &&& r.stage is Cleanup ==> r.gone < stale_paths(r).len()
    &&& r.stage is Directory || r.stage is Lock || r.stage is Discovery || r.stage is Database
        || r.stage is Schema || r.stage is Model || r.stage is Records ==> r.next == 0 && r.gone
        == 0
    &&& r.over_budget ==> r.stage is Stamp || r.stage is Over
}

// ── The steps ────────────────────────────────────────────────────────────────
/// A step without a line.
fn silent(action: Action) -> (m: Move)
    ensures
        m@ == (MoveText { line: None, action: action@ }),
{
    Move { line: None, action }
}

fn with_line(m: Move, text: String, error: bool) -> (r: Move)
    ensures
        r@ == (MoveText { line: Some((text@, error)), action: m@.action }),
{
    Move { line: Some(Line { text, error }), action: m.action }
}

fn joined(a: &str, b: &str, c: &str, d: &str) -> (r: String)
    ensures
        r@ == a@ + b@ + c@ + d@,
{
    let mut r = a.to_owned();
    r.append(b);
    r.append(c);
    r.append(d);
    r
}

fn skipped_text(indexed: usize, mtime: usize, hash: usize) -> (r: String)
    ensures
        r@ == text::numeral(indexed as nat) + " indexed, "@ + text::numeral(mtime as nat)
            + " unchanged (mtime), "@ + text::numeral(hash as nat) + " unchanged (hash), "@,
{
    let mut r = decimal(indexed as u64);
    r.append(" indexed, ");
    let n = decimal(mtime as u64);
    r.append(n.as_str());
    r.append(" unchanged (mtime), ");
    let n = decimal(hash as u64);
    r.append(n.as_str());
    r.append(" unchanged (hash), ");
    r
}

fn indexed_text(rel_path: &str, strategy: &str, n: usize) -> (r: Option<String>)
    ensures
        json::is_text(r, indexed_message(rel_path@, strategy@, n as nat)),
{
    if n > 0 {
        let mut m = "  Indexed: ".to_owned();
        m.append(rel_path);
        m.append(" (");
        let d = decimal(n as u64);
        m.append(d.as_str());
        m.append(" chunks");
        let tag = if !str_eq(strategy, "full") {
            joined(" [", strategy, "]", "")
        } else {
            String::new()
        };
        proof {
            reveal_strlit("");
            if strategy@ != "full"@ {
                assert(tag@ =~= " ["@ + strategy@ + "]"@);
            } else {
                assert(tag@ =~= Seq::<char>::empty());
            }
        }
        m.append(tag.as_str());
        m.append(")");
        Some(m)
    } else if str_eq(strategy, "summary") {
        let mut m = "  Indexed: ".to_owned();
        m.append(rel_path);
        m.append(" (0 chunks, no summaries found [summary])");
        Some(m)
    } else {
        None
    }
}

/// Starts a run.
pub fn run_index(hex_root: &str, full: bool, budget: Option<u64>) -> (r: (IndexRun, Move))
    ensures
        r.0.wf(),
        sound(r.0@),
        (r.0@, r.1@) == beginning(hex_root@, full, budget),
{
    let run = IndexRun {
        root: hex_root.to_owned(),
        full,
        budget,
        stage: Stage::Directory,
        files: Vec::new(),
        records: Vec::new(),
        next: 0,
        stale: Vec::new(),
        gone: 0,
        indexed: 0,
        skipped_mtime: 0,
        skipped_hash: 0,
        removed: 0,
        total_chunks: 0,
        over_budget: false,
    };
    proof {
        assert(run@.files =~= Seq::<FileText>::empty());
        assert(run@.records =~= Seq::<RecordText>::empty());
    }
    let dir = paths::join(hex_root, ".hex");
    (run, silent(Action::MakeDir(dir)))
}

impl IndexRun {
    /// What holds of every run.
    pub closed spec fn wf(&self) -> bool {
        &&& sound(self@)
        &&& self.stage is Cleanup ==> text::texts(self.stale@) == stale_paths(self@)
    }

    fn quit(&mut self, line: String) -> (m: Move)
        requires
            sound(old(self)@),
        ensures
            final(self).wf(),
            (final(self)@, m@) == quit(old(self)@, line@),
    {
        self.stage = Stage::Over;
        with_line(silent(Action::Exit(1)), line, true)
    }

    fn prepare(
        &mut self,
        done: Result<(), String>,
        stage: Stage,
        action: Action,
        failure: &str,
    ) -> (m: Move)
        requires
            sound(old(self)@),
            old(self)@.next == 0,
            old(self)@.gone == 0,
            !old(self)@.over_budget,
            stage is Lock || stage is Schema || stage is Model || stage is Records,
        ensures
            final(self).wf(),
            (final(self)@, m@) == prepared(old(self)@, done, stage, action@, failure@),
    {
        match done {
            Ok(_) => {
                self.stage = stage;
                silent(action)
            },
            Err(e) => {
                let mut line = failure.to_owned();
                line.append(e.as_str());
                self.quit(line)
            },
        }
    }

    fn hash_of(&self, path: &str) -> (r: Option<String>)
        ensures
            json::is_text(r, recorded(self@.records, path@)),
    {
        let ghost all = self@.records;
        let mut found: Option<String> = None;
        let mut i: usize = 0;
        proof {
            assert(all.take(0) =~= Seq::<RecordText>::empty());
        }
        while i < self.records.len()
            invariant
                i <= self.records@.len(),
                all == self@.records,
                json::is_text(found, recorded(all.take(i as int), path@)),
            decreases self.records.len() - i,
        {
            proof {
                assert(all.take(i + 1).drop_last() =~= all.take(i as int));
                assert(all.take(i + 1).last() == self.records@[i as int]@);
            }
            if str_eq(self.records[i].path.as_str(), path) {
                found = Some(self.records[i].hash.as_str().to_owned());
            }
            i += 1;
        }
        proof {
            assert(all.take(all.len() as int) =~= all);
        }
        found
    }

    fn rels(&self) -> (r: Vec<String>)
        ensures
            text::texts(r@) == rel_paths(self@.files),
    {
        let ghost all = self@.files;
        let mut out: Vec<String> = Vec::new();
        let mut i: usize = 0;
        proof {
            assert(all.take(0) =~= Seq::<FileText>::empty());
            assert(text::texts(out@) =~= Seq::<Seq<char>>::empty());
        }
        while i < self.files.len()
            invariant
                i <= self.files@.len(),
                all == self@.files,
                text::texts(out@) == rel_paths(all.take(i as int)),
            decreases self.files.len() - i,
        {
            proof {
                assert(all.take(i + 1).drop_last() =~= all.take(i as int));
                assert(all.take(i + 1).last() == self.files@[i as int]@);
            }
            if let Some(p) = &self.files[i].rel {
                let p = p.as_str().to_owned();
                proof {
                    text::lemma_texts_push(out@, p);
                }
                out.push(p);
            }
            i += 1;
        }
        proof {
            assert(all.take(all.len() as int) =~= all);
        }
        out
    }

    fn find_stale(&self) -> (r: Vec<String>)
        ensures
            text::texts(r@) == stale_paths(self@),
    {
        let on_disk = self.rels();
        let ghost all = record_paths(self@.records);
        let ghost disk = text::texts(on_disk@);
        let ghost lost = |p: Seq<char>| !disk.contains(p);
        let mut out: Vec<String> = Vec::new();
        let mut i: usize = 0;
        proof {
            reveal(Seq::filter);
            assert(text::texts(out@) =~= Seq::<Seq<char>>::empty());
            assert(all.take(0) =~= Seq::<Seq<char>>::empty());
        }
        while i < self.records.len()
            invariant
                i <= self.records@.len(),
                all == record_paths(self@.records),
                disk == text::texts(on_disk@),
                lost == (|p: Seq<char>| !disk.contains(p)),
                text::texts(out@) == all.take(i as int).filter(lost),
            decreases self.records.len() - i,
        {
            proof {
                reveal(Seq::filter);
                assert(all.take(i + 1).drop_last() =~= all.take(i as int));
                assert(all.take(i + 1).last() == self.records@[i as int].path@);
            }
            if !contains_text(&on_disk, self.records[i].path.as_str()) {
                let p = self.records[i].path.as_str().to_owned();
                proof {
                    text::lemma_texts_push(out@, p);
                }
                out.push(p);
            }
            i += 1;
        }
        proof {
            assert(all.take(all.len() as int) =~= all);
        }
        out
    }

    /// Goes to the next stale record or past them; `stale` holds them.
    fn to_cleanup(&mut self) -> (m: Move)
        requires
            sound(RunText { stage: Stage::Over, ..old(self)@ }),
            !old(self)@.over_budget,
            text::texts(old(self).stale@) == stale_paths(old(self)@),
        ensures
            final(self).wf(),
            (final(self)@, m@) == to_cleanup(old(self)@),
    {
        proof {
            assert(text::texts(self.stale@).len() == self.stale@.len());
        }
        if self.gone < self.stale.len() {
            let p = self.stale[self.gone].as_str().to_owned();
            proof {
                assert(p@ == text::texts(self.stale@)[self.gone as int]);
                assert(stale_paths(self@) == stale_paths(RunText { stage: Stage::Cleanup, ..self@ }));
            }
            self.stage = Stage::Cleanup;
            silent(Action::Remove(p))
        } else {
            self.stage = Stage::Backfill;
            silent(Action::Backfill(BACKFILL_CAP))
        }
    }

    /// Goes to the file that the run is at, or past the files.
    fn to_file(&mut self) -> (m: Move)
        requires
            sound(RunText { stage: Stage::Over, ..old(self)@ }),
            old(self)@.gone == 0,
            !old(self)@.over_budget,
        ensures
            final(self).wf(),
            (final(self)@, m@) == to_file(old(self)@),
    {
        if self.next < self.files.len() {
            self.stage = Stage::Clock;
            silent(Action::Clock)
        } else {
            self.stale = self.find_stale();
            self.to_cleanup()
        }
    }

    /// Goes past the file that the run is at.
    fn past(&mut self) -> (m: Move)
        requires
            sound(RunText { stage: Stage::Clock, ..old(self)@ }) || old(self)@.next
                < old(self)@.files.len() && sound(
                RunText { stage: Stage::Over, next: old(self)@.next + 1, ..old(self)@ },
            ),
            old(self)@.gone == 0,
            !old(self)@.over_budget,
        ensures
            final(self).wf(),
            (final(self)@, m@) == past(old(self)@),
    {
        let count: usize = self.files.len();
        proof {
            assert(self.next < count);
        }
        self.next = self.next + 1;
        self.to_file()
    }

    fn here(&self) -> (r: (String, String))
        requires
            0 <= self@.next < self@.files.len(),
            self@.files[self@.next].rel is Some,
        ensures
            r.0@ == self@.files[self@.next].path,
            r.1@ == here(self@),
    {
        let f = &self.files[self.next];
        let rel = match &f.rel {
            Some(p) => p.as_str().to_owned(),
            None => String::new(),
        };
        (f.path.as_str().to_owned(), rel)
    }

    fn mode(&self) -> (s: &'static str)
        ensures
            s@ == mode(self@.full),
    {
        if self.full {
            "full"
        } else {
            "incremental"
        }
    }

    fn take_lock(&mut self, s: LockState) -> (m: Move)
        requires
            old(self).wf(),
            old(self)@.stage is Lock,
        ensures
            final(self).wf(),
            (final(self)@, m@) == after_lock(old(self)@, s),
    {
        match s {
            LockState::Taken => {
                self.stage = Stage::Discovery;
                silent(Action::Discover)
            },
            LockState::Busy => {
                self.stage = Stage::Over;
                with_line(
                    silent(Action::Exit(0)),
                    "hex memory index: another run is in progress — skipping".to_owned(),
                    false,
                )
            },
            LockState::Failed(e) => {
                let path = paths::join(self.root.as_str(), ".hex/memory-index.lock");
                let line = joined(
                    "hex memory index: cannot open lock ",
                    path.as_str(),
                    ": ",
                    e.as_str(),
                );
                self.quit(line)
            },
        }
    }

    fn take_files(&mut self, found: Result<Vec<SourceFile>, String>) -> (m: Move)
        requires
            old(self).wf(),
            old(self)@.stage is Discovery,
        ensures
            final(self).wf(),
            (final(self)@, m@) == after_discovery(old(self)@, found),
    {
        match found {
            Ok(v) => {
                self.files = v;
                self.stage = Stage::Database;
                let path = paths::join(self.root.as_str(), ".hex/memory.db");
                silent(Action::OpenDb(path))
            },
            Err(e) => {
                let line = joined("hex memory index: source discovery failed: ", e.as_str(), "", "");
                proof {
                    reveal_strlit("");
                    assert(line@ =~= "hex memory index: source discovery failed: "@ + e@);
                }
                self.quit(line)
            },
        }
    }

    fn take_records(&mut self, v: Vec<Record>) -> (m: Move)
        requires
            old(self).wf(),
            old(self)@.stage is Records,
        ensures
            final(self).wf(),
            (final(self)@, m@) == after_records(old(self)@, record_texts(v@)),
    {
        let n = decimal(self.files.len() as u64);
        let line = joined("Found ", n.as_str(), " files to check", "");
        proof {
            reveal_strlit("");
            assert(line@ =~= "Found "@ + n@ + " files to check"@);
        }
        self.records = v;
        let m = self.to_file();
        with_line(m, line, false)
    }

    fn bail_text(&self, secs: u64) -> (r: String)
        requires
            sound(self@),
            self@.budget == Some(secs),
        ensures
            r@ == bail_message(self@),
    {
        let mut m = "hex memory index: EXCEEDED ".to_owned();
        let d = decimal(secs);
        m.append(d.as_str());
        m.append("s wall-clock budget after ");
        let d = decimal(self.indexed as u64);
        m.append(d.as_str());
        m.append(" indexed (");
        let d = decimal((self.files.len() - self.next) as u64);
        m.append(d.as_str());
        m.append(" of ");
        let d = decimal(self.files.len() as u64);
        m.append(d.as_str());
        m.append(
            " files unprocessed) — bailing loudly; remaining resume next tick (set HEX_INDEX_BUDGET_SECS to tune, 0 disables)",
        );
        m
    }

    fn take_clock(&mut self, elapsed: u128) -> (m: Move)
        requires
            old(self).wf(),
            old(self)@.stage is Clock,
        ensures
            final(self).wf(),
            (final(self)@, m@) == after_clock(old(self)@, elapsed as int),
    {
        if let Some(secs) = self.budget {
            if elapsed > secs as u128 * NANOS_PER_SEC {
                let line = self.bail_text(secs);
                self.over_budget = true;
                self.stage = Stage::Stamp;
                let a = Action::Stamp { mode: self.mode(), decimals: 1 };
                return with_line(silent(a), line, true);
            }
        }
        if self.files[self.next].rel.is_none() {
            return self.past();
        }
        let (path, rel) = self.here();
        if !self.full && self.hash_of(rel.as_str()).is_some() {
            self.stage = Stage::Mtime;
            silent(Action::CompareMtime { path, rel })
        } else {
            self.stage = Stage::Content;
            silent(Action::Read(path))
        }
    }

    fn take_mtime(&mut self, same: bool) -> (m: Move)
        requires
            old(self).wf(),
            old(self)@.stage is Mtime,
        ensures
            final(self).wf(),
            (final(self)@, m@) == after(old(self)@, Event::SameMtime(same)),
    {
        let count: usize = self.files.len();
        if same {
            proof {
                assert(self.skipped_mtime < count);
            }
            self.skipped_mtime = self.skipped_mtime + 1;
            self.past()
        } else {
            let (path, _) = self.here();
            self.stage = Stage::Content;
            silent(Action::Read(path))
        }
    }

    fn decide(&self, rel: &str, content: &str) -> (s: FileStep)
        ensures
            s == content_step(self@.full, recorded(self@.records, rel@), content@),
    {
        let t = trim_str(content);
        if t.as_str().is_empty() {
            return FileStep::Blank;
        }
        if !self.full {
            if let Some(known) = self.hash_of(rel) {
                let hash = content_hash(content);
                if !known.as_str().is_empty() && str_eq(known.as_str(), hash.as_str()) {
                    return FileStep::SameContent;
                }
            }
        }
        FileStep::Index
    }

    fn take_content(&mut self, read: Result<String, String>) -> (m: Move)
        requires
            old(self).wf(),
            old(self)@.stage is Content,
        ensures
            final(self).wf(),
            (final(self)@, m@) == after_content(old(self)@, read),
    {
        let (path, rel) = self.here();
        match read {
            Err(e) => {
                let line = joined("  SKIP ", rel.as_str(), ": ", e.as_str());
                let m = self.past();
                with_line(m, line, true)
            },
            Ok(content) => match self.decide(rel.as_str(), content.as_str()) {
                FileStep::Blank => self.past(),
                FileStep::SameContent => {
                    self.stage = Stage::Refresh;
                    silent(Action::RefreshMtime { path, rel })
                },
                FileStep::Index => {
                    let strategy = self.files[self.next].strategy.as_str().to_owned();
                    self.stage = Stage::Indexing;
                    silent(Action::Index { path, rel, strategy, content })
                },
            },
        }
    }

    fn take_refresh(&mut self, done: Result<(), String>) -> (m: Move)
        requires
            old(self).wf(),
            old(self)@.stage is Refresh,
        ensures
            final(self).wf(),
            (final(self)@, m@) == after_refresh(old(self)@, done),
    {
        let (_, rel) = self.here();
        let count: usize = self.files.len();
        proof {
            assert(self.skipped_hash < count);
        }
        self.skipped_hash = self.skipped_hash + 1;
        let m = self.past();
        match done {
            Ok(_) => m,
            Err(e) => {
                let line = joined(
                    "[memory index] mtime refresh failed for ",
                    rel.as_str(),
                    ": ",
                    e.as_str(),
                );
                with_line(m, line, true)
            },
        }
    }

    fn take_indexed(&mut self, done: Result<usize, String>) -> (m: Move)
        requires
            old(self).wf(),
            old(self)@.stage is Indexing,
            done is Ok ==> old(self)@.total_chunks + done->Ok_0 <= usize::MAX,
        ensures
            final(self).wf(),
            (final(self)@, m@) == after_indexing(old(self)@, done),
    {
        let (_, rel) = self.here();
        match done {
            Ok(n) => {
                let line = indexed_text(rel.as_str(), self.files[self.next].strategy.as_str(), n);
                let count: usize = self.files.len();
                if n > 0 {
                    proof {
                        assert(self.indexed < count);
                    }
                    self.indexed = self.indexed + 1;
                }
                self.total_chunks = self.total_chunks + n;
                let m = self.past();
                match line {
                    Some(l) => with_line(m, l, false),
                    None => m,
                }
            },
            Err(e) => {
                let line = joined("  ERROR indexing ", rel.as_str(), ": ", e.as_str());
                let m = self.past();
                with_line(m, line, true)
            },
        }
    }

    fn take_removal(&mut self, done: Removal) -> (m: Move)
        requires
            old(self).wf(),
            old(self)@.stage is Cleanup,
        ensures
            final(self).wf(),
            (final(self)@, m@) == after_removal(old(self)@, done),
    {
        proof {
            assert(text::texts(self.stale@).len() == self.stale@.len());
            assert(text::texts(self.stale@)[self.gone as int] == self.stale@[self.gone as int]@);
        }
        let path = self.stale[self.gone].as_str().to_owned();
        let count: usize = self.stale.len();
        proof {
            assert(self.gone < count);
        }
        self.gone = self.gone + 1;
        match done {
            Removal::Absent => self.to_cleanup(),
            Removal::ChunksFailed(e) => {
                let line = joined(
                    "  ERROR removing chunks for ",
                    path.as_str(),
                    ": ",
                    e.as_str(),
                );
                let m = self.to_cleanup();
                with_line(m, line, true)
            },
            Removal::RecordFailed(e) => {
                let line = joined(
                    "  ERROR removing file record ",
                    path.as_str(),
                    ": ",
                    e.as_str(),
                );
                let m = self.to_cleanup();
                with_line(m, line, true)
            },
            Removal::Done => {
                let mut line = "  Removed: ".to_owned();
                line.append(path.as_str());
                self.removed = self.removed + 1;
                let m = self.to_cleanup();
                with_line(m, line, false)
            },
        }
    }

    fn take_backfill(&mut self, done: Result<usize, String>) -> (m: Move)
        requires
            old(self).wf(),
            old(self)@.stage is Backfill,
        ensures
            final(self).wf(),
            (final(self)@, m@) == after_backfill(old(self)@, done),
    {
        self.stage = Stage::Stamp;
        let m = silent(Action::Stamp { mode: self.mode(), decimals: 2 });
        match done {
            Ok(n) => {
                if n == 0 {
                    return m;
                }
                let d = decimal(n as u64);
                let mut line = "index: backfilled ".to_owned();
                line.append(d.as_str());
                line.append(" missing chunk vector(s)");
                with_line(m, line, false)
            },
            Err(e) => {
                let mut line = "index: vector backfill FAILED: ".to_owned();
                line.append(e.as_str());
                with_line(m, line, true)
            },
        }
    }

    fn last_text(&self, elapsed: &str) -> (r: String)
        requires
            sound(self@),
        ensures
            r@ == last_message(self@, elapsed@),
    {
        let counts = skipped_text(self.indexed, self.skipped_mtime, self.skipped_hash);
        let chunks = decimal(self.total_chunks as u64);
        if self.over_budget {
            let mut r = "hex memory index: BAILED after ".to_owned();
            r.append(elapsed);
            r.append("s over budget — ");
            r.append(counts.as_str());
            r.append(chunks.as_str());
            r.append(" new chunks; cleanup + backfill skipped, resuming next tick");
            r
        } else {
            let mut r = "\nDone in ".to_owned();
            r.append(elapsed);
            r.append("s: ");
            r.append(counts.as_str());
            let d = decimal(self.removed as u64);
            r.append(d.as_str());
            r.append(" removed, ");
            r.append(chunks.as_str());
            r.append(" new chunks");
            r
        }
    }

    fn take_stamp(&mut self, elapsed: &str) -> (m: Move)
        requires
            old(self).wf(),
            old(self)@.stage is Stamp,
        ensures
            final(self).wf(),
            (final(self)@, m@) == after_stamp(old(self)@, elapsed@),
    {
        let line = self.last_text(elapsed);
        self.stage = Stage::Over;
        let code: i32 = if self.over_budget {
            1
        } else {
            0
        };
        with_line(silent(Action::Exit(code)), line, self.over_budget)
    }

    /// Goes on with what came of the last action.
    pub fn step(&mut self, e: Event) -> (m: Move)
        requires
            old(self).wf(),
            answers(old(self)@.stage, e),
            e matches Event::Indexed(Ok(n)) ==> old(self)@.total_chunks + n <= usize::MAX,
        ensures
            final(self).wf(),
            sound(final(self)@),
            (final(self)@, m@) == after(old(self)@, e),
    {
        match e {
            Event::Directory(d) => {
                let path = paths::join(self.root.as_str(), ".hex/memory-index.lock");
                self.prepare(
                    d,
                    Stage::Lock,
                    Action::TakeLock(path),
                    "hex memory index: cannot create .hex dir: ",
                )
            },
            Event::Lock(s) => self.take_lock(s),
            Event::Files(f) => self.take_files(f),
            Event::Database(d) => {
                let path = paths::join(self.root.as_str(), ".hex/memory.db");
                let mut failure = "hex memory index: cannot open ".to_owned();
                failure.append(path.as_str());
                failure.append(": ");
                self.prepare(d, Stage::Schema, Action::InitDb, failure.as_str())
            },
            Event::Schema(d) => self.prepare(
                d,
                Stage::Model,
                Action::LoadModel,
                "hex memory index: schema init failed: ",
            ),
            Event::Model(d) => self.prepare(
                d,
                Stage::Records,
                Action::ReadRecords,
                "hex memory index: embedding model failed to load: ",
            ),
            Event::Records(v) => self.take_records(v),
            Event::Elapsed(n) => self.take_clock(n),
            Event::SameMtime(same) => self.take_mtime(same),
            Event::Content(c) => self.take_content(c),
            Event::Refreshed(d) => self.take_refresh(d),
            Event::Indexed(d) => self.take_indexed(d),
            Event::Removed(d) => self.take_removal(d),
            Event::Backfilled(d) => self.take_backfill(d),
            Event::Stamped(t) => self.take_stamp(t.as_str()),
        }
    }
}

// ── Laws ─────────────────────────────────────────────────────────────────────
/// A run that has used up its budget removes nothing and makes no vectors: it
/// only records itself, and then it ends with an error.
pub proof fn law_bailed_run_only_ends(r: RunText, elapsed: u128, e: Event)
    requires
        sound(r),
        r.stage is Clock,
        exceeded(r.budget, elapsed as int),
        answers(after(r, Event::Elapsed(elapsed)).0.stage, e),
    ensures
        after(r, Event::Elapsed(elapsed)).1.action == (ActionText::Stamp {
            mode: mode(r.full),
            decimals: 1,
        }),
        e is Stamped,
        after(after(r, Event::Elapsed(elapsed)).0, e).1.action == ActionText::Exit(1),
        after(after(r, Event::Elapsed(elapsed)).0, e).0.stage is Over,
{
}

/// Where discovery has failed, the run ends with an error before it has opened
/// the database: a list that is not complete lets nothing be removed.
pub proof fn law_failed_discovery_ends(r: RunText, e: Event)
    requires
        sound(r),
        r.stage is Discovery,
        e matches Event::Files(Err(_)),
    ensures
        after(r, e).1.action == ActionText::Exit(1),
        after(r, e).0.stage is Over,
{
}

proof fn lemma_missing(recorded: Seq<Seq<char>>, on_disk: Seq<Seq<char>>, i: int)
    requires
        0 <= i < index::missing(recorded, on_disk).len(),
    ensures
        recorded.contains(index::missing(recorded, on_disk)[i]),
        !on_disk.contains(index::missing(recorded, on_disk)[i]),
{
    let lost = |p: Seq<char>| !on_disk.contains(p);
    let kept = recorded.filter(lost);
    assert(index::missing(recorded, on_disk) == kept);
    recorded.lemma_filter_pred(lost, i);
    recorded.lemma_filter_contains_rev(lost, kept[i]);
}

/// Only what is recorded and what discovery has not found any more is removed.
pub proof fn law_only_stale_records_are_removed(r: RunText, e: Event)
    requires
        sound(r),
        answers(r.stage, e),
        after(r, e).1.action is Remove,
    ensures
        record_paths(after(r, e).0.records).contains(after(r, e).1.action->Remove_0),
        !rel_paths(after(r, e).0.files).contains(after(r, e).1.action->Remove_0),
{
    let s = after(r, e).0;
    assert(after(r, e).1.action->Remove_0 == stale_paths(s)[s.gone]);
    lemma_missing(record_paths(s.records), rel_paths(s.files), s.gone);
}

/// How many steps a run has left at most, but for the number of its files and
/// records, which it learns on the way.
pub open spec fn left(r: RunText) -> (int, int, int) {
    match r.stage {
        Stage::Directory => (10, 0, 0),
        Stage::Lock => (9, 0, 0),
        Stage::Discovery => (8, 0, 0),
        Stage::Database => (7, 0, 0),
        Stage::Schema => (6, 0, 0),
        Stage::Model => (5, 0, 0),
        Stage::Records => (4, 0, 0),
        Stage::Clock => (3, r.files.len() - r.next, 3),
        Stage::Mtime => (3, r.files.len() - r.next, 2),
        Stage::Content => (3, r.files.len() - r.next, 1),
        Stage::Refresh => (3, r.files.len() - r.next, 0),
        Stage::Indexing => (3, r.files.len() - r.next, 0),
        Stage::Cleanup => (2, stale_paths(r).len() - r.gone, 0),
        Stage::Backfill => (1, 0, 0),
        Stage::Stamp => (0, 0, 1),
        Stage::Over => (0, 0, 0),
    }
}

/// Whether `s` has less left to do than `r`, in the order of the parts of
/// [`left`], none of which falls below zero.
pub open spec fn has_less_left(s: RunText, r: RunText) -> bool {
    let a = left(r);
    let b = left(s);
    &&& b.0 >= 0 && b.1 >= 0 && b.2 >= 0
    &&& b.0 < a.0 || (b.0 == a.0 && b.1 < a.1) || (b.0 == a.0 && b.1 == a.1 && b.2 < a.2)
}

#[verifier::spinoff_prover]
proof fn lemma_preparation_ends(r: RunText, e: Event)
    requires
        sound(r),
        answers(r.stage, e),
        left(r).0 > 4,
    ensures
        sound(after(r, e).0),
        has_less_left(after(r, e).0, r),
{
}

#[verifier::spinoff_prover]
proof fn lemma_records_end(r: RunText, e: Event)
    requires
        sound(r),
        answers(r.stage, e),
        left(r).0 == 4,
    ensures
        sound(after(r, e).0),
        has_less_left(after(r, e).0, r),
{
}

#[verifier::spinoff_prover]
proof fn lemma_files_end(r: RunText, e: Event)
    requires
        sound(r),
        answers(r.stage, e),
        left(r).0 == 3,
    ensures
        sound(after(r, e).0),
        has_less_left(after(r, e).0, r),
{
    assert(stale_paths(after(r, e).0) == stale_paths(r));
}

#[verifier::spinoff_prover]
proof fn lemma_removals_end(r: RunText, e: Event)
    requires
        sound(r),
        answers(r.stage, e),
        left(r).0 < 3,
    ensures
        sound(after(r, e).0),
        has_less_left(after(r, e).0, r),
{
    assert(stale_paths(after(r, e).0) == stale_paths(r));
}

/// Every run ends: each step leaves less to do, and what holds of a run still
/// holds.
pub proof fn law_every_run_ends(r: RunText, e: Event)
    requires
        sound(r),
        answers(r.stage, e),
    ensures
        sound(after(r, e).0),
        has_less_left(after(r, e).0, r),
{
    if left(r).0 > 4 {
        lemma_preparation_ends(r, e);
    } else if left(r).0 == 4 {
        lemma_records_end(r, e);
    } else if left(r).0 == 3 {
        lemma_files_end(r, e);
    } else {
        lemma_removals_end(r, e);
    }
}

/// The hash that counts is the last one recorded of a path.
pub proof fn law_recorded(records: Seq<RecordText>, path: Seq<char>)
    ensures
        match recorded(records, path) {
            Some(h) => exists|i: int|
                0 <= i < records.len() && (#[trigger] records[i]).path == path && records[i].hash
                    == h && forall|j: int| i < j < records.len() ==> (#[trigger] records[j]).path
                    != path,
            None => forall|j: int| 0 <= j < records.len() ==> (#[trigger] records[j]).path != path,
        },
    decreases records.len(),
{
    if records.len() > 0 {
        let n = records.len() - 1;
        if records.last().path == path {
            assert(records[n].hash == recorded(records, path)->0);
        } else {
            let front = records.drop_last();
            law_recorded(front, path);
            if let Some(h) = recorded(records, path) {
                let i = choose|i: int|
                    0 <= i < front.len() && (#[trigger] front[i]).path == path && front[i].hash == h
                        && forall|j: int| i < j < front.len() ==> (#[trigger] front[j]).path != path;
                assert(records[i].path == path && records[i].hash == h);
                assert forall|j: int| i < j < records.len() implies (#[trigger] records[j]).path
                    != path by {
                    if j < n {
                        assert(front[j] == records[j]);
                    }
                }
            } else {
                assert forall|j: int| 0 <= j < records.len() implies (#[trigger] records[j]).path
                    != path by {
                    if j < n {
                        assert(front[j] == records[j]);
                    }
                }
            }
        }
    }
}

/// Before each file the run looks at the clock. Within its budget an incremental run
/// compares the times of a file that is recorded and reads any other; a full run reads
/// every file; one that is not below the workspace is passed over.
pub proof fn law_before_a_file(r: RunText, elapsed: u128)
    requires
        sound(r),
        r.stage is Clock,
        r.budget is None || elapsed <= r.budget->0 * 1_000_000_000,
    ensures
        r.files[r.next].rel is None ==> after(r, Event::Elapsed(elapsed)).0.next == r.next + 1
            && after(r, Event::Elapsed(elapsed)).0.indexed == r.indexed,
        r.files[r.next].rel is Some ==> ({
            let a = after(r, Event::Elapsed(elapsed)).1.action;
            let known = exists|i: int|
                0 <= i < r.records.len() && (#[trigger] r.records[i]).path == r.files[r.next].rel->0;
            &&& (a is CompareMtime) == (!r.full && known)
            &&& (a is Read) == (r.full || !known)
            &&& a is CompareMtime ==> a->CompareMtime_path == r.files[r.next].path
                && a->CompareMtime_rel == r.files[r.next].rel->0
            &&& a is Read ==> a->Read_0 == r.files[r.next].path
        }),
{
    if r.files[r.next].rel is Some {
        law_recorded(r.records, r.files[r.next].rel->0);
    }
}

/// The budget is used up once more nanoseconds have gone by than it has seconds.
pub proof fn law_budget(budget: u64, elapsed: int)
    ensures
        exceeded(Some(budget), elapsed) == (elapsed > budget * 1_000_000_000),
        !exceeded(None, elapsed),
{
}

/// A file whose time has not changed is counted and passed over without being read; any
/// other is read.
pub proof fn law_same_time(r: RunText, same: bool)
    requires
        sound(r),
        r.stage is Mtime,
    ensures
        same ==> after(r, Event::SameMtime(same)).0.skipped_mtime == r.skipped_mtime + 1 && after(
            r,
            Event::SameMtime(same),
        ).0.next == r.next + 1 && !(after(r, Event::SameMtime(same)).1.action is Read),
        !same ==> after(r, Event::SameMtime(same)).1.action == ActionText::Read(
            r.files[r.next].path,
        ) && after(r, Event::SameMtime(same)).0.next == r.next,
{
}

/// A file that was read is indexed with its own path, strategy and content, unless it is
/// blank, or the run is incremental and the hash of its content is the recorded one: then
/// only its time is renewed. One that could not be read is passed over.
pub proof fn law_what_is_indexed(r: RunText, content: String, e: String)
    requires
        sound(r),
        r.stage is Content,
    ensures
        ({
            let s = after(r, Event::Content(Ok(content)));
            let path = r.files[r.next].rel->0;
            let blank = text::trim(content@).len() == 0;
            let unchanged = !r.full && recorded(r.records, path) is Some && recorded(
                r.records,
                path,
            )->0.len() > 0 && recorded(r.records, path)->0 == index::sha256_hex(content@);
            &&& blank ==> s.0.next == r.next + 1 && s.0.indexed == r.indexed
            &&& !blank && unchanged ==> s.1.action == (ActionText::RefreshMtime {
                path: r.files[r.next].path,
                rel: path,
            })
            &&& !blank && !unchanged ==> s.1.action == (ActionText::Index {
                path: r.files[r.next].path,
                rel: path,
                strategy: r.files[r.next].strategy,
                content: content@,
            })
        }),
        after(r, Event::Content(Err(e))).0.next == r.next + 1,
        after(r, Event::Content(Err(e))).1.line is Some,
{
}

/// An indexed file is counted once if it gave chunks, and its chunks are added up; one
/// that failed is told and not counted.
pub proof fn law_indexed_files_are_counted(r: RunText, n: usize, e: String)
    requires
        sound(r),
        r.stage is Indexing,
    ensures
        after(r, Event::Indexed(Ok(n))).0.indexed == r.indexed + if n > 0 {
            1int
        } else {
            0
        },
        after(r, Event::Indexed(Ok(n))).0.total_chunks == r.total_chunks + n,
        after(r, Event::Indexed(Ok(n))).0.next == r.next + 1,
        after(r, Event::Indexed(Err(e))).0.indexed == r.indexed,
        after(r, Event::Indexed(Err(e))).0.next == r.next + 1,
        after(r, Event::Indexed(Err(e))).1.line is Some,
{
}

/// The run goes on behind the last file with the first record that is stale, and behind
/// the last of these with the vectors that are missing, 500 of them at most; each record
/// that is removed is counted.
pub proof fn law_removals_are_counted(r: RunText, e: String)
    requires
        sound(r),
        r.stage is Cleanup,
    ensures
        after(r, Event::Removed(Removal::Done)).0.removed == r.removed + 1,
        after(r, Event::Removed(Removal::Absent)).0.removed == r.removed,
        after(r, Event::Removed(Removal::RecordFailed(e))).0.removed == r.removed,
        r.gone + 1 < index::missing(record_paths(r.records), rel_paths(r.files)).len() ==> after(
            r,
            Event::Removed(Removal::Done),
        ).1.action == ActionText::Remove(
            index::missing(record_paths(r.records), rel_paths(r.files))[r.gone + 1],
        ),
        r.gone + 1 >= index::missing(record_paths(r.records), rel_paths(r.files)).len() ==> after(
            r,
            Event::Removed(Removal::Done),
        ).1.action == ActionText::Backfill(500),
{
    let more = RunText { gone: r.gone + 1, removed: r.removed + 1, ..r };
    assert(stale_paths(more) == stale_paths(r));
}

/// The paths that discovery has found are those of the files below the workspace.
pub proof fn law_found_paths(files: Seq<FileText>, path: Seq<char>)
    ensures
        rel_paths(files).contains(path) == exists|i: int|
            0 <= i < files.len() && (#[trigger] files[i]).rel == Some(path),
    decreases files.len(),
{
    if files.len() > 0 {
        let front = files.drop_last();
        law_found_paths(front, path);
        let a = rel_paths(front);
        let b = rel_paths(files);
        if b.contains(path) {
            let k = choose|k: int| 0 <= k < b.len() && b[k] == path;
            if k < a.len() {
                assert(a[k] == path);
                let i = choose|i: int|
                    0 <= i < front.len() && (#[trigger] front[i]).rel == Some(path);
                assert(files[i].rel == Some(path));
            } else {
                assert(files[files.len() - 1].rel == Some(path));
            }
        }
        if exists|i: int| 0 <= i < files.len() && (#[trigger] files[i]).rel == Some(path) {
            let i = choose|i: int| 0 <= i < files.len() && (#[trigger] files[i]).rel == Some(path);
            if i < front.len() {
                assert(front[i].rel == Some(path));
                let k = choose|k: int| 0 <= k < a.len() && a[k] == path;
                assert(b[k] == path);
            } else {
                assert(b[a.len() as int] == path);
            }
        }
    }
}

/// A run that another one keeps from starting ends well and touches nothing; one that
/// cannot take the lock, open the database, make its tables or load the model fails.
pub proof fn law_a_run_that_cannot_start(r: RunText, e: String)
    requires
        sound(r),
    ensures
        r.stage is Lock ==> after(r, Event::Lock(LockState::Busy)).1.action == ActionText::Exit(0),
        r.stage is Lock ==> after(r, Event::Lock(LockState::Failed(e))).1.action
            == ActionText::Exit(1),
        r.stage is Database ==> after(r, Event::Database(Err(e))).1.action == ActionText::Exit(1),
        r.stage is Schema ==> after(r, Event::Schema(Err(e))).1.action == ActionText::Exit(1),
        r.stage is Model ==> after(r, Event::Model(Err(e))).1.action == ActionText::Exit(1),
        r.stage is Directory ==> after(r, Event::Directory(Err(e))).1.action == ActionText::Exit(1),
{
}

/// A run that ends within its budget exits with 0, one over it with 1.
pub proof fn law_exit_code(r: RunText, elapsed: String)
    requires
        sound(r),
        r.stage is Stamp,
    ensures
        after(r, Event::Stamped(elapsed)).1.action == ActionText::Exit(
            if r.over_budget {
                1
            } else {
                0
            },
        ),
        after(r, Event::Stamped(elapsed)).1.line is Some,
{
}

/// A run starts with its directory; nothing has been found, indexed, skipped or removed.
pub proof fn law_start(root: Seq<char>, full: bool, budget: Option<u64>)
    ensures
        beginning(root, full, budget).1.action == ActionText::MakeDir(
            paths::joined(root, ".hex"@),
        ),
        ({
            let r = beginning(root, full, budget).0;
            &&& r.root == root && r.full == full && r.budget == budget
            &&& r.files.len() == 0 && r.records.len() == 0 && r.next == 0 && r.gone == 0
            &&& r.indexed == 0 && r.skipped_mtime == 0 && r.skipped_hash == 0
            &&& r.removed == 0 && r.total_chunks == 0 && !r.over_budget
        }),
{
}

/// A file is told with its number of chunks, and with how it was read where that was not
/// in full; one without a chunk is told only where its summaries were looked for.
pub proof fn law_what_is_told_of_a_file(path: Seq<char>, strategy: Seq<char>, n: nat)
    ensures
        (indexed_message(path, strategy, n) is None) == (n == 0 && strategy != "summary"@),
        n > 0 ==> text::starts_with(
            indexed_message(path, strategy, n)->0,
            "  Indexed: "@ + path + " ("@ + text::numeral(n) + " chunks"@,
        ),
        n > 0 && strategy == "full"@ ==> text::ends_with(
            indexed_message(path, strategy, n)->0,
            " chunks"@ + ")"@,
        ),
        n > 0 && strategy != "full"@ ==> text::ends_with(
            indexed_message(path, strategy, n)->0,
            " ["@ + strategy + "]"@ + ")"@,
        ),
        n == 0 && strategy == "summary"@ ==> indexed_message(path, strategy, n)->0
            == "  Indexed: "@ + path + " (0 chunks, no summaries found [summary])"@,
{
    if n > 0 {
        let s = indexed_message(path, strategy, n)->0;
        let p = "  Indexed: "@ + path + " ("@ + text::numeral(n) + " chunks"@;
        let e = if strategy == "full"@ {
            " chunks"@ + ")"@
        } else {
            " ["@ + strategy + "]"@ + ")"@
        };
        assert(s.subrange(0, p.len() as int) =~= p);
        assert(s.subrange(s.len() - e.len(), s.len() as int) =~= e);
    }
}

/// The last line of a run tells how many files were indexed, unchanged by time and
/// unchanged by content, and how many chunks are new; one that ran out of time says so.
pub proof fn law_last_message(r: RunText, elapsed: Seq<char>)
    ensures
        ({
            let counts = text::numeral(r.indexed as nat) + " indexed, "@ + text::numeral(
                r.skipped_mtime as nat,
            ) + " unchanged (mtime), "@ + text::numeral(r.skipped_hash as nat)
                + " unchanged (hash), "@;
            &&& r.over_budget ==> last_message(r, elapsed) == "hex memory index: BAILED after "@
                + elapsed + "s over budget — "@ + counts + text::numeral(r.total_chunks as nat)
                + " new chunks; cleanup + backfill skipped, resuming next tick"@
            &&& !r.over_budget ==> last_message(r, elapsed) == "\nDone in "@ + elapsed + "s: "@
                + counts + text::numeral(r.removed as nat) + " removed, "@ + text::numeral(
                r.total_chunks as nat,
            ) + " new chunks"@
        }),
{
}

} // verus!
