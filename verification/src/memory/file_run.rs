//! Indexing one file step by step: what the index holds of it goes first, then
//! its record, its chunks and their vectors are stored.
use crate::memory::index::{self, plan_file, Chunk, ChunkText, FilePlan};
use crate::text;
use vstd::prelude::*;

verus! {

/// What the indexing waits for.
#[derive(Debug, Clone, Copy, PartialEq, Eq, Structural)]
pub enum Stage {
    Find,
    Clear,
    Forget,
    Record,
    Chunk,
    Weight,
    Embed,
    Over,
}

/// What the indexing is told, in answer to its last action.
#[derive(Debug)]
pub enum Event {
    /// The record that the index has of the file.
    Found(Option<i64>),
    Done(Result<(), String>),
    /// The row that was stored.
    Stored(Result<i64, String>),
    /// How many vectors were stored.
    Embedded(usize),
}

/// What is to be done next.
#[derive(Debug)]
pub enum Action {
    /// Look for the record of the file at this path.
    Find(String),
    /// Remove the chunks of this record, with what belongs to them.
    ClearChunks(i64),
    DeleteRecord(i64),
    InsertRecord { path: String, hash: String, chunk_count: usize },
    InsertChunk { file_id: i64, path: String, index: usize, chunk: Chunk, private: bool },
    /// Store the weight of a chunk, in tenths.
    InsertWeight { rowid: i64, weight: u32 },
    /// Embed the contents, one vector for each row.
    Embed { rowids: Vec<i64>, contents: Vec<String> },
    /// How many chunks the file has, or why it was not indexed.
    Finish(Result<usize, String>),
}

pub enum ActionText {
    Find(Seq<char>),
    ClearChunks(i64),
    DeleteRecord(i64),
    InsertRecord { path: Seq<char>, hash: Seq<char>, chunk_count: int },
    InsertChunk { file_id: i64, path: Seq<char>, index: int, chunk: ChunkText, private: bool },
    InsertWeight { rowid: i64, weight: u32 },
    Embed { rowids: Seq<i64>, contents: Seq<Seq<char>> },
    Done(int),
    Failed(Seq<char>),
}

impl View for Action {
    type V = ActionText;

    open spec fn view(&self) -> ActionText {
        match self {
            Action::Find(p) => ActionText::Find(p@),
            Action::ClearChunks(f) => ActionText::ClearChunks(*f),
            Action::DeleteRecord(f) => ActionText::DeleteRecord(*f),
            Action::InsertRecord { path, hash, chunk_count } => ActionText::InsertRecord {
                path: path@,
                hash: hash@,
                chunk_count: *chunk_count as int,
            },
            Action::InsertChunk { file_id, path, index, chunk, private } => ActionText::InsertChunk {
                file_id: *file_id,
                path: path@,
                index: *index as int,
                chunk: chunk@,
                private: *private,
            },
            Action::InsertWeight { rowid, weight } => ActionText::InsertWeight {
                rowid: *rowid,
                weight: *weight,
            },
            Action::Embed { rowids, contents } => ActionText::Embed {
                rowids: rowids@,
                contents: text::texts(contents@),
            },
            Action::Finish(r) => match r {
                Ok(n) => ActionText::Done(*n as int),
                Err(e) => ActionText::Failed(e@),
            },
        }
    }
}

/// The indexing of a file on its way: the record and the rows that it has
/// stored, and the chunk that comes next.
#[derive(Debug)]
pub struct FileRun {
    stage: Stage,
    path: String,
    plan: FilePlan,
    file_id: i64,
    rowids: Vec<i64>,
    next: usize,
}

pub struct FileText {
    pub stage: Stage,
    pub path: Seq<char>,
    pub hash: Seq<char>,
    pub private: bool,
    pub weight: u32,
    pub chunks: Seq<ChunkText>,
    pub file_id: i64,
    pub rowids: Seq<i64>,
    pub next: int,
}

impl View for FileRun {
    type V = FileText;

    closed spec fn view(&self) -> FileText {
        FileText {
            stage: self.stage,
            path: self.path@,
            hash: self.plan.hash@,
            private: self.plan.private,
            weight: self.plan.weight,
            chunks: index::chunk_texts(self.plan.chunks@),
            file_id: self.file_id,
            rowids: self.rowids@,
            next: self.next as int,
        }
    }
}

impl FileText {
    /// There is a row for each chunk before the next one; while the weight of a
    /// chunk is stored, its own row is there too.
    pub open spec fn wf(self) -> bool {
        &&& 0 <= self.next <= self.chunks.len()
        &&& self.stage is Weight || self.stage is Chunk ==> self.next < self.chunks.len()
        &&& self.stage is Weight ==> self.rowids.len() == self.next + 1
        &&& !(self.stage is Weight || self.stage is Over) ==> self.rowids.len() == self.next
        &&& self.stage is Embed ==> self.next == self.chunks.len()
    }
}

// ── What indexing a file does ────────────────────────────────────────────────
pub open spec fn contents_of(c: Seq<ChunkText>) -> Seq<Seq<char>> {
    c.map_values(|c: ChunkText| c.content)
}

pub open spec fn go(f: FileText, stage: Stage, action: ActionText) -> (FileText, ActionText) {
    (FileText { stage, ..f }, action)
}

pub open spec fn failed(f: FileText, error: Seq<char>) -> (FileText, ActionText) {
    go(f, Stage::Over, ActionText::Failed(error))
}

pub open spec fn beginning(path: Seq<char>, content: Seq<char>, strategy: Seq<char>) -> (
    FileText,
    ActionText,
) {
    (
        FileText {
            stage: Stage::Find,
            path,
            hash: index::sha256_hex(content),
            private: index::private_path(path),
            weight: index::source_weight(path, strategy == "summary"@) as u32,
            chunks: index::planned_chunks(content, strategy),
            file_id: 0,
            rowids: Seq::empty(),
            next: 0,
        },
        ActionText::Find(path),
    )
}

pub open spec fn recording(f: FileText) -> (FileText, ActionText) {
    go(
        f,
        Stage::Record,
        ActionText::InsertRecord {
            path: f.path,
            hash: f.hash,
            chunk_count: f.chunks.len() as int,
        },
    )
}

/// The next chunk as long as there is one, then the vectors. A file without a
/// chunk has none.
pub open spec fn chunk_or_vectors(f: FileText) -> (FileText, ActionText) {
    if f.next < f.chunks.len() {
        go(
            f,
            Stage::Chunk,
            ActionText::InsertChunk {
                file_id: f.file_id,
                path: f.path,
                index: f.next,
                chunk: f.chunks[f.next],
                private: f.private,
            },
        )
    } else if f.chunks.len() == 0 {
        go(f, Stage::Over, ActionText::Done(0))
    } else {
        go(
            f,
            Stage::Embed,
            ActionText::Embed { rowids: f.rowids, contents: contents_of(f.chunks) },
        )
    }
}

pub open spec fn after_done(f: FileText, d: Result<(), String>) -> (FileText, ActionText) {
    match d {
        Err(e) => failed(f, e@),
        Ok(_) => match f.stage {
            Stage::Clear => go(f, Stage::Forget, ActionText::DeleteRecord(f.file_id)),
            Stage::Forget => recording(f),
            _ => chunk_or_vectors(FileText { next: f.next + 1, ..f }),
        },
    }
}

pub open spec fn after_stored(f: FileText, d: Result<i64, String>) -> (FileText, ActionText) {
    match d {
        Err(e) => failed(f, e@),
        Ok(id) => if f.stage is Record {
            chunk_or_vectors(FileText { file_id: id, ..f })
        } else {
            go(
                FileText { rowids: f.rowids.push(id), ..f },
                Stage::Weight,
                ActionText::InsertWeight { rowid: id, weight: f.weight },
            )
        },
    }
}

/// Whether an event answers what the indexing waits for.
pub open spec fn answers(stage: Stage, e: Event) -> bool {
    match e {
        Event::Found(_) => stage is Find,
        Event::Done(_) => stage is Clear || stage is Forget || stage is Weight,
        Event::Stored(_) => stage is Record || stage is Chunk,
        Event::Embedded(_) => stage is Embed,
    }
}

/// The step of the indexing when it is told of an event. Vectors that could not
/// be stored are no failure: they are made up for by a later run.
pub open spec fn after(f: FileText, e: Event) -> (FileText, ActionText) {
    match e {
        Event::Found(r) => match r {
            Some(id) => go(
                FileText { file_id: id, ..f },
                Stage::Clear,
                ActionText::ClearChunks(id),
            ),
            None => recording(f),
        },
        Event::Done(d) => after_done(f, d),
        Event::Stored(d) => after_stored(f, d),
        Event::Embedded(_) => go(f, Stage::Over, ActionText::Done(f.chunks.len() as int)),
    }
}

// ── The steps ────────────────────────────────────────────────────────────────
/// Starts to index a file.
pub fn index_file(rel_path: &str, content: &str, strategy: &str) -> (r: (FileRun, Action))
    ensures
        r.0@.wf(),
        (r.0@, r.1@) == beginning(rel_path@, content@, strategy@),
{
    let plan = plan_file(rel_path, content, strategy);
    let f = FileRun {
        stage: Stage::Find,
        path: rel_path.to_owned(),
        plan,
        file_id: 0,
        rowids: Vec::new(),
        next: 0,
    };
    proof {
        assert(f@.rowids =~= Seq::<i64>::empty());
    }
    (f, Action::Find(rel_path.to_owned()))
}

fn copy_rows(v: &Vec<i64>) -> (r: Vec<i64>)
    ensures
        r@ == v@,
{
    let mut r: Vec<i64> = Vec::new();
    let mut i: usize = 0;
    while i < v.len()
        invariant
            i <= v@.len(),
            r@ == v@.take(i as int),
        decreases v@.len() - i,
    {
        r.push(v[i]);
        i = i + 1;
        proof {
            assert(r@ =~= v@.take(i as int));
        }
    }
    proof {
        assert(v@.take(i as int) =~= v@);
    }
    r
}

fn copy_contents(v: &Vec<Chunk>) -> (r: Vec<String>)
    ensures
        text::texts(r@) == contents_of(index::chunk_texts(v@)),
{
    let mut r: Vec<String> = Vec::new();
    let mut i: usize = 0;
    while i < v.len()
        invariant
            i <= v@.len(),
            r@.len() == i,
            forall|k: int| 0 <= k < i ==> (#[trigger] r@[k])@ == v@[k].content@,
        decreases v@.len() - i,
    {
        r.push(v[i].content.as_str().to_owned());
        i = i + 1;
    }
    proof {
        assert(text::texts(r@) =~= contents_of(index::chunk_texts(v@)));
    }
    r
}

impl FileRun {
    fn fail(&mut self, error: String) -> (a: Action)
        ensures
            (final(self)@, a@) == failed(old(self)@, error@),
    {
        self.stage = Stage::Over;
        Action::Finish(Err(error))
    }

    fn record(&mut self) -> (a: Action)
        ensures
            (final(self)@, a@) == recording(old(self)@),
    {
        self.stage = Stage::Record;
        Action::InsertRecord {
            path: self.path.as_str().to_owned(),
            hash: self.plan.hash.as_str().to_owned(),
            chunk_count: self.plan.chunks.len(),
        }
    }

    fn chunk_or_vectors(&mut self) -> (a: Action)
        requires
            old(self)@.next <= old(self)@.chunks.len(),
        ensures
            (final(self)@, a@) == chunk_or_vectors(old(self)@),
    {
        if self.next < self.plan.chunks.len() {
            self.stage = Stage::Chunk;
            let c = &self.plan.chunks[self.next];
            let chunk = Chunk {
                heading: c.heading.as_str().to_owned(),
                content: c.content.as_str().to_owned(),
            };
            return Action::InsertChunk {
                file_id: self.file_id,
                path: self.path.as_str().to_owned(),
                index: self.next,
                chunk,
                private: self.plan.private,
            };
        }
        if self.plan.chunks.len() == 0 {
            self.stage = Stage::Over;
            return Action::Finish(Ok(0));
        }
        self.stage = Stage::Embed;
        Action::Embed {
            rowids: copy_rows(&self.rowids),
            contents: copy_contents(&self.plan.chunks),
        }
    }

    /// Goes on with what came of the last action.
    pub fn step(&mut self, e: Event) -> (a: Action)
        requires
            old(self)@.wf(),
            answers(old(self)@.stage, e),
        ensures
            final(self)@.wf(),
            (final(self)@, a@) == after(old(self)@, e),
    {
        match e {
            Event::Found(r) => match r {
                Some(id) => {
                    self.file_id = id;
                    self.stage = Stage::Clear;
                    Action::ClearChunks(id)
                },
                None => self.record(),
            },
            Event::Done(d) => match d {
                Err(e) => self.fail(e),
                Ok(_) => match self.stage {
                    Stage::Clear => {
                        self.stage = Stage::Forget;
                        Action::DeleteRecord(self.file_id)
                    },
                    Stage::Forget => self.record(),
                    _ => {
                        proof {
                            assert(self.next < self.plan.chunks.len());
                        }
                        self.next = self.next + 1;
                        self.chunk_or_vectors()
                    },
                },
            },
            Event::Stored(d) => match d {
                Err(e) => self.fail(e),
                Ok(id) => if matches!(self.stage, Stage::Record) {
                    self.file_id = id;
                    self.chunk_or_vectors()
                } else {
                    self.rowids.push(id);
                    self.stage = Stage::Weight;
                    Action::InsertWeight { rowid: id, weight: self.plan.weight }
                },
            },
            Event::Embedded(_) => {
                self.stage = Stage::Over;
                Action::Finish(Ok(self.plan.chunks.len()))
            },
        }
    }
}

// ── Laws ─────────────────────────────────────────────────────────────────────
/// A new record is stored only where the index has none of the file, or where
/// the old one is gone with its chunks: a failure to remove them ends the
/// indexing.
pub proof fn law_old_rows_go_first(f: FileText, e: Event)
    requires
        answers(f.stage, e),
    ensures
        after(f, e).1 is InsertRecord ==> (e matches Event::Found(None)) || f.stage is Forget && (
        e matches Event::Done(Ok(_))),
        after(f, e).1 is DeleteRecord ==> f.stage is Clear && (e matches Event::Done(Ok(_))),
        (f.stage is Clear || f.stage is Forget) && (e matches Event::Done(Err(_))) ==> after(
            f,
            e,
        ).1 is Failed,
{
}

/// The embedder is given the content of every chunk, in order, with the row
/// under which it was stored.
pub proof fn law_a_vector_for_each_chunk(f: FileText, e: Event)
    requires
        f.wf(),
        answers(f.stage, e),
        after(f, e).1 is Embed,
    ensures
        after(f, e).1->rowids.len() == f.chunks.len(),
        after(f, e).1->contents.len() == f.chunks.len(),
        forall|i: int|
            0 <= i < f.chunks.len() ==> (#[trigger] after(f, e).1->contents[i])
                == f.chunks[i].content,
{
}

/// A file whose chunks are stored is indexed, however many of their vectors
/// are.
pub proof fn law_vectors_may_be_missing(f: FileText, n: usize)
    requires
        f.stage is Embed,
    ensures
        after(f, Event::Embedded(n)).1 == ActionText::Done(f.chunks.len() as int),
{
}

/// Indexing changes neither the file's place nor what is to be stored of it.
pub proof fn law_the_plan_stands(f: FileText, e: Event)
    ensures
        after(f, e).0.path == f.path,
        after(f, e).0.hash == f.hash,
        after(f, e).0.private == f.private,
        after(f, e).0.weight == f.weight,
        after(f, e).0.chunks == f.chunks,
{
}

/// How much the indexing has left to do.
pub open spec fn left(f: FileText) -> int {
    let chunks = 2 * (f.chunks.len() - f.next);
    match f.stage {
        Stage::Find => chunks + 5,
        Stage::Clear => chunks + 4,
        Stage::Forget => chunks + 3,
        Stage::Record => chunks + 2,
        Stage::Chunk => chunks + 1,
        Stage::Weight => chunks,
        Stage::Embed => 1,
        Stage::Over => 0,
    }
}

/// Every indexing ends: each step leaves less to do, and what holds of
/// an indexing still holds.
pub proof fn law_every_file_ends(f: FileText, e: Event)
    requires
        f.wf(),
        answers(f.stage, e),
    ensures
        after(f, e).0.wf(),
        0 <= left(after(f, e).0) < left(f),
{
}

/// What is stored of a file is its own: the hash of its content, whether its path is
/// private, its weight and its chunks; a summary has the chunks of its summary.
pub proof fn law_what_is_stored_of_a_file(path: Seq<char>, content: Seq<char>, strategy: Seq<char>)
    ensures
        beginning(path, content, strategy).1 == ActionText::Find(path),
        beginning(path, content, strategy).0.path == path,
        beginning(path, content, strategy).0.hash == index::sha256_hex(content),
        beginning(path, content, strategy).0.private == index::private_path(path),
        beginning(path, content, strategy).0.next == 0,
        strategy != "summary"@ ==> beginning(path, content, strategy).0.chunks == index::chunks(
            content,
            true,
        ),
        strategy == "summary"@ && text::trim(index::summaries(content)).len() == 0 ==> beginning(
            path,
            content,
            strategy,
        ).0.chunks.len() == 0,
        strategy == "summary"@ && text::trim(index::summaries(content)).len() > 0 ==> beginning(
            path,
            content,
            strategy,
        ).0.chunks == index::chunks(index::summaries(content), true),
{
}

/// A file that has a record loses its chunks and then the record; a new record has the
/// path, the hash and the number of chunks.
pub proof fn law_a_record_is_replaced(f: FileText, id: i64)
    requires
        f.wf(),
    ensures
        f.stage is Find ==> after(f, Event::Found(Some(id))).1 == ActionText::ClearChunks(id),
        f.stage is Clear ==> after(f, Event::Done(Ok(()))).1 == ActionText::DeleteRecord(f.file_id),
        f.stage is Find ==> after(f, Event::Found(None)).1 == (ActionText::InsertRecord {
            path: f.path,
            hash: f.hash,
            chunk_count: f.chunks.len() as int,
        }),
        f.stage is Forget ==> after(f, Event::Done(Ok(()))).1 == (ActionText::InsertRecord {
            path: f.path,
            hash: f.hash,
            chunk_count: f.chunks.len() as int,
        }),
{
}

/// Each chunk is stored in its order, below the record and with the file's privacy, and
/// its row gets the file's weight.
pub proof fn law_chunks_are_stored_in_order(f: FileText, id: i64)
    requires
        f.wf(),
    ensures
        f.stage is Record && f.next == 0 && f.chunks.len() > 0 ==> after(f, Event::Stored(Ok(id))).1 == (
        ActionText::InsertChunk {
            file_id: id,
            path: f.path,
            index: f.next,
            chunk: f.chunks[f.next],
            private: f.private,
        }),
        f.stage is Chunk ==> after(f, Event::Stored(Ok(id))).1 == (ActionText::InsertWeight {
            rowid: id,
            weight: f.weight,
        }) && after(f, Event::Stored(Ok(id))).0.rowids == f.rowids.push(id),
        f.stage is Weight && f.next + 1 < f.chunks.len() ==> after(f, Event::Done(Ok(()))).1 == (
        ActionText::InsertChunk {
            file_id: f.file_id,
            path: f.path,
            index: f.next + 1,
            chunk: f.chunks[f.next + 1],
            private: f.private,
        }),
        f.stage is Record && f.chunks.len() == 0 ==> after(f, Event::Stored(Ok(id))).1
            == ActionText::Done(0),
{
}

/// A file starts with the search for its record; no row of it is known and no chunk is
/// stored.
pub proof fn law_start(path: Seq<char>, content: Seq<char>, strategy: Seq<char>)
    ensures
        beginning(path, content, strategy).1 == ActionText::Find(path),
        ({
            let f = beginning(path, content, strategy).0;
            f.stage is Find && f.path == path && f.file_id == 0 && f.rowids.len() == 0 && f.next
                == 0
        }),
{
}

} // verus!
