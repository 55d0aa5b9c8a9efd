//! Removing the chunks of a file step by step. What belongs to a chunk goes
//! before the chunk, so that no vector is left without one.
use vstd::prelude::*;

verus! {

/// Rows of weights that one statement removes.
pub const DELETE_BATCH: usize = 500;

/// What the removal waits for.
#[derive(Debug, Clone, Copy, PartialEq, Eq, Structural)]
pub enum Stage {
    List,
    Weights,
    Vectors,
    Chunks,
    Over,
}

/// What the removal is told, in answer to its last action.
#[derive(Debug)]
pub enum Event {
    /// The rows of the file's chunks.
    Rows(Result<Vec<i64>, String>),
    Done(Result<(), String>),
}

/// What is to be done next.
#[derive(Debug)]
pub enum Action {
    /// List the rows of the chunks of this file.
    List(i64),
    DeleteWeights(Vec<i64>),
    DeleteVectors(Vec<i64>),
    /// Remove the chunks of this file.
    DeleteChunks(i64),
    Finish(Result<(), String>),
}

pub enum ActionText {
    List(i64),
    DeleteWeights(Seq<i64>),
    DeleteVectors(Seq<i64>),
    DeleteChunks(i64),
    Done,
    Failed(Seq<char>),
}

impl View for Action {
    type V = ActionText;

    open spec fn view(&self) -> ActionText {
        match self {
            Action::List(f) => ActionText::List(*f),
            Action::DeleteWeights(v) => ActionText::DeleteWeights(v@),
            Action::DeleteVectors(v) => ActionText::DeleteVectors(v@),
            Action::DeleteChunks(f) => ActionText::DeleteChunks(*f),
            Action::Finish(r) => match r {
                Ok(_) => ActionText::Done,
                Err(e) => ActionText::Failed(e@),
            },
        }
    }
}

/// A removal on its way: the rows of the file's chunks, of which the weights of
/// those before `next` are being removed or gone.
#[derive(Debug)]
pub struct Clearing {
    stage: Stage,
    file_id: i64,
    rowids: Vec<i64>,
    next: usize,
}

pub struct ClearingText {
    pub stage: Stage,
    pub file_id: i64,
    pub rowids: Seq<i64>,
    pub next: int,
}

impl View for Clearing {
    type V = ClearingText;

    closed spec fn view(&self) -> ClearingText {
        ClearingText {
            stage: self.stage,
            file_id: self.file_id,
            rowids: self.rowids@,
            next: self.next as int,
        }
    }
}

impl ClearingText {
    pub open spec fn wf(self) -> bool {
        0 <= self.next <= self.rowids.len()
    }
}

// ── What a removal does ──────────────────────────────────────────────────────
pub open spec fn go(c: ClearingText, stage: Stage, action: ActionText) -> (
    ClearingText,
    ActionText,
) {
    (ClearingText { stage, ..c }, action)
}

pub open spec fn beginning(file_id: i64) -> (ClearingText, ActionText) {
    (
        ClearingText { stage: Stage::List, file_id, rowids: Seq::empty(), next: 0 },
        ActionText::List(file_id),
    )
}

/// Where the next batch of weights ends.
pub open spec fn batch_end(c: ClearingText) -> int {
    if c.rowids.len() - c.next > DELETE_BATCH {
        c.next + DELETE_BATCH
    } else {
        c.rowids.len() as int
    }
}

/// The step that removes weights as long as there are some, then the vectors.
/// A file without a chunk has neither.
pub open spec fn weights_or_vectors(c: ClearingText) -> (ClearingText, ActionText) {
    if c.rowids.len() == 0 {
        go(c, Stage::Chunks, ActionText::DeleteChunks(c.file_id))
    } else if c.next < c.rowids.len() {
        (
            ClearingText { stage: Stage::Weights, next: batch_end(c), ..c },
            ActionText::DeleteWeights(c.rowids.subrange(c.next, batch_end(c))),
        )
    } else {
        go(c, Stage::Vectors, ActionText::DeleteVectors(c.rowids))
    }
}

pub open spec fn after_done(c: ClearingText, d: Result<(), String>) -> (ClearingText, ActionText) {
    match d {
        Err(e) => go(c, Stage::Over, ActionText::Failed(e@)),
        Ok(_) => match c.stage {
            Stage::Weights => weights_or_vectors(c),
            Stage::Vectors => go(c, Stage::Chunks, ActionText::DeleteChunks(c.file_id)),
            _ => go(c, Stage::Over, ActionText::Done),
        },
    }
}

/// Whether an event answers what a removal waits for.
pub open spec fn answers(stage: Stage, e: Event) -> bool {
    match e {
        Event::Rows(_) => stage is List,
        Event::Done(_) => !(stage is List || stage is Over),
    }
}

/// The step of a removal when it is told of an event.
pub open spec fn after(c: ClearingText, e: Event) -> (ClearingText, ActionText) {
    match e {
        Event::Rows(r) => match r {
            Ok(v) => weights_or_vectors(ClearingText { rowids: v@, next: 0, ..c }),
            Err(e) => go(c, Stage::Over, ActionText::Failed(e@)),
        },
        Event::Done(d) => after_done(c, d),
    }
}

// ── The steps ────────────────────────────────────────────────────────────────
/// Starts to remove the chunks of a file.
pub fn delete_chunks_for_file(file_id: i64) -> (r: (Clearing, Action))
    ensures
        r.0@.wf(),
        (r.0@, r.1@) == beginning(file_id),
{
    let c = Clearing { stage: Stage::List, file_id, rowids: Vec::new(), next: 0 };
    proof {
        assert(c@.rowids =~= Seq::<i64>::empty());
    }
    (c, Action::List(file_id))
}

fn rows_between(v: &Vec<i64>, from: usize, to: usize) -> (r: Vec<i64>)
    requires
        from <= to <= v@.len(),
    ensures
        r@ == v@.subrange(from as int, to as int),
{
    let mut r: Vec<i64> = Vec::new();
    let mut i: usize = from;
    while i < to
        invariant
            from <= i <= to <= v@.len(),
            r@ == v@.subrange(from as int, i as int),
        decreases to - i,
    {
        r.push(v[i]);
        i = i + 1;
        proof {
            assert(r@ =~= v@.subrange(from as int, i as int));
        }
    }
    r
}

impl Clearing {
    fn weights_or_vectors(&mut self) -> (a: Action)
        requires
            old(self)@.wf(),
        ensures
            final(self)@.wf(),
            (final(self)@, a@) == weights_or_vectors(old(self)@),
    {
        let n: usize = self.rowids.len();
        if n == 0 {
            self.stage = Stage::Chunks;
            return Action::DeleteChunks(self.file_id);
        }
        if self.next < n {
            let end: usize = if n - self.next > DELETE_BATCH {
                self.next + DELETE_BATCH
            } else {
                n
            };
            let batch = rows_between(&self.rowids, self.next, end);
            self.stage = Stage::Weights;
            self.next = end;
            return Action::DeleteWeights(batch);
        }
        let all = rows_between(&self.rowids, 0, n);
        proof {
            assert(all@ =~= self.rowids@);
        }
        self.stage = Stage::Vectors;
        Action::DeleteVectors(all)
    }

    /// Goes on with what came of the last action.
    pub fn step(&mut self, e: Event) -> (a: Action)
        requires
            old(self)@.wf(),
            answers(old(self)@.stage, e),
        ensures
            final(self)@.wf(),
            (final(self)@, a@) == after(old(self)@, e),
    {
        match e {
            Event::Rows(r) => match r {
                Ok(v) => {
                    self.rowids = v;
                    self.next = 0;
                    self.weights_or_vectors()
                },
                Err(e) => {
                    self.stage = Stage::Over;
                    Action::Finish(Err(e))
                },
            },
            Event::Done(d) => match d {
                Err(e) => {
                    self.stage = Stage::Over;
                    Action::Finish(Err(e))
                },
                Ok(_) => match self.stage {
                    Stage::Weights => self.weights_or_vectors(),
                    Stage::Vectors => {
                        self.stage = Stage::Chunks;
                        Action::DeleteChunks(self.file_id)
                    },
                    _ => {
                        self.stage = Stage::Over;
                        Action::Finish(Ok(()))
                    },
                },
            },
        }
    }
}

// ── Laws ─────────────────────────────────────────────────────────────────────
/// The tables of the index: the file of each chunk by its row, and the rows
/// that have a weight and a vector.
pub struct Tables {
    pub chunks: Map<i64, i64>,
    pub weights: Set<i64>,
    pub vectors: Set<i64>,
}

/// No weight and no vector without its chunk.
pub open spec fn consistent(t: Tables) -> bool {
    t.weights.subset_of(t.chunks.dom()) && t.vectors.subset_of(t.chunks.dom())
}

pub open spec fn rows_of(t: Tables, file_id: i64) -> Set<i64> {
    Set::new(|k: i64| t.chunks.dom().contains(k) && t.chunks[k] == file_id)
}

/// The tables once an action has been carried out.
pub open spec fn carried_out(t: Tables, a: ActionText) -> Tables {
    match a {
        ActionText::DeleteWeights(v) => Tables { weights: t.weights.difference(v.to_set()), ..t },
        ActionText::DeleteVectors(v) => Tables { vectors: t.vectors.difference(v.to_set()), ..t },
        ActionText::DeleteChunks(f) => Tables {
            chunks: t.chunks.remove_keys(rows_of(t, f)),
            ..t
        },
        _ => t,
    }
}

/// What is known of the tables once the last action of a removal has been
/// carried out.
pub open spec fn in_step(c: ClearingText, t: Tables) -> bool {
    &&& c.wf()
    &&& consistent(t)
    &&& c.stage is Weights || c.stage is Vectors ==> c.rowids.to_set() == rows_of(t, c.file_id)
    &&& c.stage is Weights ==> forall|i: int|
        0 <= i < c.next ==> !t.weights.contains(#[trigger] c.rowids[i])
    &&& c.stage is Vectors ==> forall|i: int|
        0 <= i < c.rowids.len() ==> !t.weights.contains(#[trigger] c.rowids[i])
            && !t.vectors.contains(c.rowids[i])
    &&& c.stage is Chunks ==> rows_of(t, c.file_id) == Set::<i64>::empty()
}

/// An event that tells of success, and of the rows that are really there.
pub open spec fn truthful(c: ClearingText, t: Tables, e: Event) -> bool {
    match e {
        Event::Rows(r) => match r {
            Ok(v) => v@.to_set() == rows_of(t, c.file_id),
            Err(_) => false,
        },
        Event::Done(d) => d is Ok,
    }
}

/// A removal never leaves a weight or a vector without its chunk, whichever
/// step is the last that is carried out.
pub proof fn law_no_orphan(c: ClearingText, t: Tables, e: Event)
    requires
        in_step(c, t),
        answers(c.stage, e),
        truthful(c, t, e),
    ensures
        in_step(after(c, e).0, carried_out(t, after(c, e).1)),
        consistent(carried_out(t, after(c, e).1)),
{
    let (d, a) = after(c, e);
    let u = carried_out(t, a);
    match a {
        ActionText::DeleteWeights(v) => {
            assert(rows_of(u, d.file_id) =~= rows_of(t, d.file_id));
            let from = if e is Rows {
                0
            } else {
                c.next
            };
            assert forall|i: int| 0 <= i < d.next implies !u.weights.contains(
                #[trigger] d.rowids[i],
            ) by {
                if i >= from {
                    assert(v[i - from] == d.rowids[i]);
                    assert(v.contains(d.rowids[i]));
                }
            }
        },
        ActionText::DeleteVectors(v) => {
            assert(rows_of(u, d.file_id) =~= rows_of(t, d.file_id));
            assert forall|i: int| 0 <= i < d.rowids.len() implies !u.weights.contains(
                #[trigger] d.rowids[i],
            ) && !u.vectors.contains(d.rowids[i]) by {
                assert(v.contains(d.rowids[i]));
            }
        },
        ActionText::DeleteChunks(f) => {
            let gone = rows_of(t, f);
            assert(rows_of(u, f) =~= Set::<i64>::empty());
            assert forall|k: i64| t.weights.contains(k) || t.vectors.contains(k) implies #[trigger] u.chunks.dom().contains(
                k,
            ) by {
                if gone.contains(k) {
                    assert(d.rowids.to_set().contains(k));
                    assert(d.rowids.contains(k));
                    let i = choose|i: int| 0 <= i < d.rowids.len() && d.rowids[i] == k;
                    assert(!t.weights.contains(c.rowids[i]));
                }
            }
        },
        _ => {},
    }
}

/// A removal touches nothing that belongs to another file.
pub proof fn law_other_files_stay(c: ClearingText, t: Tables, e: Event, k: i64)
    requires
        in_step(c, t),
        answers(c.stage, e),
        truthful(c, t, e),
        t.chunks.dom().contains(k),
        t.chunks[k] != c.file_id,
    ensures
        ({
            let u = carried_out(t, after(c, e).1);
            &&& u.chunks.dom().contains(k) && u.chunks[k] == t.chunks[k]
            &&& u.weights.contains(k) == t.weights.contains(k)
            &&& u.vectors.contains(k) == t.vectors.contains(k)
        }),
{
    let (d, a) = after(c, e);
    assert(!rows_of(t, c.file_id).contains(k));
    match a {
        ActionText::DeleteWeights(v) => {
            if v.contains(k) {
                let i = choose|i: int| 0 <= i < v.len() && v[i] == k;
                let from = if e is Rows {
                    0
                } else {
                    c.next
                };
                assert(d.rowids[from + i] == k);
                assert(d.rowids.to_set().contains(k));
            }
        },
        ActionText::DeleteVectors(v) => {
            assert(v.contains(k) ==> d.rowids.to_set().contains(k));
        },
        _ => {},
    }
}

/// A removal that ends well has removed every chunk of the file.
pub proof fn law_all_chunks_go(c: ClearingText, t: Tables, e: Event)
    requires
        in_step(c, t),
        answers(c.stage, e),
        after(c, e).1 is Done,
    ensures
        rows_of(t, c.file_id) == Set::<i64>::empty(),
{
}

/// How much a removal has left to do.
pub open spec fn left(c: ClearingText) -> int {
    match c.stage {
        Stage::List => 4,
        Stage::Weights => 3,
        Stage::Vectors => 2,
        Stage::Chunks => 1,
        Stage::Over => 0,
    }
}

/// Every removal ends: each step leaves less to do, or fewer weights to remove,
/// and what holds of a removal still holds.
pub proof fn law_every_removal_ends(c: ClearingText, e: Event)
    requires
        c.wf(),
        answers(c.stage, e),
    ensures
        after(c, e).0.wf(),
        ({
            let d = after(c, e).0;
            ||| 0 <= left(d) < left(c)
            ||| left(d) == left(c) && 0 <= d.rowids.len() - d.next < c.rowids.len() - c.next
        }),
{
}

/// Weights go in the order of their rows, at most 500 at a time and fewer only at the
/// end; then all vectors go at once.
pub proof fn law_weights_go_in_batches(c: ClearingText, e: Event)
    requires
        c.wf(),
        answers(c.stage, e),
    ensures
        ({
            let d = after(c, e).0;
            let from = if e is Rows {
                0
            } else {
                c.next
            };
            &&& after(c, e).1 matches ActionText::DeleteWeights(v) ==> {
                &&& 0 < v.len() <= 500
                &&& v == d.rowids.subrange(from, from + v.len())
                &&& d.next == from + v.len()
                &&& v.len() < 500 ==> d.next == d.rowids.len()
            }
            &&& after(c, e).1 matches ActionText::DeleteVectors(v) ==> v == d.rowids && from
                == d.rowids.len()
            &&& after(c, e).1 matches ActionText::DeleteChunks(f) ==> f == c.file_id
            &&& d.file_id == c.file_id
        }),
{
}

/// A failure ends a removal with its own words, and a removal succeeds in no other way
/// than by removing the chunks.
pub proof fn law_what_ends_a_removal(c: ClearingText, e: Event)
    requires
        answers(c.stage, e),
    ensures
        e matches Event::Rows(Err(error)) ==> after(c, e).1 == ActionText::Failed(error@)
            && after(c, e).0.stage is Over,
        e matches Event::Done(Err(error)) ==> after(c, e).1 == ActionText::Failed(error@)
            && after(c, e).0.stage is Over,
        (after(c, e).1 is Done) == (c.stage is Chunks && e matches Event::Done(Ok(_))),
{
}

} // verus!
