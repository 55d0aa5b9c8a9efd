//! Opening the memory database step by step. The columns of authority must be
//! there; what else cannot be brought up to date is only told.
use crate::json;
use vstd::prelude::*;

verus! {

/// How long a competing writer is waited for, in milliseconds.
pub const BUSY_TIMEOUT_MS: u64 = 5_000;

/// What the opening waits for.
#[derive(Debug, Clone, Copy, PartialEq, Eq, Structural)]
pub enum Stage {
    Open,
    Timeout,
    Facts,
    Authority,
    Messages,
    Over,
}

/// What is to be done next; every action is answered by whether it succeeded.
#[derive(Debug)]
pub enum Action {
    Open(String),
    SetTimeout(u64),
    /// Make the tables of the facts, or bring them up to date.
    SetUpFacts,
    /// Bring the facts to the columns of authority.
    MigrateAuthority,
    MakeMessages,
    Finish(Result<(), String>),
}

pub enum ActionText {
    Open(Seq<char>),
    SetTimeout(u64),
    SetUpFacts,
    MigrateAuthority,
    MakeMessages,
    Done,
    Failed(Seq<char>),
}

impl View for Action {
    type V = ActionText;

    open spec fn view(&self) -> ActionText {
        match self {
            Action::Open(p) => ActionText::Open(p@),
            Action::SetTimeout(n) => ActionText::SetTimeout(*n),
            Action::SetUpFacts => ActionText::SetUpFacts,
            Action::MigrateAuthority => ActionText::MigrateAuthority,
            Action::MakeMessages => ActionText::MakeMessages,
            Action::Finish(r) => match r {
                Ok(_) => ActionText::Done,
                Err(e) => ActionText::Failed(e@),
            },
        }
    }
}

/// A step: what to print, then what to do.
#[derive(Debug)]
pub struct Move {
    pub log: Option<String>,
    pub action: Action,
}

pub struct MoveText {
    pub log: Option<Seq<char>>,
    pub action: ActionText,
}

impl View for Move {
    type V = MoveText;

    open spec fn view(&self) -> MoveText {
        MoveText { log: json::opt_text(self.log), action: self.action@ }
    }
}

/// An opening on its way.
#[derive(Debug)]
pub struct Opening {
    stage: Stage,
}

impl View for Opening {
    type V = Stage;

    closed spec fn view(&self) -> Stage {
        self.stage
    }
}

// ── What an opening does ─────────────────────────────────────────────────────
pub open spec fn silent(action: ActionText) -> MoveText {
    MoveText { log: None, action }
}

/// What is printed where a step that may fail did.
pub open spec fn warning(what: Seq<char>, d: Result<(), String>) -> Option<Seq<char>> {
    match d {
        Ok(_) => None,
        Err(e) => Some("[memory] "@ + what + " schema migration warning: "@ + e@),
    }
}

/// The step of an opening when it is told whether its last action succeeded.
pub open spec fn after(stage: Stage, d: Result<(), String>) -> (Stage, MoveText) {
    match stage {
        Stage::Facts => (
            Stage::Authority,
            MoveText { log: warning("Plan 2"@, d), action: ActionText::MigrateAuthority },
        ),
        Stage::Messages => (
            Stage::Over,
            MoveText { log: warning("messages"@, d), action: ActionText::Done },
        ),
        _ => match d {
            Err(e) => (Stage::Over, silent(ActionText::Failed(e@))),
            Ok(_) => match stage {
                Stage::Open => (Stage::Timeout, silent(ActionText::SetTimeout(BUSY_TIMEOUT_MS))),
                Stage::Timeout => (Stage::Facts, silent(ActionText::SetUpFacts)),
                _ => (Stage::Messages, silent(ActionText::MakeMessages)),
            },
        },
    }
}

// ── The steps ────────────────────────────────────────────────────────────────
/// Starts to open the database at a path.
pub fn open_db(path: &str) -> (r: (Opening, Move))
    ensures
        r.0@ is Open,
        r.1@ == silent(ActionText::Open(path@)),
{
    (Opening { stage: Stage::Open }, Move { log: None, action: Action::Open(path.to_owned()) })
}

fn warn(what: &str, d: Result<(), String>) -> (r: Option<String>)
    ensures
        json::opt_text(r) == warning(what@, d),
{
    match d {
        Ok(_) => None,
        Err(e) => {
            let mut s = "[memory] ".to_owned();
            s.append(what);
            s.append(" schema migration warning: ");
            s.append(e.as_str());
            Some(s)
        },
    }
}

impl Opening {
    /// Goes on with whether the last action succeeded.
    pub fn step(&mut self, d: Result<(), String>) -> (m: Move)
        requires
            !(old(self)@ is Over),
        ensures
            (final(self)@, m@) == after(old(self)@, d),
    {
        match self.stage {
            Stage::Facts => {
                self.stage = Stage::Authority;
                return Move { log: warn("Plan 2", d), action: Action::MigrateAuthority };
            },
            Stage::Messages => {
                self.stage = Stage::Over;
                return Move { log: warn("messages", d), action: Action::Finish(Ok(())) };
            },
            _ => {},
        }
        let action = match d {
            Err(e) => {
                self.stage = Stage::Over;
                Action::Finish(Err(e))
            },
            Ok(_) => match self.stage {
                Stage::Open => {
                    self.stage = Stage::Timeout;
                    Action::SetTimeout(BUSY_TIMEOUT_MS)
                },
                Stage::Timeout => {
                    self.stage = Stage::Facts;
                    Action::SetUpFacts
                },
                _ => {
                    self.stage = Stage::Messages;
                    Action::MakeMessages
                },
            },
        };
        Move { log: None, action }
    }
}

// ── Laws ─────────────────────────────────────────────────────────────────────
/// A database is handed out only once the columns of authority are there: the
/// step before the last is reached over a successful migration alone, and a
/// failed one ends the opening with its error.
pub proof fn law_authority_is_strict(stage: Stage, d: Result<(), String>)
    requires
        !(stage is Over),
    ensures
        after(stage, d).1.action is Done ==> stage is Messages,
        after(stage, d).0 is Messages ==> stage is Authority && d is Ok,
        stage is Authority && d is Err ==> after(stage, d).1.action == ActionText::Failed(
            d->Err_0@,
        ),
{
}

/// What else cannot be brought up to date is told, and does not stop the
/// opening.
pub proof fn law_other_tables_are_best_effort(error: String)
    ensures
        after(Stage::Facts, Err(error)).1.action is MigrateAuthority,
        after(Stage::Facts, Err(error)).1.log is Some,
        after(Stage::Messages, Err(error)).1.action is Done,
        after(Stage::Messages, Err(error)).1.log is Some,
{
}

pub open spec fn left(stage: Stage) -> int {
    match stage {
        Stage::Open => 5,
        Stage::Timeout => 4,
        Stage::Facts => 3,
        Stage::Authority => 2,
        Stage::Messages => 1,
        Stage::Over => 0,
    }
}

/// Every opening ends: each step leaves less to do.
pub proof fn law_every_opening_ends(stage: Stage, d: Result<(), String>)
    requires
        !(stage is Over),
    ensures
        0 <= left(after(stage, d).0) < left(stage),
{
}

/// A database is opened, told to wait five seconds for a competing writer, given its
/// facts, then the columns of authority, then its messages.
pub proof fn law_order_of_an_opening(stage: Stage, d: Result<(), String>)
    requires
        !(stage is Over),
    ensures
        stage is Open && d is Ok ==> after(stage, d).1.action == ActionText::SetTimeout(5_000),
        (after(stage, d).1.action is SetTimeout) == (stage is Open && d is Ok),
        (after(stage, d).1.action is SetUpFacts) == (stage is Timeout && d is Ok),
        (after(stage, d).1.action is MigrateAuthority) == (stage is Facts),
        (after(stage, d).1.action is MakeMessages) == (stage is Authority && d is Ok),
        (after(stage, d).1.action is Done) == (stage is Messages),
        d is Err && !(stage is Facts || stage is Messages) ==> after(stage, d).1.action
            == ActionText::Failed(d->Err_0@),
        after(stage, d).1.log is Some ==> d is Err,
        stage is Facts && d is Err ==> after(stage, d).1.log == Some(
            "[memory] "@ + "Plan 2"@ + " schema migration warning: "@ + d->Err_0@,
        ),
        stage is Messages && d is Err ==> after(stage, d).1.log == Some(
            "[memory] "@ + "messages"@ + " schema migration warning: "@ + d->Err_0@,
        ),
{
}

} // verus!
