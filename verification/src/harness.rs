//! A request to the harness: from the event to the worker's answer.
use crate::json::{self, Json, JsonText};
use crate::telemetry::{self, TelemetryEvent};
use crate::text;
use vstd::prelude::*;

verus! {

/// One option of a question.
#[derive(Debug, Clone)]
pub struct Opt {
    pub id: String,
    pub label: String,
    pub description: String,
}

/// A question.
#[derive(Debug, Clone)]
pub struct Prompt {
    pub id: String,
    pub text: String,
    pub multi: bool,
    pub options: Vec<Opt>,
}

/// An answer to a question.
#[derive(Debug, Clone)]
pub struct Answer {
    pub selected: Vec<String>,
    pub free_text: Option<String>,
}

#[derive(Debug, Clone)]
pub struct Event {
    pub id: String,
    pub source: String,
    pub kind: String,
    pub body: Option<String>,
    pub reply_to: Option<String>,
    pub answer: Option<Answer>,
    pub refs: Option<Vec<String>>,
    pub scope: Option<String>,
    pub ts: String,
}

#[derive(Debug, Clone)]
pub struct ResultOut {
    pub event_id: String,
    pub status: String,
    /// The worker's answer, empty where it asks.
    pub output: String,
    pub prompt: Option<Prompt>,
}

/// A message to be stored.
#[derive(Debug, Clone)]
pub struct StoredMessage {
    pub id: String,
    pub source: String,
    pub kind: String,
    pub body: Option<String>,
    pub reply_to: Option<String>,
    pub answer: Option<Answer>,
    pub prompt: Option<Prompt>,
    pub ts: String,
}

/// What a worker gives back.
#[derive(Debug, Clone)]
pub enum WorkerOutput {
    Answer(String),
    Question(Prompt),
}

/// What an answer to a question means: the query to look up and the text that
/// tells the worker.
#[derive(Debug, Clone)]
pub struct Resolved {
    pub query: String,
    pub pin: String,
}

// ── What the values hold ─────────────────────────────────────────────────────
pub struct OptText {
    pub id: Seq<char>,
    pub label: Seq<char>,
    pub description: Seq<char>,
}

pub struct PromptText {
    pub id: Seq<char>,
    pub text: Seq<char>,
    pub multi: bool,
    pub options: Seq<OptText>,
}

pub struct AnswerText {
    pub selected: Seq<Seq<char>>,
    pub free_text: Option<Seq<char>>,
}

pub struct StoredText {
    pub id: Seq<char>,
    pub source: Seq<char>,
    pub kind: Seq<char>,
    pub body: Option<Seq<char>>,
    pub reply_to: Option<Seq<char>>,
    pub answer: Option<AnswerText>,
    pub prompt: Option<PromptText>,
    pub ts: Seq<char>,
}

pub struct ResultText {
    pub event_id: Seq<char>,
    pub status: Seq<char>,
    pub output: Seq<char>,
    pub prompt: Option<PromptText>,
}

impl View for Opt {
    type V = OptText;

    open spec fn view(&self) -> OptText {
        OptText { id: self.id@, label: self.label@, description: self.description@ }
    }
}

impl View for Prompt {
    type V = PromptText;

    open spec fn view(&self) -> PromptText {
        PromptText {
            id: self.id@,
            text: self.text@,
            multi: self.multi,
            options: self.options@.map_values(|o: Opt| o@),
        }
    }
}

impl View for Answer {
    type V = AnswerText;

    open spec fn view(&self) -> AnswerText {
        AnswerText {
            selected: text::texts(self.selected@),
            free_text: json::opt_text(self.free_text),
        }
    }
}

pub open spec fn prompt_text(p: Option<Prompt>) -> Option<PromptText> {
    match p {
        Some(x) => Some(x@),
        None => None,
    }
}

pub open spec fn answer_text(a: Option<Answer>) -> Option<AnswerText> {
    match a {
        Some(x) => Some(x@),
        None => None,
    }
}

impl View for StoredMessage {
    type V = StoredText;

    open spec fn view(&self) -> StoredText {
        StoredText {
            id: self.id@,
            source: self.source@,
            kind: self.kind@,
            body: json::opt_text(self.body),
            reply_to: json::opt_text(self.reply_to),
            answer: answer_text(self.answer),
            prompt: prompt_text(self.prompt),
            ts: self.ts@,
        }
    }
}

impl View for ResultOut {
    type V = ResultText;

    open spec fn view(&self) -> ResultText {
        ResultText {
            event_id: self.event_id@,
            status: self.status@,
            output: self.output@,
            prompt: prompt_text(self.prompt),
        }
    }
}

fn copy_prompt(p: &Prompt) -> (r: Prompt)
    ensures
        r@ == p@,
{
    let mut options: Vec<Opt> = Vec::new();
    let mut i: usize = 0;
    while i < p.options.len()
        invariant
            i <= p.options@.len(),
            options@.len() == i,
            forall|k: int| 0 <= k < i ==> (#[trigger] options@[k])@ == p.options@[k]@,
        decreases p.options.len() - i,
    {
        options.push(
            Opt {
                id: p.options[i].id.as_str().to_owned(),
                label: p.options[i].label.as_str().to_owned(),
                description: p.options[i].description.as_str().to_owned(),
            },
        );
        i += 1;
    }
    let r = Prompt {
        id: p.id.as_str().to_owned(),
        text: p.text.as_str().to_owned(),
        multi: p.multi,
        options,
    };
    proof {
        assert(r@.options =~= p@.options);
    }
    r
}

fn copy_text(s: &Option<String>) -> (r: Option<String>)
    ensures
        json::opt_text(r) == json::opt_text(*s),
{
    match s {
        Some(x) => Some(x.as_str().to_owned()),
        None => None,
    }
}

fn copy_answer(a: &Answer) -> (r: Answer)
    ensures
        r@ == a@,
{
    Answer { selected: text::copy_strings(&a.selected), free_text: copy_text(&a.free_text) }
}

// ── The steps of a request ───────────────────────────────────────────────────
/// What a step needs done.
#[derive(Debug)]
pub enum Action {
    /// Look up the message that is replied to.
    Lookup(String),
    /// Find out what an answer to a question means.
    Resolve(Prompt, Answer),
    /// Store the event, and mirror it in telemetry.
    Store(StoredMessage),
    /// Put together what is remembered about a query, for agents in a
    /// workspace where one is given.
    Assemble { query: String, root: Option<String> },
    /// Run the worker on its input.
    Work(String),
    /// Store the question that the worker asks, and mirror it in telemetry.
    StoreQuestion { id: String, source: String, prompt: Prompt, ts: String },
    /// The end.
    Finish(Result<ResultOut, String>),
}

pub enum ActionText {
    Lookup(Seq<char>),
    Resolve(PromptText, AnswerText),
    Store(StoredText),
    Assemble { query: Seq<char>, root: Option<Seq<char>> },
    Work(Seq<char>),
    StoreQuestion { id: Seq<char>, source: Seq<char>, prompt: PromptText, ts: Seq<char> },
    Done(ResultText),
    Failed(Seq<char>),
}

impl View for Action {
    type V = ActionText;

    open spec fn view(&self) -> ActionText {
        match self {
            Action::Lookup(id) => ActionText::Lookup(id@),
            Action::Resolve(p, a) => ActionText::Resolve(p@, a@),
            Action::Store(m) => ActionText::Store(m@),
            Action::Assemble { query, root } => ActionText::Assemble {
                query: query@,
                root: json::opt_text(*root),
            },
            Action::Work(input) => ActionText::Work(input@),
            Action::StoreQuestion { id, source, prompt, ts } => ActionText::StoreQuestion {
                id: id@,
                source: source@,
                prompt: prompt@,
                ts: ts@,
            },
            Action::Finish(r) => match r {
                Ok(x) => ActionText::Done(x@),
                Err(e) => ActionText::Failed(e@),
            },
        }
    }
}

/// Where a request stands: what its last action has to bring.
#[derive(Debug)]
pub enum Stage {
    /// The message that is replied to: its question, where it is one.
    Found,
    /// What an answer means.
    Meaning,
    /// That the event is stored.
    Stored { query: String, pin: Option<String> },
    /// What is remembered.
    Context { pin: Option<String> },
    /// The worker's output.
    Output,
    /// That the question is stored.
    Asked { prompt: Prompt },
    Over,
}

pub enum StageText {
    Found,
    Meaning,
    Stored { query: Seq<char>, pin: Option<Seq<char>> },
    Context { pin: Option<Seq<char>> },
    Output,
    Asked { prompt: PromptText },
    Over,
}

/// How far a submission has come: every step takes it further, so it ends.
pub open spec fn rank(s: StageText) -> int {
    match s {
        StageText::Found => 0,
        StageText::Meaning => 1,
        StageText::Stored { .. } => 2,
        StageText::Context { .. } => 3,
        StageText::Output => 4,
        StageText::Asked { .. } => 5,
        StageText::Over => 6,
    }
}

impl View for Stage {
    type V = StageText;

    open spec fn view(&self) -> StageText {
        match self {
            Stage::Found => StageText::Found,
            Stage::Meaning => StageText::Meaning,
            Stage::Stored { query, pin } => StageText::Stored {
                query: query@,
                pin: json::opt_text(*pin),
            },
            Stage::Context { pin } => StageText::Context { pin: json::opt_text(*pin) },
            Stage::Output => StageText::Output,
            Stage::Asked { prompt } => StageText::Asked { prompt: prompt@ },
            Stage::Over => StageText::Over,
        }
    }
}

/// A request on its way.
#[derive(Debug)]
pub struct Submission {
    pub event: Event,
    pub root: Option<String>,
    pub stage: Stage,
}

/// What the debug form of a text is.
pub uninterp spec fn quoted(s: Seq<char>) -> Seq<char>;

/// The debug form of a `str`, in quotes and with escapes, depends on the text
/// alone.
#[verifier::external_body]
pub(crate) fn quote(s: &str) -> (r: String)
    ensures
        r@ == quoted(s@),
{
    format!("{:?}", s)
}

/// A text, the empty one where none is given.
pub open spec fn or_empty(s: Option<Seq<char>>) -> Seq<char> {
    match s {
        Some(x) => x,
        None => Seq::empty(),
    }
}

fn text_or_empty(s: &Option<String>) -> (r: String)
    ensures
        r@ == or_empty(json::opt_text(*s)),
{
    match s {
        Some(x) => x.as_str().to_owned(),
        None => {
            let r = String::new();
            proof {
                assert(r@ =~= Seq::<char>::empty());
            }
            r
        },
    }
}

/// The event as it is stored.
pub open spec fn inbound_text(e: Event) -> StoredText {
    StoredText {
        id: e.id@,
        source: e.source@,
        kind: e.kind@,
        body: json::opt_text(e.body),
        reply_to: json::opt_text(e.reply_to),
        answer: answer_text(e.answer),
        prompt: None,
        ts: e.ts@,
    }
}

/// The step that stores the event.
pub open spec fn storing(e: Event, query: Seq<char>, pin: Option<Seq<char>>) -> (
    StageText,
    ActionText,
) {
    (StageText::Stored { query, pin }, ActionText::Store(inbound_text(e)))
}

pub open spec fn failing(msg: Seq<char>) -> (StageText, ActionText) {
    (StageText::Over, ActionText::Failed(msg))
}

/// The first step: a reply is looked up, anything else is stored.
pub open spec fn first_step(e: Event) -> (StageText, ActionText) {
    match e.reply_to {
        Some(id) => (StageText::Found, ActionText::Lookup(id@)),
        None => storing(e, or_empty(json::opt_text(e.body)), None),
    }
}

/// The step after the lookup of the message that is replied to. A reply to
/// nothing is an error, and so is a reply to a question without an answer.
pub open spec fn after_lookup(e: Event, found: Result<Option<Option<Prompt>>, String>) -> (
    StageText,
    ActionText,
) {
    let id = or_empty(json::opt_text(e.reply_to));
    match found {
        Err(x) => failing("messages lookup failed: "@ + x@),
        Ok(m) => match m {
            None => failing(
                "reply_to target "@ + quoted(id) + " not found (referential integrity)"@,
            ),
            Some(question) => match question {
                Some(p) => match e.answer {
                    Some(a) => (StageText::Meaning, ActionText::Resolve(p@, a@)),
                    None => failing("reply to question "@ + id + " carried no answer"@),
                },
                None => storing(
                    e,
                    "(reply to non-question "@ + id + ") "@ + or_empty(json::opt_text(e.body)),
                    Some("Note: reply_to target "@ + id + " is not a question.\n"@),
                ),
            },
        },
    }
}

/// What the worker is given: what is remembered, where there is something, and
/// the text for it.
pub open spec fn input_text(e: Event, pin: Option<Seq<char>>, context: Seq<char>) -> Seq<char> {
    let user = match pin {
        Some(p) => p,
        None => or_empty(json::opt_text(e.body)),
    };
    if text::trim(context).len() == 0 {
        user
    } else {
        context + "\n\n"@ + user
    }
}

/// The step after the worker's run.
pub open spec fn after_work(e: Event, out: Result<WorkerOutput, String>) -> (StageText, ActionText) {
    match out {
        Err(x) => failing(x@),
        Ok(w) => match w {
            WorkerOutput::Answer(t) => (
                StageText::Over,
                ActionText::Done(
                    ResultText { event_id: e.id@, status: "done"@, output: t@, prompt: None },
                ),
            ),
            WorkerOutput::Question(p) => (
                StageText::Asked { prompt: p@ },
                ActionText::StoreQuestion {
                    id: p.id@,
                    source: "hex"@,
                    prompt: p@,
                    ts: e.ts@,
                },
            ),
        },
    }
}

pub open spec fn insert_failure(x: Seq<char>) -> Seq<char> {
    "messages insert failed (fatal): "@ + x
}

impl Submission {
    fn over(event: Event, root: Option<String>, msg: String) -> (r: (Submission, Action))
        ensures
            r.0.event == event,
            r.0.root == root,
            (r.0.stage@, r.1@) == failing(msg@),
    {
        (Submission { event, root, stage: Stage::Over }, Action::Finish(Err(msg)))
    }

    fn store(event: Event, root: Option<String>, query: String, pin: Option<String>) -> (r: (
        Submission,
        Action,
    ))
        ensures
            r.0.event == event,
            r.0.root == root,
            (r.0.stage@, r.1@) == storing(event, query@, json::opt_text(pin)),
    {
        let m = StoredMessage {
            id: event.id.as_str().to_owned(),
            source: event.source.as_str().to_owned(),
            kind: event.kind.as_str().to_owned(),
            body: copy_text(&event.body),
            reply_to: copy_text(&event.reply_to),
            answer: match &event.answer {
                Some(a) => Some(copy_answer(a)),
                None => None,
            },
            prompt: None,
            ts: event.ts.as_str().to_owned(),
        };
        (Submission { event, root, stage: Stage::Stored { query, pin } }, Action::Store(m))
    }

    fn begin(event: Event, root: Option<String>) -> (r: (Submission, Action))
        ensures
            r.0.event == event,
            r.0.root == root,
            (r.0.stage@, r.1@) == first_step(event),
    {
        match &event.reply_to {
            Some(id) => {
                let id = id.as_str().to_owned();
                (Submission { event, root, stage: Stage::Found }, Action::Lookup(id))
            },
            None => {
                let query = text_or_empty(&event.body);
                Self::store(event, root, query, None)
            },
        }
    }

    /// Goes on with the message that is replied to: nothing, or its question
    /// where it is one.
    pub fn found(self, found: Result<Option<Option<Prompt>>, String>) -> (r: (Submission, Action))
        requires
            self.stage is Found,
            self.event.reply_to is Some,
        ensures
            r.0.event == self.event,
            r.0.root == self.root,
            rank(r.0.stage@) > rank(self.stage@),
            (r.0.stage@, r.1@) == after_lookup(self.event, found),
    {
        let event = self.event;
        let root = self.root;
        let id = text_or_empty(&event.reply_to);
        let m = match found {
            Ok(m) => m,
            Err(x) => {
                let mut msg = "messages lookup failed: ".to_owned();
                msg.append(x.as_str());
                return Self::over(event, root, msg);
            },
        };
        let question = match m {
            Some(q) => q,
            None => {
                let mut msg = "reply_to target ".to_owned();
                let q = quote(id.as_str());
                msg.append(q.as_str());
                msg.append(" not found (referential integrity)");
                return Self::over(event, root, msg);
            },
        };
        match question {
            Some(p) => match &event.answer {
                Some(a) => {
                    let a = copy_answer(a);
                    (Submission { event, root, stage: Stage::Meaning }, Action::Resolve(p, a))
                },
                None => {
                    let mut msg = "reply to question ".to_owned();
                    msg.append(id.as_str());
                    msg.append(" carried no answer");
                    Self::over(event, root, msg)
                },
            },
            None => {
                let mut query = "(reply to non-question ".to_owned();
                query.append(id.as_str());
                query.append(") ");
                let body = text_or_empty(&event.body);
                query.append(body.as_str());
                let mut pin = "Note: reply_to target ".to_owned();
                pin.append(id.as_str());
                pin.append(" is not a question.\n");
                Self::store(event, root, query, Some(pin))
            },
        }
    }

    /// Goes on with what an answer means.
    pub fn resolved(self, meaning: Result<Resolved, String>) -> (r: (Submission, Action))
        requires
            self.stage is Meaning,
        ensures
            r.0.event == self.event,
            r.0.root == self.root,
            rank(r.0.stage@) > rank(self.stage@),
            (r.0.stage@, r.1@) == match meaning {
                Ok(m) => storing(self.event, m.query@, Some(m.pin@)),
                Err(x) => failing(x@),
            },
    {
        match meaning {
            Ok(m) => Self::store(self.event, self.root, m.query, Some(m.pin)),
            Err(x) => Self::over(self.event, self.root, x),
        }
    }

    /// Goes on once the event has been stored: nothing is looked up or run for
    /// an event that could not be.
    pub fn stored(self, written: Result<(), String>) -> (r: (Submission, Action))
        requires
            self.stage is Stored,
        ensures
            r.0.event == self.event,
            r.0.root == self.root,
            rank(r.0.stage@) > rank(self.stage@),
            (r.0.stage@, r.1@) == match written {
                Ok(_) => (
                    StageText::Context { pin: self.stage@->Stored_pin },
                    ActionText::Assemble {
                        query: self.stage@->Stored_query,
                        root: json::opt_text(self.root),
                    },
                ),
                Err(x) => failing(insert_failure(x@)),
            },
    {
        match written {
            Err(x) => {
                let mut msg = "messages insert failed (fatal): ".to_owned();
                msg.append(x.as_str());
                Self::over(self.event, self.root, msg)
            },
            Ok(_) => {
                let root = copy_text(&self.root);
                let query;
                let pin;
                match self.stage {
                    Stage::Stored { query: q, pin: p } => {
                        query = q;
                        pin = p;
                    },
                    _ => {
                        proof {
                            assert(false);
                        }
                        query = String::new();
                        pin = None;
                    },
                }
                (
                    Submission {
                        event: self.event,
                        root: self.root,
                        stage: Stage::Context { pin },
                    },
                    Action::Assemble { query, root },
                )
            },
        }
    }

    /// Goes on with what is remembered.
    pub fn assembled(self, context: &str) -> (r: (Submission, Action))
        requires
            self.stage is Context,
        ensures
            r.0.event == self.event,
            r.0.root == self.root,
            rank(r.0.stage@) > rank(self.stage@),
            r.0.stage is Output,
            r.1@ == ActionText::Work(
                input_text(self.event, self.stage@->Context_pin, context@),
            ),
    {
        let pin = match self.stage {
            Stage::Context { pin } => pin,
            _ => None,
        };
        let user = match pin {
            Some(p) => p,
            None => text_or_empty(&self.event.body),
        };
        let trimmed = text::trim_str(context);
        let input = if trimmed.as_str().is_empty() {
            user
        } else {
            let mut r = context.to_owned();
            r.append("\n\n");
            r.append(user.as_str());
            r
        };
        (
            Submission { event: self.event, root: self.root, stage: Stage::Output },
            Action::Work(input),
        )
    }

    /// Goes on with what the worker gave back.
    pub fn worked(self, out: Result<WorkerOutput, String>) -> (r: (Submission, Action))
        requires
            self.stage is Output,
        ensures
            r.0.event == self.event,
            r.0.root == self.root,
            rank(r.0.stage@) > rank(self.stage@),
            (r.0.stage@, r.1@) == after_work(self.event, out),
    {
        let event = self.event;
        let root = self.root;
        match out {
            Err(x) => Self::over(event, root, x),
            Ok(w) => match w {
                WorkerOutput::Answer(t) => {
                    let r = ResultOut {
                        event_id: event.id.as_str().to_owned(),
                        status: "done".to_owned(),
                        output: t,
                        prompt: None,
                    };
                    (Submission { event, root, stage: Stage::Over }, Action::Finish(Ok(r)))
                },
                WorkerOutput::Question(p) => {
                    let a = Action::StoreQuestion {
                        id: p.id.as_str().to_owned(),
                        source: "hex".to_owned(),
                        prompt: copy_prompt(&p),
                        ts: event.ts.as_str().to_owned(),
                    };
                    (Submission { event, root, stage: Stage::Asked { prompt: p } }, a)
                },
            },
        }
    }

    /// Goes on once the worker's question has been stored.
    pub fn asked(self, written: Result<(), String>) -> (r: (Submission, Action))
        requires
            self.stage is Asked,
        ensures
            r.0.event == self.event,
            r.0.root == self.root,
            rank(r.0.stage@) > rank(self.stage@),
            (r.0.stage@, r.1@) == match written {
                Ok(_) => (
                    StageText::Over,
                    ActionText::Done(
                        ResultText {
                            event_id: self.event.id@,
                            status: "done"@,
                            output: Seq::empty(),
                            prompt: Some(self.stage@->Asked_prompt),
                        },
                    ),
                ),
                Err(x) => failing(insert_failure(x@)),
            },
    {
        match written {
            Err(x) => {
                let mut msg = "messages insert failed (fatal): ".to_owned();
                msg.append(x.as_str());
                Self::over(self.event, self.root, msg)
            },
            Ok(_) => {
                let prompt = match self.stage {
                    Stage::Asked { prompt } => Some(prompt),
                    _ => None,
                };
                let output = String::new();
                proof {
                    assert(output@ =~= Seq::<char>::empty());
                }
                let r = ResultOut {
                    event_id: self.event.id.as_str().to_owned(),
                    status: "done".to_owned(),
                    output,
                    prompt,
                };
                (
                    Submission { event: self.event, root: self.root, stage: Stage::Over },
                    Action::Finish(Ok(r)),
                )
            },
        }
    }
}

/// Takes up an event: the request and its first action.
pub fn submit(e: Event) -> (r: (Submission, Action))
    ensures
        r.0.event == e,
        r.0.root is None,
        (r.0.stage@, r.1@) == first_step(e),
{
    Submission::begin(e, None)
}

/// Takes up an event in a workspace, whose registered sources may be read.
pub fn submit_with_root(hex_root: &str, e: Event) -> (r: (Submission, Action))
    ensures
        r.0.event == e,
        json::opt_text(r.0.root) == Some(hex_root@),
        (r.0.stage@, r.1@) == first_step(e),
{
    Submission::begin(e, Some(hex_root.to_owned()))
}

// ── Telemetry ────────────────────────────────────────────────────────────────
pub open spec fn opt_json(o: Opt) -> JsonText {
    JsonText::Object(
        seq![
            ("id"@, JsonText::Str(o.id@)),
            ("label"@, JsonText::Str(o.label@)),
            ("description"@, JsonText::Str(o.description@)),
        ],
    )
}

pub open spec fn prompt_json(p: Prompt) -> JsonText {
    JsonText::Object(
        seq![
            ("id"@, JsonText::Str(p.id@)),
            ("text"@, JsonText::Str(p.text@)),
            ("multi"@, JsonText::Bool(p.multi)),
            ("options"@, JsonText::Array(p.options@.map_values(|o: Opt| opt_json(o)))),
        ],
    )
}

/// An answer as JSON; a free text that is not there is left out.
pub open spec fn answer_json(a: Answer) -> JsonText {
    let selected = ("selected"@, json::text_array(text::texts(a.selected@)));
    JsonText::Object(
        match a.free_text {
            Some(t) => seq![selected, ("free_text"@, JsonText::Str(t@))],
            None => seq![selected],
        },
    )
}

/// What telemetry says of a stored message.
pub open spec fn mirror_json(m: StoredMessage) -> JsonText {
    JsonText::Object(
        seq![
            ("id"@, JsonText::Str(m.id@)),
            ("kind"@, JsonText::Str(m.kind@)),
            ("body"@, json::text_or_null(json::opt_text(m.body))),
            (
                "prompt"@,
                match m.prompt {
                    Some(p) => prompt_json(p),
                    None => JsonText::Null,
                },
            ),
            (
                "answer"@,
                match m.answer {
                    Some(a) => answer_json(a),
                    None => JsonText::Null,
                },
            ),
        ],
    )
}

fn opt_value(o: &Opt) -> (r: Json)
    ensures
        r@ == opt_json(*o),
{
    let mut m: Vec<(String, Json)> = Vec::new();
    json::put(&mut m, "id", json::text_value(o.id.as_str()));
    json::put(&mut m, "label", json::text_value(o.label.as_str()));
    json::put(&mut m, "description", json::text_value(o.description.as_str()));
    proof {
        assert(json::member_texts(m@) =~= opt_json(*o)->Object_0);
    }
    json::object(m)
}

/// A question as JSON.
pub fn prompt_value(p: &Prompt) -> (r: Json)
    ensures
        r@ == prompt_json(*p),
{
    let mut options: Vec<Json> = Vec::new();
    let mut i: usize = 0;
    while i < p.options.len()
        invariant
            i <= p.options@.len(),
            options@.len() == i,
            forall|k: int| 0 <= k < i ==> (#[trigger] options@[k])@ == opt_json(p.options@[k]),
        decreases p.options.len() - i,
    {
        options.push(opt_value(&p.options[i]));
        i += 1;
    }
    let mut m: Vec<(String, Json)> = Vec::new();
    json::put(&mut m, "id", json::text_value(p.id.as_str()));
    json::put(&mut m, "text", json::text_value(p.text.as_str()));
    json::put(&mut m, "multi", Json::Bool(p.multi));
    proof {
        assert(json::item_texts(options@) =~= p.options@.map_values(|o: Opt| opt_json(o)));
    }
    json::put(&mut m, "options", json::array(options));
    proof {
        assert(json::member_texts(m@) =~= prompt_json(*p)->Object_0);
    }
    json::object(m)
}

/// An answer as JSON.
pub fn answer_value(a: &Answer) -> (r: Json)
    ensures
        r@ == answer_json(*a),
{
    let mut m: Vec<(String, Json)> = Vec::new();
    json::put(&mut m, "selected", json::texts_value(&a.selected));
    match &a.free_text {
        Some(t) => {
            json::put(&mut m, "free_text", json::text_value(t.as_str()));
        },
        None => {},
    }
    proof {
        assert(json::member_texts(m@) =~= answer_json(*a)->Object_0);
    }
    json::object(m)
}

/// What telemetry says of a stored message.
pub fn mirror(s: &StoredMessage) -> (r: Json)
    ensures
        r@ == mirror_json(*s),
{
    let mut m: Vec<(String, Json)> = Vec::new();
    json::put(&mut m, "id", json::text_value(s.id.as_str()));
    json::put(&mut m, "kind", json::text_value(s.kind.as_str()));
    json::put(&mut m, "body", json::opt_value(&s.body));
    let prompt = match &s.prompt {
        Some(p) => prompt_value(p),
        None => Json::Null,
    };
    json::put(&mut m, "prompt", prompt);
    let answer = match &s.answer {
        Some(a) => answer_value(a),
        None => Json::Null,
    };
    json::put(&mut m, "answer", answer);
    proof {
        assert(json::member_texts(m@) =~= mirror_json(*s)->Object_0);
    }
    json::object(m)
}

/// The telemetry row of a stored message; `detail` is what it says, as text.
pub fn mirror_row(s: &StoredMessage, detail: String) -> (e: TelemetryEvent)
    ensures
        e@ == telemetry::note_text(s.source@, "message"@, "ok"@, detail@),
{
    telemetry::note(s.source.as_str(), "message", "ok", detail)
}

// ── Laws ─────────────────────────────────────────────────────────────────────
/// A reply to nothing, and a reply to a question without an answer, ends in an
/// error before anything is stored or run.
pub proof fn law_bad_reply_goes_nowhere(e: Event, found: Result<Option<Option<Prompt>>, String>)
    requires
        e.reply_to is Some,
        match found {
            Err(_) => true,
            Ok(m) => match m {
                None => true,
                Some(q) => q is Some && e.answer is None,
            },
        },
    ensures
        after_lookup(e, found).0 is Over,
        after_lookup(e, found).1 is Failed,
{
}

/// The event is stored before anything is remembered or run for it: the first
/// step, and the one behind a lookup, never leads past storing.
pub proof fn law_stored_first(e: Event, found: Result<Option<Option<Prompt>>, String>)
    ensures
        !(first_step(e).1 is Assemble) && !(first_step(e).1 is Work),
        !(after_lookup(e, found).1 is Assemble) && !(after_lookup(e, found).1 is Work),
{
}

/// An event that replies to nothing is stored as it came, and its body is what is looked
/// up; a reply first looks up what it replies to.
pub proof fn law_first_step(e: Event)
    ensures
        e.reply_to is Some ==> first_step(e).1 == ActionText::Lookup(e.reply_to->0@),
        e.reply_to is None ==> first_step(e).1 is Store && first_step(e).0 is Stored
            && first_step(e).0->Stored_pin is None,
        e.reply_to is None && e.body is Some ==> first_step(e).0->Stored_query == e.body->0@,
        e.reply_to is None && e.body is None ==> first_step(e).0->Stored_query.len() == 0,
{
}

/// What is stored of an event has its identifier, source, kind, body and time.
pub proof fn law_stored_event(e: Event)
    ensures
        inbound_text(e).id == e.id@,
        inbound_text(e).source == e.source@,
        inbound_text(e).kind == e.kind@,
        inbound_text(e).body == json::opt_text(e.body),
        inbound_text(e).reply_to == json::opt_text(e.reply_to),
        inbound_text(e).ts == e.ts@,
        inbound_text(e).prompt is None,
{
}

/// An answer to a question is resolved against that question; a reply to what is no
/// question is stored, and the worker is told so.
pub proof fn law_replies(e: Event, p: Prompt)
    requires
        e.reply_to is Some,
    ensures
        e.answer is Some ==> after_lookup(e, Ok(Some(Some(p)))).1 == ActionText::Resolve(
            p@,
            e.answer->0@,
        ),
        after_lookup(e, Ok(Some(None))).1 == ActionText::Store(inbound_text(e)),
        after_lookup(e, Ok(Some(None))).0->Stored_pin is Some,
{
}

/// The worker is given the context, where there is one, and behind it the pinned text,
/// or the body where nothing is pinned.
pub proof fn law_input(e: Event, pin: Seq<char>, context: Seq<char>)
    ensures
        text::trim(context).len() == 0 ==> input_text(e, Some(pin), context) == pin,
        text::trim(context).len() > 0 ==> text::starts_with(input_text(e, Some(pin), context), context)
            && text::ends_with(input_text(e, Some(pin), context), pin),
        text::trim(context).len() == 0 && e.body is Some ==> input_text(e, None, context)
            == e.body->0@,
{
    let r = input_text(e, Some(pin), context);
    if text::trim(context).len() > 0 {
        assert(r.subrange(0, context.len() as int) =~= context);
        assert(r.subrange(r.len() - pin.len(), r.len() as int) =~= pin);
    }
}

/// An answer of the worker is the result of the event; a question is first stored, from
/// `hex` and with the time of the event; an error is the error.
pub proof fn law_after_work(e: Event, t: String, p: Prompt, x: String)
    ensures
        after_work(e, Ok(WorkerOutput::Answer(t))).1 is Done,
        after_work(e, Ok(WorkerOutput::Answer(t))).1->Done_0.event_id == e.id@,
        after_work(e, Ok(WorkerOutput::Answer(t))).1->Done_0.output == t@,
        after_work(e, Ok(WorkerOutput::Answer(t))).1->Done_0.status == "done"@,
        after_work(e, Ok(WorkerOutput::Question(p))).1 == (ActionText::StoreQuestion {
            id: p.id@,
            source: "hex"@,
            prompt: p@,
            ts: e.ts@,
        }),
        after_work(e, Err(x)).1 == ActionText::Failed(x@),
{
}

/// Telemetry shows a question with its options and an answer with what was selected.
pub proof fn law_mirror(m: StoredMessage, k: int)
    ensures
        mirror_json(m)->Object_0.contains(("id"@, JsonText::Str(m.id@))),
        mirror_json(m)->Object_0.contains(("kind"@, JsonText::Str(m.kind@))),
        m.body is Some ==> mirror_json(m)->Object_0.contains(("body"@, JsonText::Str(m.body->0@))),
        m.prompt is Some ==> mirror_json(m)->Object_0.contains(
            ("prompt"@, prompt_json(m.prompt->0)),
        ),
        m.answer is Some ==> mirror_json(m)->Object_0.contains(
            ("answer"@, answer_json(m.answer->0)),
        ),
        m.answer is Some ==> answer_json(m.answer->0)->Object_0[0] == (
            "selected"@,
            json::text_array(text::texts(m.answer->0.selected@)),
        ),
        m.prompt is Some ==> prompt_json(m.prompt->0)->Object_0.contains(
            ("text"@, JsonText::Str(m.prompt->0.text@)),
        ),
        m.prompt is Some ==> prompt_json(m.prompt->0)->Object_0.contains(
            ("multi"@, JsonText::Bool(m.prompt->0.multi)),
        ),
{
    let o = mirror_json(m)->Object_0;
    assert(o[0].0 == "id"@ && o[1].0 == "kind"@ && o[2].0 == "body"@ && o[3].0 == "prompt"@ && o[4].0
        == "answer"@);
    if m.prompt is Some {
        let p = prompt_json(m.prompt->0)->Object_0;
        assert(p[1].0 == "text"@ && p[2].0 == "multi"@);
    }
}

/// What is wrong with a reply is said with what it replies to.
pub proof fn law_bad_replies_are_told(e: Event, x: String, p: Prompt)
    requires
        e.reply_to is Some,
    ensures
        after_lookup(e, Err(x)).1 == ActionText::Failed("messages lookup failed: "@ + x@),
        after_lookup(e, Ok(None)).1 == ActionText::Failed(
            "reply_to target "@ + quoted(e.reply_to->0@)
                + " not found (referential integrity)"@,
        ),
        e.answer is None ==> after_lookup(e, Ok(Some(Some(p)))).1 == ActionText::Failed(
            "reply to question "@ + e.reply_to->0@ + " carried no answer"@,
        ),
{
}

/// A reply to what is no question is looked up by its body with a note in front, and the
/// worker is told of the note.
pub proof fn law_a_reply_to_no_question(e: Event)
    requires
        e.reply_to is Some,
        e.body is Some,
    ensures
        after_lookup(e, Ok(Some(None))).0 == (StageText::Stored {
            query: "(reply to non-question "@ + e.reply_to->0@ + ") "@ + e.body->0@,
            pin: Some("Note: reply_to target "@ + e.reply_to->0@ + " is not a question.\n"@),
        }),
{
}

/// An option is told with its identifier, its label and its description, in the order of
/// the question.
pub proof fn law_options(p: Prompt, k: int)
    requires
        0 <= k < p.options@.len(),
    ensures
        prompt_json(p)->Object_0.len() == 4,
        prompt_json(p)->Object_0[0] == ("id"@, JsonText::Str(p.id@)),
        prompt_json(p)->Object_0[3].0 == "options"@,
        ({
            let o = prompt_json(p)->Object_0[3].1->Array_0;
            &&& o.len() == p.options@.len()
            &&& o[k] == JsonText::Object(
                seq![
                    ("id"@, JsonText::Str(p.options@[k].id@)),
                    ("label"@, JsonText::Str(p.options@[k].label@)),
                    ("description"@, JsonText::Str(p.options@[k].description@)),
                ],
            )
        }),
{
}

/// A message that could not be stored is told with what went wrong.
pub proof fn law_insert_failure(x: Seq<char>)
    ensures
        text::starts_with(insert_failure(x), "messages insert failed (fatal): "@),
        text::ends_with(insert_failure(x), x),
{
    let s = insert_failure(x);
    let p = "messages insert failed (fatal): "@;
    assert(s.subrange(0, p.len() as int) =~= p);
    assert(s.subrange(s.len() - x.len(), s.len() as int) =~= x);
}

} // verus!
