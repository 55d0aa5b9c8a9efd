//! Messages between people and agents: what each request answers, and what it
//! changes.
use crate::comments::Comment;
use crate::json::{self, Json, JsonText};
use crate::lists;
use crate::paths;
use crate::server::{
    self,
    Count,
    Notice,
    Request,
    Response,
    Saved,
    Step,
};
use crate::stamp;
use crate::text::{self, str_eq};
use vstd::prelude::*;

verus! {

#[derive(Debug, Clone, Copy, PartialEq, Eq, Structural)]
pub enum MessageType {
    Comment,
    Agent,
    Notification,
}

impl MessageType {
    pub open spec fn text(self) -> Seq<char> {
        match self {
            MessageType::Comment => "comment"@,
            MessageType::Agent => "agent"@,
            MessageType::Notification => "notification"@,
        }
    }

    pub fn name(&self) -> (r: &'static str)
        ensures
            r@ == self.text(),
    {
        match self {
            MessageType::Comment => "comment",
            MessageType::Agent => "agent",
            MessageType::Notification => "notification",
        }
    }

    /// The type that a text names.
    pub open spec fn named(s: Seq<char>) -> Option<MessageType> {
        if s == "comment"@ {
            Some(MessageType::Comment)
        } else if s == "agent"@ {
            Some(MessageType::Agent)
        } else if s == "notification"@ {
            Some(MessageType::Notification)
        } else {
            None
        }
    }

    pub fn parse(s: &str) -> (r: Result<MessageType, String>)
        ensures
            match r {
                Ok(t) => Self::named(s@) == Some(t),
                Err(e) => Self::named(s@) is None && e@ == unknown_type(s@),
            },
    {
        if str_eq(s, "comment") {
            Ok(MessageType::Comment)
        } else if str_eq(s, "agent") {
            Ok(MessageType::Agent)
        } else if str_eq(s, "notification") {
            Ok(MessageType::Notification)
        } else {
            let mut e = "unknown msg_type '".to_owned();
            e.append(s);
            e.append("'; expected comment, agent, or notification");
            Err(e)
        }
    }
}

pub open spec fn unknown_type(s: Seq<char>) -> Seq<char> {
    "unknown msg_type '"@ + s + "'; expected comment, agent, or notification"@
}

/// A type is read back from its name.
pub proof fn law_type_names(t: MessageType)
    ensures
        MessageType::named(t.text()) == Some(t),
{
    reveal_strlit("comment");
    reveal_strlit("agent");
    reveal_strlit("notification");
    assert("comment"@.len() == 7 && "agent"@.len() == 5 && "notification"@.len() == 12);
}

#[derive(Debug, Clone)]
pub struct ActionEntry {
    pub ts: String,
    pub action: String,
    pub related_assets: Vec<String>,
}

#[derive(Debug, Clone)]
pub struct Message {
    pub id: String,
    pub msg_type: MessageType,
    pub from: String,
    pub to: Vec<String>,
    pub content: String,
    pub anchor: Option<String>,
    pub status: String,
    pub created_at: String,
    pub action_log: Vec<ActionEntry>,
    pub routed_to: Vec<String>,
}

/// The number in front of the list of messages in the file.
pub const FILE_VERSION: u32 = 1;

// ── Messages as JSON ─────────────────────────────────────────────────────────
pub open spec fn entry_json(e: ActionEntry) -> JsonText {
    JsonText::Object(
        seq![
            ("ts"@, JsonText::Str(e.ts@)),
            ("action"@, JsonText::Str(e.action@)),
            ("related_assets"@, json::text_array(text::texts(e.related_assets@))),
        ],
    )
}

pub open spec fn message_json(m: Message) -> JsonText {
    JsonText::Object(
        seq![
            ("id"@, JsonText::Str(m.id@)),
            ("msg_type"@, JsonText::Str(m.msg_type.text())),
            ("from"@, JsonText::Str(m.from@)),
            ("to"@, json::text_array(text::texts(m.to@))),
            ("content"@, JsonText::Str(m.content@)),
            ("anchor"@, json::text_or_null(json::opt_text(m.anchor))),
            ("status"@, JsonText::Str(m.status@)),
            ("created_at"@, JsonText::Str(m.created_at@)),
            (
                "action_log"@,
                JsonText::Array(m.action_log@.map_values(|e: ActionEntry| entry_json(e))),
            ),
            ("routed_to"@, json::text_array(text::texts(m.routed_to@))),
        ],
    )
}

pub open spec fn messages_json(v: Seq<Message>) -> JsonText {
    JsonText::Array(v.map_values(|m: Message| message_json(m)))
}

fn entry_value(e: &ActionEntry) -> (r: Json)
    ensures
        r@ == entry_json(*e),
{
    let mut m: Vec<(String, Json)> = Vec::new();
    json::put(&mut m, "ts", json::text_value(e.ts.as_str()));
    json::put(&mut m, "action", json::text_value(e.action.as_str()));
    json::put(&mut m, "related_assets", json::texts_value(&e.related_assets));
    proof {
        assert(json::member_texts(m@) =~= entry_json(*e)->Object_0);
    }
    json::object(m)
}

fn entries_value(v: &Vec<ActionEntry>) -> (r: Json)
    ensures
        r@ == JsonText::Array(v@.map_values(|e: ActionEntry| entry_json(e))),
{
    let mut out: Vec<Json> = Vec::new();
    let mut i: usize = 0;
    while i < v.len()
        invariant
            i <= v@.len(),
            out@.len() == i,
            forall|k: int| 0 <= k < i ==> (#[trigger] out@[k])@ == entry_json(v@[k]),
        decreases v.len() - i,
    {
        out.push(entry_value(&v[i]));
        i += 1;
    }
    let r = json::array(out);
    proof {
        assert(r@->Array_0 =~= v@.map_values(|e: ActionEntry| entry_json(e)));
    }
    r
}

/// A message as it is sent and stored.
pub fn message_value(msg: &Message) -> (r: Json)
    ensures
        r@ == message_json(*msg),
{
    let mut m: Vec<(String, Json)> = Vec::new();
    json::put(&mut m, "id", json::text_value(msg.id.as_str()));
    json::put(&mut m, "msg_type", json::text_value(msg.msg_type.name()));
    json::put(&mut m, "from", json::text_value(msg.from.as_str()));
    json::put(&mut m, "to", json::texts_value(&msg.to));
    json::put(&mut m, "content", json::text_value(msg.content.as_str()));
    json::put(&mut m, "anchor", json::opt_value(&msg.anchor));
    json::put(&mut m, "status", json::text_value(msg.status.as_str()));
    json::put(&mut m, "created_at", json::text_value(msg.created_at.as_str()));
    json::put(&mut m, "action_log", entries_value(&msg.action_log));
    json::put(&mut m, "routed_to", json::texts_value(&msg.routed_to));
    proof {
        assert(json::member_texts(m@) =~= message_json(*msg)->Object_0);
    }
    json::object(m)
}

fn messages_value(v: &Vec<Message>) -> (r: Json)
    ensures
        r@ == messages_json(v@),
{
    let mut out: Vec<Json> = Vec::new();
    let mut i: usize = 0;
    while i < v.len()
        invariant
            i <= v@.len(),
            out@.len() == i,
            forall|k: int| 0 <= k < i ==> (#[trigger] out@[k])@ == message_json(v@[k]),
        decreases v.len() - i,
    {
        out.push(message_value(&v[i]));
        i += 1;
    }
    let r = json::array(out);
    proof {
        assert(r@->Array_0 =~= messages_json(v@)->Array_0);
    }
    r
}

// ── Which messages a list holds ──────────────────────────────────────────────
/// A status that still asks for something.
pub open spec fn pending(status: Seq<char>) -> bool {
    status == "new"@ || status == "seen"@
}

pub fn is_pending(status: &str) -> (b: bool)
    ensures
        b == pending(status@),
{
    str_eq(status, "new") || str_eq(status, "seen")
}

/// Whether `want`, where it is given, is what is `there`.
pub open spec fn agrees(want: Option<Seq<char>>, there: Option<Seq<char>>) -> bool {
    want is Some ==> want == there
}

/// Messages of a type, at an anchor, with a status, as far as they are given.
pub open spec fn picks(
    msg_type: Option<Seq<char>>,
    anchor: Option<Seq<char>>,
    status: Option<Seq<char>>,
) -> spec_fn(Message) -> bool {
    |m: Message|
        agrees(msg_type, Some(m.msg_type.text())) && agrees(anchor, json::opt_text(m.anchor))
            && agrees(status, Some(m.status@))
}

pub open spec fn pending_messages() -> spec_fn(Message) -> bool {
    |m: Message| pending(m.status@)
}

pub(crate) fn agrees_str(want: Option<&str>, there: &str) -> (b: bool)
    ensures
        b == agrees(crate::memory::provider::opt_str(want), Some(there@)),
{
    match want {
        Some(w) => str_eq(w, there),
        None => true,
    }
}

fn agrees_opt(want: Option<&str>, there: &Option<String>) -> (b: bool)
    ensures
        b == agrees(crate::memory::provider::opt_str(want), json::opt_text(*there)),
{
    match want {
        Some(w) => text::opt_eq(there, w),
        None => true,
    }
}

fn pick(
    v: Vec<Message>,
    msg_type: Option<&str>,
    anchor: Option<&str>,
    status: Option<&str>,
) -> (r: Vec<Message>)
    ensures
        r@ == v@.filter(
            picks(
                crate::memory::provider::opt_str(msg_type),
                crate::memory::provider::opt_str(anchor),
                crate::memory::provider::opt_str(status),
            ),
        ),
{
    let ghost accepts = picks(
        crate::memory::provider::opt_str(msg_type),
        crate::memory::provider::opt_str(anchor),
        crate::memory::provider::opt_str(status),
    );
    let keep = |m: &Message| -> (b: bool)
        ensures
            b == accepts(*m),
        {
            agrees_str(msg_type, m.msg_type.name()) && agrees_opt(anchor, &m.anchor) && agrees_str(
                status,
                m.status.as_str(),
            )
        };
    lists::keep_if(v, keep, Ghost(accepts))
}

// ── Requests ─────────────────────────────────────────────────────────────────
/// The body of a request to create a message.
#[derive(Debug, Clone)]
pub struct CreateBody {
    pub msg_type: Option<String>,
    pub from: String,
    pub to: Vec<String>,
    pub content: String,
    pub anchor: Option<String>,
}

/// The body of a request to update a message.
#[derive(Debug, Clone)]
pub struct UpdateBody {
    pub id: String,
    pub status: Option<String>,
    pub action: Option<String>,
    pub routed_to: Option<Vec<String>>,
    pub related_assets: Option<Vec<String>>,
}

/// What has been read for a request. Only what its route needs is looked at:
/// the script for the widget, the stored messages for every other route, and a
/// body, or why it is none, where something is created or updated.
#[derive(Debug)]
pub struct Given {
    pub widget: Option<Vec<u8>>,
    pub store: Result<Vec<Message>, String>,
    pub create: Result<CreateBody, String>,
    pub update: Result<UpdateBody, String>,
}

#[derive(Debug, Clone)]
pub struct MessagingHandler {
    pub data_path: String,
    pub hex_dir: String,
}

pub open spec fn is_reply<T>(s: Step<T>, r: server::ResponseText) -> bool {
    match s {
        Step::Reply(x) => x@ == r,
        Step::Save(_, _) => false,
    }
}

/// The stored messages that `keep` accepts, or why they cannot be read.
pub open spec fn listing(
    store: Result<Vec<Message>, String>,
    keep: spec_fn(Message) -> bool,
) -> server::ResponseText {
    match store {
        Ok(v) => server::json_text(200, messages_json(v@.filter(keep))),
        Err(e) => server::error_text(500, e@),
    }
}

/// Each message as its type and whether it waits.
pub open spec fn type_items(v: Seq<Message>) -> Seq<(Seq<char>, bool)> {
    v.map_values(|m: Message| (m.msg_type.text(), pending(m.status@)))
}

pub open spec fn summary_text(store: Result<Vec<Message>, String>) -> server::ResponseText {
    match store {
        Ok(v) => server::json_text(200, server::counts_object(server::tally(type_items(v@)))),
        Err(e) => server::error_text(500, e@),
    }
}

/// A message as it is first stored.
pub open spec fn is_new(
    m: Message,
    from: Seq<char>,
    to: Seq<Seq<char>>,
    content: Seq<char>,
    msg_type: MessageType,
    anchor: Option<Seq<char>>,
    hex: Seq<char>,
    now: Seq<char>,
) -> bool {
    &&& m.id@ == "M"@ + hex.take(6)
    &&& m.msg_type == msg_type
    &&& m.from@ == from
    &&& text::texts(m.to@) == to
    &&& m.content@ == content
    &&& json::opt_text(m.anchor) == anchor
    &&& m.status@ == "new"@
    &&& m.created_at@ == now
    &&& m.action_log@.len() == 0
    &&& m.routed_to@.len() == 0
}

fn new_message(
    from: &str,
    to: Vec<String>,
    content: &str,
    msg_type: MessageType,
    anchor: Option<String>,
    hex: &str,
    now: &str,
) -> (m: Message)
    requires
        hex@.len() >= 6,
    ensures
        is_new(m, from@, text::texts(to@), content@, msg_type, json::opt_text(anchor), hex@, now@),
{
    let mut id = "M".to_owned();
    let short = text::take_chars(hex, 6);
    id.append(short.as_str());
    proof {
        assert(short@ =~= hex@.take(6));
    }
    Message {
        id,
        msg_type,
        from: from.to_owned(),
        to,
        content: content.to_owned(),
        anchor,
        status: "new".to_owned(),
        created_at: now.to_owned(),
        action_log: Vec::new(),
        routed_to: Vec::new(),
    }
}

/// What is sent out once a message has been stored.
pub open spec fn created_text(m: Message) -> server::SavedText {
    server::SavedText {
        notices: seq![
            server::published(
                "content.messages"@,
                "created"@,
                JsonText::Object(
                    seq![
                        ("id"@, JsonText::Str(m.id@)),
                        ("msg_type"@, JsonText::Str(m.msg_type.text())),
                        ("from"@, JsonText::Str(m.from@)),
                        ("to"@, json::text_array(text::texts(m.to@))),
                        ("content"@, JsonText::Str(m.content@)),
                        ("anchor"@, json::text_or_null(json::opt_text(m.anchor))),
                    ],
                ),
            ),
            server::emitted(
                "hex.message.created"@,
                JsonText::Object(
                    seq![
                        ("id"@, JsonText::Str(m.id@)),
                        ("msg_type"@, JsonText::Str(m.msg_type.text())),
                    ],
                ),
            ),
        ],
        route: if m.msg_type == MessageType::Comment {
            Some(m.id@)
        } else {
            None
        },
        response: server::json_text(201, message_json(m)),
    }
}

fn created(m: &Message) -> (s: Saved)
    ensures
        s@ == created_text(*m),
{
    let mut p: Vec<(String, Json)> = Vec::new();
    json::put(&mut p, "id", json::text_value(m.id.as_str()));
    json::put(&mut p, "msg_type", json::text_value(m.msg_type.name()));
    json::put(&mut p, "from", json::text_value(m.from.as_str()));
    json::put(&mut p, "to", json::texts_value(&m.to));
    json::put(&mut p, "content", json::text_value(m.content.as_str()));
    json::put(&mut p, "anchor", json::opt_value(&m.anchor));
    let mut t: Vec<(String, Json)> = Vec::new();
    json::put(&mut t, "id", json::text_value(m.id.as_str()));
    json::put(&mut t, "msg_type", json::text_value(m.msg_type.name()));
    proof {
        assert(json::member_texts(p@) =~= created_text(*m).notices[0].payload->Object_0);
        assert(json::member_texts(t@) =~= created_text(*m).notices[1].payload->Object_0);
    }
    let notices = server::two(
        server::publish("content.messages", "created", json::object(p)),
        server::emit("hex.message.created", json::object(t)),
    );
    let route = if m.msg_type == MessageType::Comment {
        Some(m.id.as_str().to_owned())
    } else {
        None
    };
    let response = server::json_response(201, message_value(m));
    let s = Saved { notices, route, response };
    proof {
        assert(s@.notices =~= created_text(*m).notices);
    }
    s
}

/// The type that a request to create asks for.
pub open spec fn asked_type(b: CreateBody) -> Seq<char> {
    match b.msg_type {
        Some(t) => t@,
        None => "agent"@,
    }
}

/// What a request to create a message leads to.
pub open spec fn is_created(
    s: Step<Message>,
    body: Result<CreateBody, String>,
    store: Result<Vec<Message>, String>,
    hex: Seq<char>,
    now: Seq<char>,
) -> bool {
    match body {
        Err(e) => is_reply(s, server::error_text(400, "invalid JSON: "@ + e@)),
        Ok(b) => match MessageType::named(asked_type(b)) {
            None => is_reply(s, server::error_text(400, unknown_type(asked_type(b)))),
            Some(t) => match store {
                Err(e) => is_reply(s, server::error_text(500, "read failed: "@ + e@)),
                Ok(v) => match s {
                    Step::Reply(_) => false,
                    Step::Save(w, saved) => {
                        &&& w@.len() == v@.len() + 1
                        &&& w@ == v@.push(w@.last())
                        &&& is_new(
                            w@.last(),
                            b.from@,
                            text::texts(b.to@),
                            b.content@,
                            t,
                            json::opt_text(b.anchor),
                            hex,
                            now,
                        )
                        &&& saved@ == created_text(w@.last())
                    },
                },
            },
        },
    }
}

pub open spec fn is_entry(
    e: ActionEntry,
    ts: Seq<char>,
    action: Seq<char>,
    related: Seq<Seq<char>>,
) -> bool {
    e.ts@ == ts && e.action@ == action && text::texts(e.related_assets@) == related
}

/// A list of texts, the empty one where none is given.
pub open spec fn texts_or_none(v: Option<Vec<String>>) -> Seq<Seq<char>> {
    match v {
        Some(x) => text::texts(x@),
        None => Seq::empty(),
    }
}

/// A message after a request to update it: the status and the routing where
/// they are given, one more entry in the log where an action is, and nothing
/// else.
pub open spec fn is_changed(m: Message, n: Message, b: UpdateBody, now: Seq<char>) -> bool {
    &&& n.id == m.id
    &&& n.msg_type == m.msg_type
    &&& n.from == m.from
    &&& n.to == m.to
    &&& n.content == m.content
    &&& n.anchor == m.anchor
    &&& n.created_at == m.created_at
    &&& match b.status {
        Some(s) => n.status@ == s@,
        None => n.status == m.status,
    }
    &&& match b.action {
        Some(a) => {
            &&& n.action_log@.len() == m.action_log@.len() + 1
            &&& n.action_log@ == m.action_log@.push(n.action_log@.last())
            &&& is_entry(n.action_log@.last(), now, a@, texts_or_none(b.related_assets))
        },
        None => n.action_log == m.action_log,
    }
    &&& match b.routed_to {
        Some(r) => text::texts(n.routed_to@) == text::texts(r@),
        None => n.routed_to == m.routed_to,
    }
}

/// What is sent out once a message has been updated.
pub open spec fn updated_text(m: Message, status: Option<Seq<char>>) -> server::SavedText {
    server::SavedText {
        notices: seq![
            server::published(
                "content.messages"@,
                "status_changed"@,
                JsonText::Object(
                    seq![
                        ("id"@, JsonText::Str(m.id@)),
                        ("status"@, json::text_or_null(status)),
                        ("related_assets"@, json::text_array(last_related(m))),
                    ],
                ),
            ),
            server::emitted("hex.message.updated"@, server::id_object(m.id@)),
        ],
        route: None,
        response: server::json_text(200, message_json(m)),
    }
}

/// The assets of the latest action.
pub open spec fn last_related(m: Message) -> Seq<Seq<char>> {
    if m.action_log@.len() == 0 {
        Seq::empty()
    } else {
        text::texts(m.action_log@.last().related_assets@)
    }
}

fn updated(m: &Message, status: &Option<String>) -> (s: Saved)
    ensures
        s@ == updated_text(*m, json::opt_text(*status)),
{
    let n: usize = m.action_log.len();
    let mut p: Vec<(String, Json)> = Vec::new();
    json::put(&mut p, "id", json::text_value(m.id.as_str()));
    json::put(&mut p, "status", json::opt_value(status));
    let related = if n == 0 {
        let none: Vec<String> = Vec::new();
        proof {
            assert(text::texts(none@) =~= Seq::<Seq<char>>::empty());
        }
        json::texts_value(&none)
    } else {
        json::texts_value(&m.action_log[n - 1].related_assets)
    };
    json::put(&mut p, "related_assets", related);
    proof {
        assert(json::member_texts(p@) =~= updated_text(
            *m,
            json::opt_text(*status),
        ).notices[0].payload->Object_0);
    }
    let notices = server::two(
        server::publish("content.messages", "status_changed", json::object(p)),
        server::emit("hex.message.updated", server::id_value(m.id.as_str())),
    );
    let response = server::json_response(200, message_value(m));
    let s = Saved { notices, route: None, response };
    proof {
        assert(s@.notices =~= updated_text(*m, json::opt_text(*status)).notices);
    }
    s
}

/// Messages with an identifier.
pub open spec fn with_id(id: Seq<char>) -> spec_fn(Message) -> bool {
    |m: Message| m.id@ == id
}

/// What a request to update a message leads to: of messages with one
/// identifier the first changes, the others stay.
pub open spec fn is_update(
    s: Step<Message>,
    body: Result<UpdateBody, String>,
    store: Result<Vec<Message>, String>,
    now: Seq<char>,
) -> bool {
    match body {
        Err(e) => is_reply(s, server::error_text(400, "invalid JSON: "@ + e@)),
        Ok(b) => match store {
            Err(e) => is_reply(s, server::error_text(500, "read failed: "@ + e@)),
            Ok(v) => match lists::first_from(v@, with_id(b.id@), 0) {
                None => is_reply(s, server::error_text(404, "message not found"@)),
                Some(i) => match s {
                    Step::Reply(_) => false,
                    Step::Save(w, saved) => {
                        &&& w@.len() == v@.len()
                        &&& w@ == v@.update(i, w@[i])
                        &&& is_changed(v@[i], w@[i], b, now)
                        &&& saved@ == updated_text(w@[i], json::opt_text(b.status))
                    },
                },
            },
        },
    }
}

fn find_message(v: &Vec<Message>, id: &str) -> (r: Option<usize>)
    ensures
        match r {
            Some(i) => i < v@.len() && lists::first_from(v@, with_id(id@), 0) == Some(i as int)
                && v@[i as int].id@ == id@,
            None => lists::first_from(v@, with_id(id@), 0) is None,
        },
{
    let ghost accepts = with_id(id@);
    let keep = |m: &Message| -> (b: bool)
        ensures
            b == accepts(*m),
        { str_eq(m.id.as_str(), id) };
    lists::position(v, keep, Ghost(accepts))
}

fn change(m: Message, b: UpdateBody, now: &str) -> (n: Message)
    ensures
        is_changed(m, n, b, now@),
{
    let mut n = m;
    if let Some(s) = b.status {
        n.status = s;
    }
    if let Some(a) = b.action {
        let related_assets = match b.related_assets {
            Some(r) => r,
            None => Vec::new(),
        };
        proof {
            assert(text::texts(related_assets@) =~= texts_or_none(b.related_assets));
        }
        let ghost before = n.action_log@;
        n.action_log.push(ActionEntry { ts: now.to_owned(), action: a, related_assets });
        proof {
            assert(n.action_log@ =~= before.push(n.action_log@.last()));
        }
    }
    if let Some(r) = b.routed_to {
        n.routed_to = r;
    }
    n
}

impl MessagingHandler {
    pub fn new(hex_dir: &str) -> (h: MessagingHandler)
        ensures
            h.hex_dir@ == hex_dir@,
            h.data_path@ == paths::joined(hex_dir@, ".hex/data/messages.json"@),
    {
        MessagingHandler {
            data_path: paths::join(hex_dir, ".hex/data/messages.json"),
            hex_dir: hex_dir.to_owned(),
        }
    }

    /// The script behind `/widget.js`.
    pub fn widget_path(&self) -> (r: String)
        ensures
            r@ == paths::joined(self.hex_dir@, ".hex/scripts/comments-service/widget.js"@),
    {
        paths::join(self.hex_dir.as_str(), ".hex/scripts/comments-service/widget.js")
    }

    /// The script that routes a new comment.
    pub fn route_script(&self) -> (r: String)
        ensures
            r@ == paths::joined(self.hex_dir@, ".hex/scripts/route-comment.py"@),
    {
        paths::join(self.hex_dir.as_str(), ".hex/scripts/route-comment.py")
    }

    fn list_all(store: Result<Vec<Message>, String>) -> (r: Response)
        ensures
            r@ == (match store {
                Ok(v) => server::json_text(200, messages_json(v@)),
                Err(e) => server::error_text(500, e@),
            }),
    {
        match store {
            Ok(v) => server::json_response(200, messages_value(&v)),
            Err(e) => server::json_error(500, e.as_str()),
        }
    }

    fn list_pending(store: Result<Vec<Message>, String>) -> (r: Response)
        ensures
            r@ == listing(store, pending_messages()),
    {
        match store {
            Ok(v) => {
                let ghost accepts = pending_messages();
                let keep = |m: &Message| -> (b: bool)
                    ensures
                        b == accepts(*m),
                    { is_pending(m.status.as_str()) };
                let kept = lists::keep_if(v, keep, Ghost(accepts));
                server::json_response(200, messages_value(&kept))
            },
            Err(e) => server::json_error(500, e.as_str()),
        }
    }

    fn list_filtered(
        store: Result<Vec<Message>, String>,
        msg_type: Option<&str>,
        anchor: Option<&str>,
        status: Option<&str>,
    ) -> (r: Response)
        ensures
            r@ == listing(
                store,
                picks(
                    crate::memory::provider::opt_str(msg_type),
                    crate::memory::provider::opt_str(anchor),
                    crate::memory::provider::opt_str(status),
                ),
            ),
    {
        match store {
            Ok(v) => {
                let kept = pick(v, msg_type, anchor, status);
                server::json_response(200, messages_value(&kept))
            },
            Err(e) => server::json_error(500, e.as_str()),
        }
    }

    fn summary(store: Result<Vec<Message>, String>) -> (r: Response)
        requires
            store is Ok ==> store->Ok_0@.len() <= i64::MAX,
        ensures
            r@ == summary_text(store),
    {
        let v = match store {
            Ok(v) => v,
            Err(e) => {
                return server::json_error(500, e.as_str());
            },
        };
        let ghost items = type_items(v@);
        let mut counts: Vec<Count> = Vec::new();
        let mut i: usize = 0;
        proof {
            assert(items.take(0) =~= Seq::<(Seq<char>, bool)>::empty());
            assert(server::count_texts(counts@) =~= Seq::<server::CountText>::empty());
        }
        while i < v.len()
            invariant
                i <= v@.len() <= i64::MAX,
                items == type_items(v@),
                server::counts_within(counts@, i as int),
                server::count_texts(counts@) == server::tally(items.take(i as int)),
            decreases v.len() - i,
        {
            let waits = is_pending(v[i].status.as_str());
            proof {
                assert(items.take(i + 1).drop_last() =~= items.take(i as int));
                assert(items.take(i + 1).last() == items[i as int]);
            }
            server::count_in(&mut counts, v[i].msg_type.name(), waits, Ghost(i as int));
            i += 1;
        }
        proof {
            assert(items.take(items.len() as int) =~= items);
        }
        server::json_response(200, server::counts_value(&counts))
    }

    fn create(
        body: Result<CreateBody, String>,
        store: Result<Vec<Message>, String>,
        hex: &str,
        now: &str,
    ) -> (s: Step<Message>)
        requires
            hex@.len() >= 6,
        ensures
            is_created(s, body, store, hex@, now@),
    {
        let b = match body {
            Ok(b) => b,
            Err(e) => {
                let mut msg = "invalid JSON: ".to_owned();
                msg.append(e.as_str());
                return Step::Reply(server::json_error(400, msg.as_str()));
            },
        };
        let asked = match b.msg_type {
            Some(t) => t,
            None => "agent".to_owned(),
        };
        let t = match MessageType::parse(asked.as_str()) {
            Ok(t) => t,
            Err(e) => {
                return Step::Reply(server::json_error(400, e.as_str()));
            },
        };
        let mut v = match store {
            Ok(v) => v,
            Err(e) => {
                let mut msg = "read failed: ".to_owned();
                msg.append(e.as_str());
                return Step::Reply(server::json_error(500, msg.as_str()));
            },
        };
        let m = new_message(b.from.as_str(), b.to, b.content.as_str(), t, b.anchor, hex, now);
        let saved = created(&m);
        v.push(m);
        Step::Save(v, saved)
    }

    fn update(
        body: Result<UpdateBody, String>,
        store: Result<Vec<Message>, String>,
        now: &str,
    ) -> (s: Step<Message>)
        ensures
            is_update(s, body, store, now@),
    {
        let b = match body {
            Ok(b) => b,
            Err(e) => {
                let mut msg = "invalid JSON: ".to_owned();
                msg.append(e.as_str());
                return Step::Reply(server::json_error(400, msg.as_str()));
            },
        };
        let mut v = match store {
            Ok(v) => v,
            Err(e) => {
                let mut msg = "read failed: ".to_owned();
                msg.append(e.as_str());
                return Step::Reply(server::json_error(500, msg.as_str()));
            },
        };
        let i = match find_message(&v, b.id.as_str()) {
            Some(i) => i,
            None => {
                return Step::Reply(server::json_error(404, "message not found"));
            },
        };
        let ghost before = v@;
        let status = text::copy_opt(match &b.status {
            Some(s) => Some(s.as_str()),
            None => None,
        });
        let m = v.remove(i);
        let n = change(m, b, now);
        let saved = updated(&n, &status);
        v.insert(i, n);
        proof {
            assert(v@ =~= before.update(i as int, n));
        }
        Step::Save(v, saved)
    }

    /// What a request is answered, from what was read for it, an identifier
    /// and the time.
    pub open spec fn answers(
        self,
        s: Step<Message>,
        req: Request,
        g: Given,
        hex: Seq<char>,
        now: Seq<char>,
    ) -> bool {
        let base = "/messages"@;
        if req.asks("GET"@, base, "/widget.js"@) {
            is_reply(s, server::widget_text(g.widget))
        } else if req.asks("GET"@, base, "/api/messages/all"@) {
            is_reply(
                s,
                match g.store {
                    Ok(v) => server::json_text(200, messages_json(v@)),
                    Err(e) => server::error_text(500, e@),
                },
            )
        } else if req.asks("GET"@, base, "/api/messages/pending"@) {
            is_reply(s, listing(g.store, pending_messages()))
        } else if req.asks("GET"@, base, "/api/messages/summary"@) {
            is_reply(s, summary_text(g.store))
        } else if req.asks("GET"@, base, "/api/messages"@) {
            is_reply(
                s,
                listing(
                    g.store,
                    picks(req.param("type"@), req.param("anchor"@), req.param("status"@)),
                ),
            )
        } else if req.asks("POST"@, base, "/api/messages"@) {
            is_created(s, g.create, g.store, hex, now)
        } else if req.asks("POST"@, base, "/api/messages/update"@) {
            is_update(s, g.update, g.store, now)
        } else {
            is_reply(s, server::error_text(404, "messages endpoint not found"@))
        }
    }

    /// Answers a request with a given identifier at a given time.
    pub fn handle_at(&self, req: &Request, given: Given, hex: &str, now: &str) -> (s: Step<Message>)
        requires
            hex@.len() >= 6,
            given.store is Ok ==> given.store->Ok_0@.len() <= i64::MAX,
        ensures
            self.answers(s, *req, given, hex@, now@),
    {
        let base = "/messages";
        if req.is_for("GET", base, "/widget.js") {
            Step::Reply(server::widget_response(given.widget))
        } else if req.is_for("GET", base, "/api/messages/all") {
            Step::Reply(Self::list_all(given.store))
        } else if req.is_for("GET", base, "/api/messages/pending") {
            Step::Reply(Self::list_pending(given.store))
        } else if req.is_for("GET", base, "/api/messages/summary") {
            Step::Reply(Self::summary(given.store))
        } else if req.is_for("GET", base, "/api/messages") {
            Step::Reply(
                Self::list_filtered(
                    given.store,
                    req.get("type"),
                    req.get("anchor"),
                    req.get("status"),
                ),
            )
        } else if req.is_for("POST", base, "/api/messages") {
            Self::create(given.create, given.store, hex, now)
        } else if req.is_for("POST", base, "/api/messages/update") {
            Self::update(given.update, given.store, now)
        } else {
            Step::Reply(server::json_error(404, "messages endpoint not found"))
        }
    }

    /// Answers a request. A new message gets a fresh identifier and, as an
    /// entry in a log does, the present time.
    pub fn handle(&self, req: &Request, given: Given) -> (s: Step<Message>)
        requires
            given.store is Ok ==> given.store->Ok_0@.len() <= i64::MAX,
        ensures
            exists|hex: Seq<char>, now: Seq<char>|
                stamp::hex_digits(hex) && #[trigger] self.answers(s, *req, given, hex, now),
    {
        let hex = stamp::fresh_hex();
        let now = stamp::now_text();
        self.handle_at(req, given, hex.as_str(), now.as_str())
    }
}

// ── Older stores ─────────────────────────────────────────────────────────────
/// A message of an agent's inbox file.
#[derive(Debug, Clone)]
pub struct InboxMessage {
    pub id: String,
    pub from: String,
    pub subject: String,
    pub body: String,
    /// In RFC 3339.
    pub sent_at: String,
}

/// The inbox of an agent.
#[derive(Debug, Clone)]
pub struct Inbox {
    pub agent: String,
    pub messages: Vec<InboxMessage>,
}

/// The agent whose inbox a file of this name is: the name without `.jsonl`,
/// where there is something in front of it.
pub open spec fn inbox_owner(file_name: Seq<char>) -> Option<Seq<char>> {
    if text::ends_with(file_name, ".jsonl"@) && file_name.len() > ".jsonl"@.len() {
        Some(file_name.take(file_name.len() - ".jsonl"@.len()))
    } else {
        None
    }
}

pub fn inbox_agent(file_name: &str) -> (r: Option<String>)
    ensures
        json::is_text(r, inbox_owner(file_name@)),
{
    proof {
        reveal_strlit(".jsonl");
    }
    if !text::ends_with_str(file_name, ".jsonl") {
        return None;
    }
    let v = text::to_chars(file_name);
    if v.len() <= 6 {
        return None;
    }
    let r = text::substring(v.as_slice(), 0, v.len() - 6);
    proof {
        assert(r@ =~= file_name@.take(file_name@.len() - 6));
    }
    Some(r)
}

/// The text of a line of an inbox: without the space around it, where
/// something is left.
pub fn inbox_line(line: &str) -> (r: Option<String>)
    ensures
        json::is_text(
            r,
            if text::trim(line@).len() == 0 {
                None
            } else {
                Some(text::trim(line@))
            },
        ),
{
    let t = text::trim_str(line);
    if t.as_str().is_empty() {
        None
    } else {
        Some(t)
    }
}

/// The front of `s` that takes `n` bytes from position `i` on, the whole of a
/// shorter text, and nothing where a character stands across the end.
pub open spec fn byte_front(s: Seq<char>, n: int, i: int) -> Option<Seq<char>>
    decreases s.len() - i,
{
    if n == 0 {
        Some(s.take(i))
    } else if n < 0 {
        None
    } else if i < 0 || i >= s.len() {
        Some(s)
    } else {
        byte_front(s, n - crate::memory::index::utf8_len(s[i]), i + 1)
    }
}

/// At most the first six bytes of an identifier, where no character stands
/// across the sixth.
pub fn short_id(id: &str) -> (r: Option<String>)
    ensures
        json::is_text(r, byte_front(id@, 6, 0)),
{
    let v = text::to_chars(id);
    let mut left: i64 = 6;
    let mut i: usize = 0;
    while i < v.len() && left > 0
        invariant
            i <= v@.len(),
            v@ == id@,
            -4 <= left <= 6,
            byte_front(id@, 6, 0) == byte_front(id@, left as int, i as int),
        decreases v.len() - i,
    {
        left = left - crate::memory::index::utf8_width(v[i]) as i64;
        i += 1;
    }
    if left < 0 {
        None
    } else {
        proof {
            assert(id@.subrange(0, i as int) =~= id@.take(i as int));
            assert(i == id@.len() ==> id@.take(i as int) =~= id@);
        }
        Some(text::substring(v.as_slice(), 0, i))
    }
}

/// A comment as a message.
pub open spec fn is_comment_message(m: Message, c: Comment) -> bool {
    &&& m.id@ == c.id@
    &&& m.msg_type == MessageType::Comment
    &&& m.from@ == c.author@
    &&& text::texts(m.to@) == text::texts(c.routed_to@)
    &&& m.content@ == c.text@
    &&& json::opt_text(m.anchor) == if c.asset@.len() == 0 {
        None
    } else {
        Some(c.asset@)
    }
    &&& m.status@ == c.status@
    &&& m.created_at@ == c.created_at@
    &&& m.action_log@.len() == c.action_log@.len()
    &&& forall|i: int|
        0 <= i < m.action_log@.len() ==> is_entry(
            #[trigger] m.action_log@[i],
            c.action_log@[i].ts@,
            c.action_log@[i].action@,
            Seq::empty(),
        )
    &&& text::texts(m.routed_to@) == text::texts(c.routed_to@)
}

/// A message of an inbox as a message to its owner.
pub open spec fn is_inbox_message(m: Message, agent: Seq<char>, o: InboxMessage) -> bool {
    &&& m.id@ == "M"@ + byte_front(o.id@, 6, 0)->0
    &&& m.msg_type == MessageType::Agent
    &&& m.from@ == o.from@
    &&& text::texts(m.to@) == seq![agent]
    &&& m.content@ == o.subject@ + ": "@ + o.body@
    &&& m.anchor is None
    &&& m.status@ == "new"@
    &&& m.created_at@ == o.sent_at@
    &&& m.action_log@.len() == 0
    &&& m.routed_to@.len() == 0
}

/// Every message of the inboxes with its owner, in order, those of the first
/// `n` inboxes.
pub open spec fn delivered(inboxes: Seq<Inbox>, n: int) -> Seq<(Seq<char>, InboxMessage)>
    decreases n,
{
    if n <= 0 {
        Seq::empty()
    } else {
        delivered(inboxes, n - 1) + inboxes[n - 1].messages@.map_values(
            |o: InboxMessage| (inboxes[n - 1].agent@, o),
        )
    }
}

fn comment_message(c: Comment) -> (m: Message)
    ensures
        is_comment_message(m, c),
{
    let mut action_log: Vec<ActionEntry> = Vec::new();
    let mut i: usize = 0;
    while i < c.action_log.len()
        invariant
            i <= c.action_log@.len(),
            action_log@.len() == i,
            forall|k: int|
                0 <= k < i ==> is_entry(
                    #[trigger] action_log@[k],
                    c.action_log@[k].ts@,
                    c.action_log@[k].action@,
                    Seq::empty(),
                ),
        decreases c.action_log.len() - i,
    {
        let e = ActionEntry {
            ts: c.action_log[i].ts.as_str().to_owned(),
            action: c.action_log[i].action.as_str().to_owned(),
            related_assets: Vec::new(),
        };
        proof {
            assert(text::texts(e.related_assets@) =~= Seq::<Seq<char>>::empty());
        }
        action_log.push(e);
        i += 1;
    }
    let anchor = if c.asset.as_str().is_empty() {
        None
    } else {
        Some(c.asset)
    };
    Message {
        id: c.id,
        msg_type: MessageType::Comment,
        from: c.author,
        to: text::copy_strings(&c.routed_to),
        content: c.text,
        anchor,
        status: c.status,
        created_at: c.created_at,
        action_log,
        routed_to: c.routed_to,
    }
}

fn inbox_message(agent: &str, o: InboxMessage, short: String) -> (m: Message)
    requires
        byte_front(o.id@, 6, 0) == Some(short@),
    ensures
        is_inbox_message(m, agent@, o),
{
    let mut id = "M".to_owned();
    id.append(short.as_str());
    let mut content = o.subject;
    content.append(": ");
    content.append(o.body.as_str());
    let mut to: Vec<String> = Vec::new();
    to.push(agent.to_owned());
    proof {
        assert(text::texts(to@) =~= seq![agent@]);
    }
    Message {
        id,
        msg_type: MessageType::Agent,
        from: o.from,
        to,
        content,
        anchor: None,
        status: "new".to_owned(),
        created_at: o.sent_at,
        action_log: Vec::new(),
        routed_to: Vec::new(),
    }
}

/// The messages of the first store of messages, and what is said about them.
#[derive(Debug, Clone)]
pub struct Migration {
    pub messages: Vec<Message>,
    pub notes: Vec<String>,
}

pub open spec fn migrated_note(count: nat, what: Seq<char>) -> Seq<char> {
    "messaging: migrated "@ + text::numeral(count) + what
}

pub open spec fn migration_notes(comments: Option<nat>, inbox: nat) -> Seq<Seq<char>> {
    (match comments {
        Some(n) => seq![migrated_note(n, " comments from comments.json"@)],
        None => Seq::empty(),
    }) + if inbox > 0 {
        seq![migrated_note(inbox, " agent inbox messages"@)]
    } else {
        Seq::empty()
    }
}

fn migration_note(count: usize, what: &str) -> (r: String)
    ensures
        r@ == migrated_note(count as nat, what@),
{
    let mut r = "messaging: migrated ".to_owned();
    let n = text::decimal(count as u64);
    r.append(n.as_str());
    r.append(what);
    r
}

/// How many comments there are to take over.
pub open spec fn comment_count(comments: Option<Vec<Comment>>) -> nat {
    match comments {
        Some(v) => v@.len(),
        None => 0,
    }
}

/// Whether a store was made of the comments and the inboxes: first the
/// comments, then the messages of each inbox, one for one.
pub open spec fn is_migration(
    r: Migration,
    comments: Option<Vec<Comment>>,
    inboxes: Seq<Inbox>,
) -> bool {
    let c = comment_count(comments);
    let d = delivered(inboxes, inboxes.len() as int);
    &&& r.messages@.len() == c + d.len()
    &&& forall|i: int|
        0 <= i < c ==> is_comment_message(#[trigger] r.messages@[i], comments->0@[i])
    &&& forall|i: int|
        c <= i < r.messages@.len() ==> is_inbox_message(
            #[trigger] r.messages@[i],
            d[i - c].0,
            d[i - c].1,
        )
    &&& text::texts(r.notes@) == migration_notes(
        if comments is Some {
            Some(c)
        } else {
            None
        },
        d.len(),
    )
}

/// The first store of messages, from the comments, where they could be read,
/// and from the inboxes of the agents; nothing where there is a store already.
pub fn migrate_if_needed(
    store_exists: bool,
    comments: Option<Vec<Comment>>,
    inboxes: Vec<Inbox>,
) -> (r: Option<Migration>)
    requires
        forall|i: int, j: int|
            #![trigger inboxes@[i].messages@[j]]
            0 <= i < inboxes@.len() && 0 <= j < inboxes@[i].messages@.len() ==> byte_front(
                inboxes@[i].messages@[j].id@,
                6,
                0,
            ) is Some,
        delivered(inboxes@, inboxes@.len() as int).len() + comment_count(comments) <= usize::MAX,
    ensures
        match r {
            None => store_exists,
            Some(m) => !store_exists && is_migration(m, comments, inboxes@),
        },
{
    if store_exists {
        return None;
    }
    let ghost given = comments;
    let ghost c = comment_count(comments);
    let ghost all = inboxes@;
    let mut messages: Vec<Message> = Vec::new();
    let mut notes: Vec<String> = Vec::new();
    proof {
        assert(text::texts(notes@) =~= Seq::<Seq<char>>::empty());
    }
    if let Some(v) = comments {
        let count: usize = v.len();
        for x in it: v
            invariant
                it.seq() == v@,
                messages@.len() == it.index(),
                forall|i: int|
                    0 <= i < messages@.len() ==> is_comment_message(
                        #[trigger] messages@[i],
                        v@[i],
                    ),
        {
            messages.push(comment_message(x));
        }
        let note = migration_note(count, " comments from comments.json");
        proof {
            text::lemma_texts_push(notes@, note);
        }
        notes.push(note);
        proof {
            assert(text::texts(notes@) =~= seq![note@]);
        }
    }
    let mut inbox_count: usize = 0;
    for b in it: inboxes
        invariant
            it.seq() == all,
            c == comment_count(given),
            forall|i: int, j: int|
                #![trigger all[i].messages@[j]]
                0 <= i < all.len() && 0 <= j < all[i].messages@.len() ==> byte_front(
                    all[i].messages@[j].id@,
                    6,
                    0,
                ) is Some,
            delivered(all, all.len() as int).len() + c <= usize::MAX,
            inbox_count == delivered(all, it.index() as int).len(),
            messages@.len() == c + inbox_count,
            forall|i: int|
                0 <= i < c ==> is_comment_message(#[trigger] messages@[i], given->0@[i]),
            forall|i: int|
                c <= i < messages@.len() ==> is_inbox_message(
                    #[trigger] messages@[i],
                    delivered(all, it.index() as int)[i - c].0,
                    delivered(all, it.index() as int)[i - c].1,
                ),
    {
        let ghost n = it.index() as int;
        let ghost front = delivered(all, n);
        let ghost these = b.messages@;
        let ghost next = delivered(all, n + 1);
        proof {
            assert(all[n] == b);
            assert(next.len() == front.len() + these.len());
            lemma_delivered_grows(all, n + 1, all.len() as int);
        }
        let agent = b.agent;
        for o in inner: b.messages
            invariant
                inner.seq() == these,
                all[n].messages@ == these,
                all[n].agent@ == agent@,
                0 <= n < all.len(),
                next == delivered(all, n + 1),
                front == delivered(all, n),
                next.len() == front.len() + these.len(),
                next.len() + c <= usize::MAX,
                c == comment_count(given),
                forall|i: int, j: int|
                    #![trigger all[i].messages@[j]]
                    0 <= i < all.len() && 0 <= j < all[i].messages@.len() ==> byte_front(
                        all[i].messages@[j].id@,
                        6,
                        0,
                    ) is Some,
                inbox_count == front.len() + inner.index(),
                messages@.len() == c + inbox_count,
                forall|i: int|
                    0 <= i < c ==> is_comment_message(#[trigger] messages@[i], given->0@[i]),
                forall|i: int|
                    c <= i < messages@.len() ==> is_inbox_message(
                        #[trigger] messages@[i],
                        next[i - c].0,
                        next[i - c].1,
                    ),
        {
            proof {
                assert(all[n].messages@[inner.index() as int] == o);
                assert(next[front.len() + inner.index()] == (agent@, o));
            }
            match short_id(o.id.as_str()) {
                Some(short) => {
                    messages.push(inbox_message(agent.as_str(), o, short));
                },
                None => {
                    proof {
                        assert(false);
                    }
                },
            }
            inbox_count = inbox_count + 1;
        }
    }
    if inbox_count > 0 {
        let note = migration_note(inbox_count, " agent inbox messages");
        proof {
            text::lemma_texts_push(notes@, note);
        }
        notes.push(note);
    }
    proof {
        assert(text::texts(notes@) =~= migration_notes(
            if given is Some {
                Some(c)
            } else {
                None
            },
            inbox_count as nat,
        ));
    }
    Some(Migration { messages, notes })
}

proof fn lemma_delivered_grows(inboxes: Seq<Inbox>, m: int, n: int)
    requires
        m <= n,
    ensures
        delivered(inboxes, m).len() <= delivered(inboxes, n).len(),
    decreases n - m,
{
    if m < n && n > 0 {
        lemma_delivered_grows(inboxes, m, n - 1);
    }
}

/// What is said once the first store has been written, or could not be.
pub fn migration_result(count: usize, written: Result<(), String>) -> (r: String)
    ensures
        r@ == match written {
            Ok(_) => "messaging: initialized messages.json ("@ + text::numeral(count as nat)
                + " messages)"@,
            Err(e) => "messaging: migration write failed: "@ + e@,
        },
{
    match written {
        Ok(_) => {
            let mut r = "messaging: initialized messages.json (".to_owned();
            let n = text::decimal(count as u64);
            r.append(n.as_str());
            r.append(" messages)");
            r
        },
        Err(e) => {
            let mut r = "messaging: migration write failed: ".to_owned();
            r.append(e.as_str());
            r
        },
    }
}

// ── Commands ─────────────────────────────────────────────────────────────────
/// What a command that changes the store does once it has been written.
#[derive(Debug)]
pub struct Sent {
    pub notices: Vec<Notice>,
    /// What is printed.
    pub line: String,
}

impl Sent {
    /// What is left to do after the write, or the error line.
    pub fn finish(self, written: Result<(), String>) -> (r: Result<Sent, String>)
        ensures
            match written {
                Ok(_) => r == Ok::<Sent, String>(self),
                Err(e) => r is Err && r->Err_0@ == "write failed: "@ + e@,
            },
    {
        match written {
            Ok(_) => Ok(self),
            Err(e) => {
                let mut r = "write failed: ".to_owned();
                r.append(e.as_str());
                Err(r)
            },
        }
    }
}

pub open spec fn sent_line(m: Message) -> Seq<char> {
    "Sent message "@ + m.id@ + " ("@ + m.msg_type.text() + ") from "@ + m.from@ + " to "@
        + text::join(text::texts(m.to@), ","@)
}

pub open spec fn sent_notices(m: Message) -> Seq<server::NoticeText> {
    seq![
        server::published(
            "content.messages"@,
            "created"@,
            JsonText::Object(
                seq![
                    ("id"@, JsonText::Str(m.id@)),
                    ("msg_type"@, JsonText::Str(m.msg_type.text())),
                    ("from"@, JsonText::Str(m.from@)),
                    ("to"@, json::text_array(text::texts(m.to@))),
                    ("content"@, JsonText::Str(m.content@)),
                ],
            ),
        ),
        server::emitted("hex.message.created"@, server::id_object(m.id@)),
    ]
}

fn sent(m: &Message) -> (s: Sent)
    ensures
        server::notice_texts(s.notices@) == sent_notices(*m),
        s.line@ == sent_line(*m),
{
    let mut p: Vec<(String, Json)> = Vec::new();
    json::put(&mut p, "id", json::text_value(m.id.as_str()));
    json::put(&mut p, "msg_type", json::text_value(m.msg_type.name()));
    json::put(&mut p, "from", json::text_value(m.from.as_str()));
    json::put(&mut p, "to", json::texts_value(&m.to));
    json::put(&mut p, "content", json::text_value(m.content.as_str()));
    proof {
        assert(json::member_texts(p@) =~= sent_notices(*m)[0].payload->Object_0);
    }
    let notices = server::two(
        server::publish("content.messages", "created", json::object(p)),
        server::emit("hex.message.created", server::id_value(m.id.as_str())),
    );
    let mut line = "Sent message ".to_owned();
    line.append(m.id.as_str());
    line.append(" (");
    line.append(m.msg_type.name());
    line.append(") from ");
    line.append(m.from.as_str());
    line.append(" to ");
    let to = text::join_strings(&m.to, ",");
    line.append(to.as_str());
    proof {
        assert(server::notice_texts(notices@) =~= sent_notices(*m));
    }
    Sent { notices, line }
}

/// What sending a message from the command line leads to.
pub open spec fn is_sent(
    r: Result<(Vec<Message>, Sent), String>,
    from: Seq<char>,
    to: Seq<Seq<char>>,
    content: Seq<char>,
    msg_type: Seq<char>,
    anchor: Option<Seq<char>>,
    store: Result<Vec<Message>, String>,
    hex: Seq<char>,
    now: Seq<char>,
) -> bool {
    match MessageType::named(msg_type) {
        None => r is Err && r->Err_0@ == "Invalid msg_type: "@ + unknown_type(msg_type),
        Some(t) => match store {
            Err(e) => r is Err && r->Err_0@ == "read failed: "@ + e@,
            Ok(v) => match r {
                Err(_) => false,
                Ok(p) => {
                    &&& p.0@.len() == v@.len() + 1
                    &&& p.0@ == v@.push(p.0@.last())
                    &&& is_new(p.0@.last(), from, to, content, t, anchor, hex, now)
                    &&& server::notice_texts(p.1.notices@) == sent_notices(p.0@.last())
                    &&& p.1.line@ == sent_line(p.0@.last())
                },
            },
        },
    }
}

/// The lines about one message in a list.
pub open spec fn message_lines(m: Message) -> Seq<Seq<char>> {
    seq![
        m.id@ + " ["@ + m.msg_type.text() + "] from="@ + m.from@ + " to="@ + text::join(
            text::texts(m.to@),
            ","@,
        ) + " status="@ + m.status@ + " anchor="@ + (match m.anchor {
            Some(a) => a@,
            None => "-"@,
        }) + " created="@ + m.created_at@,
        "  "@ + m.content@,
    ]
}

pub open spec fn all_lines(v: Seq<Message>) -> Seq<Seq<char>>
    decreases v.len(),
{
    if v.len() == 0 {
        Seq::empty()
    } else {
        all_lines(v.drop_last()) + message_lines(v.last())
    }
}

/// The lines that a list of messages is printed as.
pub open spec fn list_lines(v: Seq<Message>) -> Seq<Seq<char>> {
    if v.len() == 0 {
        seq!["No messages found"@]
    } else {
        all_lines(v) + seq![Seq::empty(), text::numeral(v.len()) + " messages"@]
    }
}

fn push_line(out: &mut Vec<String>, line: String)
    ensures
        text::texts(final(out)@) == text::texts(old(out)@).push(line@),
{
    proof {
        text::lemma_texts_push(out@, line);
    }
    out.push(line);
}

fn push_message_lines(out: &mut Vec<String>, m: &Message)
    ensures
        text::texts(final(out)@) == text::texts(old(out)@) + message_lines(*m),
{
    let ghost before = text::texts(out@);
    let mut line = m.id.as_str().to_owned();
    line.append(" [");
    line.append(m.msg_type.name());
    line.append("] from=");
    line.append(m.from.as_str());
    line.append(" to=");
    let to = text::join_strings(&m.to, ",");
    line.append(to.as_str());
    line.append(" status=");
    line.append(m.status.as_str());
    line.append(" anchor=");
    match &m.anchor {
        Some(a) => {
            line.append(a.as_str());
        },
        None => {
            line.append("-");
        },
    }
    line.append(" created=");
    line.append(m.created_at.as_str());
    push_line(out, line);
    let mut content = "  ".to_owned();
    content.append(m.content.as_str());
    push_line(out, content);
    proof {
        assert(text::texts(out@) =~= before + message_lines(*m));
    }
}

fn printed(v: &Vec<Message>) -> (out: Vec<String>)
    ensures
        text::texts(out@) == list_lines(v@),
{
    let mut out: Vec<String> = Vec::new();
    proof {
        assert(text::texts(out@) =~= Seq::<Seq<char>>::empty());
    }
    if v.len() == 0 {
        push_line(&mut out, "No messages found".to_owned());
        proof {
            assert(text::texts(out@) =~= list_lines(v@));
        }
        return out;
    }
    let mut i: usize = 0;
    proof {
        assert(v@.take(0) =~= Seq::<Message>::empty());
    }
    while i < v.len()
        invariant
            i <= v@.len(),
            text::texts(out@) == all_lines(v@.take(i as int)),
        decreases v.len() - i,
    {
        proof {
            assert(v@.take(i + 1).drop_last() =~= v@.take(i as int));
            assert(v@.take(i + 1).last() == v@[i as int]);
        }
        push_message_lines(&mut out, &v[i]);
        i += 1;
    }
    proof {
        assert(v@.take(v@.len() as int) =~= v@);
    }
    let blank = String::new();
    proof {
        assert(blank@ =~= Seq::<char>::empty());
    }
    push_line(&mut out, blank);
    let mut last = text::decimal(v.len() as u64);
    last.append(" messages");
    push_line(&mut out, last);
    proof {
        assert(text::texts(out@) =~= list_lines(v@));
    }
    out
}

/// A message after a response from the command line.
pub open spec fn is_responded(
    m: Message,
    n: Message,
    status: Seq<char>,
    action: Option<Seq<char>>,
    assets: Seq<Seq<char>>,
    now: Seq<char>,
) -> bool {
    &&& n.id == m.id
    &&& n.msg_type == m.msg_type
    &&& n.from == m.from
    &&& n.to == m.to
    &&& n.content == m.content
    &&& n.anchor == m.anchor
    &&& n.created_at == m.created_at
    &&& n.routed_to == m.routed_to
    &&& n.status@ == status
    &&& match action {
        Some(a) => {
            &&& n.action_log@.len() == m.action_log@.len() + 1
            &&& n.action_log@ == m.action_log@.push(n.action_log@.last())
            &&& is_entry(n.action_log@.last(), now, a, assets)
        },
        None => n.action_log == m.action_log,
    }
}

/// What a response from the command line leads to.
pub open spec fn is_response(
    r: Result<(Vec<Message>, Sent), String>,
    id: Seq<char>,
    status: Seq<char>,
    action: Option<Seq<char>>,
    assets: Seq<Seq<char>>,
    store: Result<Vec<Message>, String>,
    now: Seq<char>,
) -> bool {
    match store {
        Err(e) => r is Err && r->Err_0@ == "read failed: "@ + e@,
        Ok(v) => match lists::first_from(v@, with_id(id), 0) {
            None => r is Err && r->Err_0@ == "message not found: "@ + id,
            Some(i) => match r {
                Err(_) => false,
                Ok(p) => {
                    &&& p.0@.len() == v@.len()
                    &&& p.0@ == v@.update(i, p.0@[i])
                    &&& is_responded(v@[i], p.0@[i], status, action, assets, now)
                    &&& server::notice_texts(p.1.notices@) == seq![
                        server::emitted("hex.message.updated"@, server::id_object(id)),
                    ]
                    &&& p.1.line@ == "Updated message "@ + id + " status="@ + status
                },
            },
        },
    }
}

impl MessagingHandler {
    /// Sends a message from the command line, with a given identifier at a
    /// given time.
    pub fn cli_send_at(
        &self,
        from: &str,
        to: Vec<String>,
        content: &str,
        msg_type: &str,
        anchor: Option<&str>,
        store: Result<Vec<Message>, String>,
        hex: &str,
        now: &str,
    ) -> (r: Result<(Vec<Message>, Sent), String>)
        requires
            hex@.len() >= 6,
        ensures
            is_sent(
                r,
                from@,
                text::texts(to@),
                content@,
                msg_type@,
                crate::memory::provider::opt_str(anchor),
                store,
                hex@,
                now@,
            ),
    {
        let t = match MessageType::parse(msg_type) {
            Ok(t) => t,
            Err(e) => {
                let mut msg = "Invalid msg_type: ".to_owned();
                msg.append(e.as_str());
                return Err(msg);
            },
        };
        let mut v = match store {
            Ok(v) => v,
            Err(e) => {
                let mut msg = "read failed: ".to_owned();
                msg.append(e.as_str());
                return Err(msg);
            },
        };
        let m = new_message(from, to, content, t, text::copy_opt(anchor), hex, now);
        let s = sent(&m);
        v.push(m);
        Ok((v, s))
    }

    /// Sends a message from the command line: the messages to store and what
    /// follows, or the error line.
    pub fn cli_send(
        &self,
        from: &str,
        to: Vec<String>,
        content: &str,
        msg_type: &str,
        anchor: Option<&str>,
        store: Result<Vec<Message>, String>,
    ) -> (r: Result<(Vec<Message>, Sent), String>)
        ensures
            exists|hex: Seq<char>, now: Seq<char>|
                stamp::hex_digits(hex) && #[trigger] is_sent(
                    r,
                    from@,
                    text::texts(to@),
                    content@,
                    msg_type@,
                    crate::memory::provider::opt_str(anchor),
                    store,
                    hex,
                    now,
                ),
    {
        let hex = stamp::fresh_hex();
        let now = stamp::now_text();
        self.cli_send_at(from, to, content, msg_type, anchor, store, hex.as_str(), now.as_str())
    }

    /// The lines of a list of messages, or the error line.
    pub fn cli_list(
        &self,
        msg_type: Option<&str>,
        status: Option<&str>,
        anchor: Option<&str>,
        store: Result<Vec<Message>, String>,
    ) -> (r: Result<Vec<String>, String>)
        ensures
            match store {
                Err(e) => r is Err && r->Err_0@ == "Error reading messages: "@ + e@,
                Ok(v) => r is Ok && text::texts(r->Ok_0@) == list_lines(
                    v@.filter(
                        picks(
                            crate::memory::provider::opt_str(msg_type),
                            crate::memory::provider::opt_str(anchor),
                            crate::memory::provider::opt_str(status),
                        ),
                    ),
                ),
            },
    {
        match store {
            Err(e) => {
                let mut msg = "Error reading messages: ".to_owned();
                msg.append(e.as_str());
                Err(msg)
            },
            Ok(v) => {
                let kept = pick(v, msg_type, anchor, status);
                Ok(printed(&kept))
            },
        }
    }

    /// Responds to a message from the command line at a given time.
    pub fn cli_respond_at(
        &self,
        id: &str,
        status: &str,
        action: Option<&str>,
        assets: Vec<String>,
        store: Result<Vec<Message>, String>,
        now: &str,
    ) -> (r: Result<(Vec<Message>, Sent), String>)
        ensures
            is_response(
                r,
                id@,
                status@,
                crate::memory::provider::opt_str(action),
                text::texts(assets@),
                store,
                now@,
            ),
    {
        let mut v = match store {
            Ok(v) => v,
            Err(e) => {
                let mut msg = "read failed: ".to_owned();
                msg.append(e.as_str());
                return Err(msg);
            },
        };
        let i = match find_message(&v, id) {
            Some(i) => i,
            None => {
                let mut msg = "message not found: ".to_owned();
                msg.append(id);
                return Err(msg);
            },
        };
        let ghost before = v@;
        let mut n = v.remove(i);
        n.status = status.to_owned();
        if let Some(a) = action {
            let ghost log = n.action_log@;
            n.action_log.push(
                ActionEntry { ts: now.to_owned(), action: a.to_owned(), related_assets: assets },
            );
            proof {
                assert(n.action_log@ =~= log.push(n.action_log@.last()));
            }
        }
        v.insert(i, n);
        proof {
            assert(v@ =~= before.update(i as int, n));
        }
        let mut notices: Vec<Notice> = Vec::new();
        notices.push(server::emit("hex.message.updated", server::id_value(id)));
        proof {
            assert(server::notice_texts(notices@) =~= seq![
                server::emitted("hex.message.updated"@, server::id_object(id@)),
            ]);
        }
        let mut line = "Updated message ".to_owned();
        line.append(id);
        line.append(" status=");
        line.append(status);
        Ok((v, Sent { notices, line }))
    }

    /// Responds to a message from the command line: the messages to store and
    /// what follows, or the error line.
    pub fn cli_respond(
        &self,
        id: &str,
        status: &str,
        action: Option<&str>,
        assets: Vec<String>,
        store: Result<Vec<Message>, String>,
    ) -> (r: Result<(Vec<Message>, Sent), String>)
        ensures
            exists|now: Seq<char>| #[trigger]
                is_response(
                    r,
                    id@,
                    status@,
                    crate::memory::provider::opt_str(action),
                    text::texts(assets@),
                    store,
                    now,
                ),
    {
        let now = stamp::now_text();
        self.cli_respond_at(id, status, action, assets, store, now.as_str())
    }
}

// ── Laws ─────────────────────────────────────────────────────────────────────
/// Whether `w` holds what `v` does in every place but `i`.
pub open spec fn same_but(w: Seq<Message>, v: Seq<Message>, i: int) -> bool {
    w.len() >= v.len() && forall|k: int| 0 <= k < v.len() && k != i ==> w[k] == #[trigger] v[k]
}

/// Only an accepted creation or update asks for a write, and it keeps every
/// message but the one that it is about.
pub proof fn law_writes_keep_the_rest(
    h: MessagingHandler,
    s: Step<Message>,
    req: Request,
    g: Given,
    hex: Seq<char>,
    now: Seq<char>,
)
    requires
        h.answers(s, req, g, hex, now),
        s is Save,
    ensures
        req.method@ == "POST"@,
        g.store is Ok,
        exists|i: int| same_but(s->Save_0@, g.store->Ok_0@, i),
{
    let w = s->Save_0@;
    let v = g.store->Ok_0@;
    let base = "/messages"@;
    reveal_strlit("GET");
    reveal_strlit("POST");
    if req.asks("POST"@, base, "/api/messages"@) {
        assert(same_but(w, v, v.len() as int));
    } else {
        lists::lemma_first_from(v, with_id(g.update->Ok_0.id@), 0);
        assert(same_but(w, v, lists::first_from(v, with_id(g.update->Ok_0.id@), 0)->0));
    }
}

/// A message that has just been created stands last in the store and in the
/// list of those that still ask for something, behind all that stood there
/// before.
pub proof fn law_created_is_pending(
    s: Step<Message>,
    body: Result<CreateBody, String>,
    store: Result<Vec<Message>, String>,
    hex: Seq<char>,
    now: Seq<char>,
)
    requires
        is_created(s, body, store, hex, now),
        s is Save,
    ensures
        store is Ok,
        s->Save_0@.drop_last() == store->Ok_0@,
        s->Save_0@.filter(pending_messages()) == store->Ok_0@.filter(pending_messages()).push(
            s->Save_0@.last(),
        ),
{
    let w = s->Save_0@;
    let v = store->Ok_0@;
    assert(w.drop_last() =~= v);
    assert(pending_messages()(w.last()));
    reveal(Seq::filter);
}

pub open spec fn of_type_name(name: Seq<char>) -> spec_fn(Message) -> bool {
    |m: Message| m.msg_type.text() == name
}

/// Whether a count is that of the stored messages of its type, and of those of them
/// that still ask for something.
pub open spec fn is_count_in(c: server::CountText, v: Seq<Message>) -> bool {
    &&& c.total == v.filter(of_type_name(c.name)).len()
    &&& c.pending == v.filter(of_type_name(c.name)).filter(pending_messages()).len()
    &&& c.total > 0
}

/// Whether counts are those of stored messages, each under its name, and together
/// all of them.
pub open spec fn sums_up(counts: Seq<server::CountText>, v: Seq<Message>) -> bool {
    &&& server::distinct_names(counts)
    &&& forall|i: int|
        0 <= i < v.len() ==> server::has_count(counts, (#[trigger] v[i]).msg_type.text())
    &&& forall|k: int|
        0 <= k < counts.len() ==> is_count_in(#[trigger] counts[k], v)
    &&& server::sum_of_totals(counts) == v.len()
    &&& server::sum_of_pending(counts) == v.filter(pending_messages()).len()
}

/// The summary adds up: it is answered without a write, each type of a stored
/// message stands in it once with the number of its messages and of those that
/// still ask for something, its totals together are all messages and its pending
/// ones together are the list of those that still ask for something.
pub proof fn law_summary_adds_up(
    h: MessagingHandler,
    s: Step<Message>,
    req: Request,
    g: Given,
    hex: Seq<char>,
    now: Seq<char>,
)
    requires
        h.answers(s, req, g, hex, now),
        req.asks("GET"@, "/messages"@, "/api/messages/summary"@),
        g.store is Ok,
    ensures
        is_reply(
            s,
            server::json_text(
                200,
                server::counts_object(server::tally(type_items(g.store->Ok_0@))),
            ),
        ),
        sums_up(server::tally(type_items(g.store->Ok_0@)), g.store->Ok_0@),
{
    let v = g.store->Ok_0@;
    let items = type_items(v);
    let counts = server::tally(items);
    let f = |c: Message| (c.msg_type.text(), pending(c.status@));
    reveal_strlit("/widget.js");
    reveal_strlit("/api/messages/all");
    reveal_strlit("/api/messages/pending");
    reveal_strlit("/api/messages/summary");
    assert("/widget.js"@.len() != "/api/messages/summary"@.len());
    assert("/api/messages/all"@.len() != "/api/messages/summary"@.len());
    assert("/api/messages/pending"@[14] != "/api/messages/summary"@[14]);
    assert(is_reply(s, summary_text(g.store)));
    server::law_counts_add_up(items);
    assert(items == v.map_values(f));
    lists::lemma_filter_map(v, f, pending_messages(), server::waits());
    assert forall|i: int| 0 <= i < v.len() implies server::has_count(
        counts,
        (#[trigger] v[i]).msg_type.text(),
    ) by {
        assert(items[i].0 == v[i].msg_type.text());
    }
    assert forall|k: int| 0 <= k < counts.len() implies is_count_in(#[trigger] counts[k], v) by {
        let name = counts[k].name;
        assert(server::is_count_of(counts[k], items));
        lists::lemma_filter_map(v, f, of_type_name(name), server::is_under(name));
        lists::lemma_filter_map(v.filter(of_type_name(name)), f, pending_messages(), server::waits());
    }
}

/// Whether a message has the type, the anchor and the status that are asked for, each
/// where it is given.
pub open spec fn has_what_is_asked(
    m: Message,
    msg_type: Option<Seq<char>>,
    anchor: Option<Seq<char>>,
    status: Option<Seq<char>>,
) -> bool {
    &&& msg_type is Some ==> (m.msg_type is Comment && msg_type->0 == "comment"@) || (
    m.msg_type is Agent && msg_type->0 == "agent"@) || (m.msg_type is Notification && msg_type->0
        == "notification"@)
    &&& anchor is Some ==> m.anchor is Some && m.anchor->0@ == anchor->0
    &&& status is Some ==> m.status@ == status->0
}

/// A filtered list holds the messages that have the type, the anchor and the status
/// asked for, each where it is given: all of them and no others, in their order.
pub proof fn law_filtered_list(
    v: Seq<Message>,
    msg_type: Option<Seq<char>>,
    anchor: Option<Seq<char>>,
    status: Option<Seq<char>>,
)
    ensures
        lists::is_choice(
            v.filter(picks(msg_type, anchor, status)),
            v,
            |m: Message| has_what_is_asked(m, msg_type, anchor, status),
        ),
{
    lists::lemma_filter_is_choice(
        v,
        picks(msg_type, anchor, status),
        |m: Message| has_what_is_asked(m, msg_type, anchor, status),
    );
}

/// A list of messages is answered with those that have what the query asks for under
/// `type`, `anchor` and `status`, all of them and no others, in their order.
pub proof fn law_a_list_is_answered(
    h: MessagingHandler,
    s: Step<Message>,
    req: Request,
    g: Given,
    hex: Seq<char>,
    now: Seq<char>,
)
    requires
        h.answers(s, req, g, hex, now),
        req.method@ == "GET"@,
        req.path@ == "/messages"@ + "/api/messages"@,
        g.store is Ok,
    ensures
        exists|kept: Seq<Message>| #[trigger]
            is_reply(s, server::json_text(200, messages_json(kept))) && lists::is_choice(
                kept,
                g.store->Ok_0@,
                |m: Message|
                    has_what_is_asked(
                        m,
                        req.param("type"@),
                        req.param("anchor"@),
                        req.param("status"@),
                    ),
            ),
{
    lemma_paths(req, "/api/messages"@);
    reveal_strlit("/widget.js");
    reveal_strlit("/api/messages");
    reveal_strlit("/api/messages/all");
    reveal_strlit("/api/messages/pending");
    reveal_strlit("/api/messages/summary");
    assert("/api/messages"@.len() == 13);
    assert("/widget.js"@.len() == 10 && "/api/messages/all"@.len() == 17);
    assert("/api/messages/pending"@.len() == 21 && "/api/messages/summary"@.len() == 21);
    let kept = g.store->Ok_0@.filter(
        picks(req.param("type"@), req.param("anchor"@), req.param("status"@)),
    );
    law_filtered_list(
        g.store->Ok_0@,
        req.param("type"@),
        req.param("anchor"@),
        req.param("status"@),
    );
    assert(is_reply(s, server::json_text(200, messages_json(kept))));
}

proof fn lemma_paths(req: Request, path: Seq<char>)
    requires
        req.path@ == "/messages"@ + path,
    ensures
        forall|method: Seq<char>, p: Seq<char>| #[trigger]
            req.asks(method, "/messages"@, p) == (req.method@ == method && p == path),
{
    let base = "/messages"@;
    let n = base.len() as int;
    assert(req.path@.subrange(0, n) =~= base);
    assert(text::starts_with(req.path@, base));
    assert(req.path@.skip(n) =~= path);
}

/// The pending list is answered with the messages whose status is `new` or `seen`,
/// all of them and no others, in their order; the whole list with every message.
pub proof fn law_pending_and_all(
    h: MessagingHandler,
    s: Step<Message>,
    req: Request,
    g: Given,
    hex: Seq<char>,
    now: Seq<char>,
)
    requires
        h.answers(s, req, g, hex, now),
        req.method@ == "GET"@,
        g.store is Ok,
    ensures
        req.path@ == "/messages"@ + "/api/messages/pending"@ ==> exists|kept: Seq<Message>| #[trigger]
            is_reply(s, server::json_text(200, messages_json(kept))) && lists::is_choice(
                kept,
                g.store->Ok_0@,
                |m: Message| m.status@ == "new"@ || m.status@ == "seen"@,
            ),
        req.path@ == "/messages"@ + "/api/messages/all"@ ==> is_reply(
            s,
            server::json_text(200, messages_json(g.store->Ok_0@)),
        ),
{
    reveal_strlit("/widget.js");
    reveal_strlit("/api/messages/all");
    reveal_strlit("/api/messages/pending");
    assert("/widget.js"@.len() == 10 && "/api/messages/all"@.len() == 17);
    assert("/api/messages/pending"@.len() == 21);
    if req.path@ == "/messages"@ + "/api/messages/pending"@ {
        lemma_paths(req, "/api/messages/pending"@);
        let v = g.store->Ok_0@;
        let kept = v.filter(pending_messages());
        lists::lemma_filter_is_choice(
            v,
            pending_messages(),
            |m: Message| m.status@ == "new"@ || m.status@ == "seen"@,
        );
        assert(is_reply(s, server::json_text(200, messages_json(kept))));
    }
    if req.path@ == "/messages"@ + "/api/messages/all"@ {
        lemma_paths(req, "/api/messages/all"@);
    }
}

/// An answer shows a message with all its fields, each under its name.
pub proof fn law_message_json(m: Message, v: Seq<Message>, k: int)
    requires
        0 <= k < v.len(),
    ensures
        message_json(m)->Object_0.len() == 10,
        message_json(m)->Object_0.contains(("id"@, JsonText::Str(m.id@))),
        m.msg_type is Comment ==> message_json(m)->Object_0.contains(
            ("msg_type"@, JsonText::Str("comment"@)),
        ),
        m.msg_type is Agent ==> message_json(m)->Object_0.contains(
            ("msg_type"@, JsonText::Str("agent"@)),
        ),
        m.msg_type is Notification ==> message_json(m)->Object_0.contains(
            ("msg_type"@, JsonText::Str("notification"@)),
        ),
        message_json(m)->Object_0.contains(("from"@, JsonText::Str(m.from@))),
        message_json(m)->Object_0.contains(("to"@, json::text_array(text::texts(m.to@)))),
        message_json(m)->Object_0.contains(("content"@, JsonText::Str(m.content@))),
        m.anchor is Some ==> message_json(m)->Object_0.contains(
            ("anchor"@, JsonText::Str(m.anchor->0@)),
        ),
        m.anchor is None ==> message_json(m)->Object_0.contains(("anchor"@, JsonText::Null)),
        message_json(m)->Object_0.contains(("status"@, JsonText::Str(m.status@))),
        message_json(m)->Object_0.contains(("created_at"@, JsonText::Str(m.created_at@))),
        message_json(m)->Object_0.contains(
            ("routed_to"@, json::text_array(text::texts(m.routed_to@))),
        ),
        messages_json(v)->Array_0.len() == v.len(),
        messages_json(v)->Array_0[k] == message_json(v[k]),
{
    let o = message_json(m)->Object_0;
    assert(o[0].0 == "id"@ && o[1].0 == "msg_type"@ && o[2].0 == "from"@ && o[3].0 == "to"@);
    assert(o[4].0 == "content"@ && o[5].0 == "anchor"@ && o[6].0 == "status"@);
    assert(o[7].0 == "created_at"@ && o[8].0 == "action_log"@ && o[9].0 == "routed_to"@);
}

/// Whether an update of a message changed it as asked: what is given is set, an action
/// is put at the end of its log, and the rest stays.
pub open spec fn is_updated_message(m: Message, n: Message, b: UpdateBody, now: Seq<char>) -> bool {
    &&& n.id == m.id && n.msg_type == m.msg_type && n.from == m.from && n.to == m.to && n.content
        == m.content && n.anchor == m.anchor && n.created_at == m.created_at
    &&& b.status is Some ==> n.status@ == b.status->0@
    &&& b.status is None ==> n.status == m.status
    &&& b.routed_to is Some ==> text::texts(n.routed_to@) == text::texts(b.routed_to->0@)
    &&& b.routed_to is None ==> n.routed_to == m.routed_to
    &&& b.action is None ==> n.action_log == m.action_log
    &&& b.action is Some ==> n.action_log@.len() == m.action_log@.len() + 1
        && n.action_log@.drop_last() == m.action_log@ && n.action_log@.last().ts@ == now
        && n.action_log@.last().action@ == b.action->0@ && (b.related_assets is Some ==> text::texts(
        n.action_log@.last().related_assets@,
    ) == text::texts(b.related_assets->0@)) && (b.related_assets is None
        ==> n.action_log@.last().related_assets@.len() == 0)
}

/// An update changes the first message that has the identifier, as asked, and no
/// other; where none has it, the answer is 404 and nothing is written.
pub proof fn law_an_update_changes_one_message(
    h: MessagingHandler,
    s: Step<Message>,
    req: Request,
    g: Given,
    hex: Seq<char>,
    now: Seq<char>,
)
    requires
        h.answers(s, req, g, hex, now),
        req.method@ == "POST"@,
        req.path@ == "/messages"@ + "/api/messages/update"@,
        g.store is Ok,
        g.update is Ok,
    ensures
        (s is Save) == (exists|i: int|
            0 <= i < g.store->Ok_0@.len() && (#[trigger] g.store->Ok_0@[i]).id@
                == g.update->Ok_0.id@),
        s is Reply ==> is_reply(s, server::error_text(404, "message not found"@)),
        s is Save ==> exists|i: int|
            same_but(s->Save_0@, g.store->Ok_0@, i) && s->Save_0@.len() == g.store->Ok_0@.len()
                && #[trigger] is_first_with(g.store->Ok_0@, g.update->Ok_0.id@, i)
                && is_updated_message(g.store->Ok_0@[i], s->Save_0@[i], g.update->Ok_0, now),
{
    lemma_paths(req, "/api/messages/update"@);
    reveal_strlit("GET");
    reveal_strlit("POST");
    assert("GET"@.len() == 3 && "POST"@.len() == 4);
    reveal_strlit("/api/messages");
    reveal_strlit("/api/messages/update");
    assert("/api/messages"@.len() == 13 && "/api/messages/update"@.len() == 20);
    let v = g.store->Ok_0@;
    let id = g.update->Ok_0.id@;
    lists::lemma_first_from(v, with_id(id), 0);
    assert(is_update(s, g.update, g.store, now));
    if let Some(i) = lists::first_from(v, with_id(id), 0) {
        let w = s->Save_0@;
        assert forall|j: int| 0 <= j < i implies (#[trigger] v[j]).id@ != id by {
            assert(!with_id(id)(v[j]));
        }
        assert(is_first_with(v, id, i));
        assert(same_but(w, v, i));
        if g.update->Ok_0.action is Some {
            assert(w[i].action_log@.drop_last() =~= v[i].action_log@);
        }
        if g.update->Ok_0.related_assets is None && g.update->Ok_0.action is Some {
            assert(text::texts(w[i].action_log@.last().related_assets@).len() == 0);
        }
        assert(is_updated_message(v[i], w[i], g.update->Ok_0, now));
    } else {
        assert forall|i: int| 0 <= i < v.len() implies (#[trigger] v[i]).id@ != id by {
            assert(!with_id(id)(v[i]));
        }
    }
}

/// Whether the first message with an identifier stands at `i`.
pub open spec fn is_first_with(v: Seq<Message>, id: Seq<char>, i: int) -> bool {
    &&& 0 <= i < v.len()
    &&& v[i].id@ == id
    &&& forall|j: int| 0 <= j < i ==> (#[trigger] v[j]).id@ != id
}

/// A created message has the fields that were asked for, is new, has an empty log and
/// an identifier of `M` and six digits; one without a type is for agents. Only a
/// comment goes to routing.
pub proof fn law_a_created_message(
    h: MessagingHandler,
    s: Step<Message>,
    req: Request,
    g: Given,
    hex: Seq<char>,
    now: Seq<char>,
)
    requires
        h.answers(s, req, g, hex, now),
        req.method@ == "POST"@,
        req.path@ == "/messages"@ + "/api/messages"@,
        g.store is Ok,
        g.create is Ok,
        hex.len() >= 6,
    ensures
        (s is Save) == (g.create->Ok_0.msg_type is None || g.create->Ok_0.msg_type->0@ == "comment"@
            || g.create->Ok_0.msg_type->0@ == "agent"@ || g.create->Ok_0.msg_type->0@
            == "notification"@),
        s is Reply ==> s->Reply_0@.status == 400,
        s is Save ==> ({
            let b = g.create->Ok_0;
            let m = s->Save_0@.last();
            &&& s->Save_0@.len() == g.store->Ok_0@.len() + 1
            &&& s->Save_0@.drop_last() == g.store->Ok_0@
            &&& m.id@.len() == 7 && m.id@[0] == 'M' && m.id@.skip(1) == hex.take(6)
            &&& m.from@ == b.from@ && text::texts(m.to@) == text::texts(b.to@) && m.content@
                == b.content@
            &&& (b.anchor is Some ==> m.anchor is Some && m.anchor->0@ == b.anchor->0@)
            &&& (b.anchor is None ==> m.anchor is None)
            &&& m.status@ == "new"@ && m.created_at@ == now
            &&& m.action_log@.len() == 0 && m.routed_to@.len() == 0
            &&& (m.msg_type is Agent) == (b.msg_type is None || b.msg_type->0@ == "agent"@)
            &&& (m.msg_type is Comment) == (b.msg_type is Some && b.msg_type->0@ == "comment"@)
            &&& (json::opt_text(s->Save_1.route) is Some) == (m.msg_type is Comment)
            &&& (m.msg_type is Comment ==> json::opt_text(s->Save_1.route) == Some(m.id@))
            &&& s->Save_1.response@.status == 201
            &&& s->Save_1.response@.body == server::BodyText::Json(message_json(m))
        }),
{
    lemma_paths(req, "/api/messages"@);
    reveal_strlit("GET");
    reveal_strlit("POST");
    assert("GET"@.len() == 3 && "POST"@.len() == 4);
    reveal_strlit("comment");
    reveal_strlit("agent");
    reveal_strlit("notification");
    reveal_strlit("M");
    assert("comment"@.len() == 7 && "agent"@.len() == 5 && "notification"@.len() == 12);
    assert(is_created(s, g.create, g.store, hex, now));
    if s is Save {
        let m = s->Save_0@.last();
        assert(s->Save_0@.drop_last() =~= g.store->Ok_0@);
        assert(m.id@ == "M"@ + hex.take(6));
        assert(m.id@.skip(1) =~= hex.take(6));
    }
}

/// A list is printed as two lines for each message, the first with its identifier in
/// front and the second with its content; behind them stands how many there are. An
/// empty list says that there are none.
pub proof fn law_printed_list(v: Seq<Message>, k: int)
    requires
        0 <= k < v.len(),
    ensures
        list_lines(v).len() == 2 * v.len() + 2,
        list_lines(v)[2 * k + 1] == "  "@ + v[k].content@,
        text::starts_with(list_lines(v)[2 * k], v[k].id@ + " ["@ + v[k].msg_type.text()),
        list_lines(v).last() == text::numeral(v.len()) + " messages"@,
        list_lines(Seq::empty()) == seq!["No messages found"@],
{
    lemma_all_lines(v, k);
    let line = message_lines(v[k])[0];
    let front = v[k].id@ + " ["@ + v[k].msg_type.text();
    assert(line.subrange(0, front.len() as int) =~= front);
}

proof fn lemma_all_lines(v: Seq<Message>, k: int)
    requires
        0 <= k < v.len(),
    ensures
        all_lines(v).len() == 2 * v.len(),
        all_lines(v)[2 * k] == message_lines(v[k])[0],
        all_lines(v)[2 * k + 1] == message_lines(v[k])[1],
    decreases v.len(),
{
    let front = v.drop_last();
    if v.len() == 1 {
        assert(all_lines(front).len() == 0);
    } else if k < front.len() {
        lemma_all_lines(front, k);
        assert(front[k] == v[k]);
    } else {
        lemma_all_lines(front, 0);
    }
}

/// A response from the command line sets the status of the first message with the
/// identifier and puts its action at the end of the log, where it has one; nothing
/// else changes. Without such a message it is refused.
pub proof fn law_a_response_changes_one_message(
    r: Result<(Vec<Message>, Sent), String>,
    id: Seq<char>,
    status: Seq<char>,
    action: Option<Seq<char>>,
    assets: Seq<Seq<char>>,
    v: Vec<Message>,
    now: Seq<char>,
)
    requires
        is_response(r, id, status, action, assets, Ok(v), now),
    ensures
        (r is Ok) == (exists|i: int| 0 <= i < v@.len() && (#[trigger] v@[i]).id@ == id),
        r is Ok ==> exists|i: int| #[trigger]
            is_first_with(v@, id, i) && same_but(r->Ok_0.0@, v@, i) && r->Ok_0.0@.len() == v@.len()
                && r->Ok_0.0@[i].status@ == status && r->Ok_0.0@[i].id == v@[i].id
                && r->Ok_0.0@[i].content == v@[i].content && r->Ok_0.0@[i].from == v@[i].from
                && r->Ok_0.0@[i].to == v@[i].to && r->Ok_0.0@[i].msg_type == v@[i].msg_type && (
            action is None ==> r->Ok_0.0@[i].action_log == v@[i].action_log) && (action is Some ==> (
            r->Ok_0.0@[i].action_log@.drop_last() == v@[i].action_log@
                && r->Ok_0.0@[i].action_log@.last().action@ == action->0
                && r->Ok_0.0@[i].action_log@.last().ts@ == now && text::texts(
                r->Ok_0.0@[i].action_log@.last().related_assets@,
            ) == assets)),
{
    lists::lemma_first_from(v@, with_id(id), 0);
    if let Some(i) = lists::first_from(v@, with_id(id), 0) {
        let w = r->Ok_0.0@;
        assert forall|j: int| 0 <= j < i implies (#[trigger] v@[j]).id@ != id by {
            assert(!with_id(id)(v@[j]));
        }
        assert(is_first_with(v@, id, i));
        assert(same_but(w, v@, i));
        if action is Some {
            assert(w[i].action_log@.drop_last() =~= v@[i].action_log@);
        }
    } else {
        assert forall|i: int| 0 <= i < v@.len() implies (#[trigger] v@[i]).id@ != id by {
            assert(!with_id(id)(v@[i]));
        }
    }
}

/// Every message of every inbox is delivered to the owner of that inbox.
pub proof fn law_every_inbox_is_delivered(inboxes: Seq<Inbox>, n: int, a: int, k: int)
    requires
        0 <= a < n <= inboxes.len(),
        0 <= k < inboxes[a].messages@.len(),
    ensures
        delivered(inboxes, n).contains((inboxes[a].agent@, inboxes[a].messages@[k])),
    decreases n,
{
    let front = delivered(inboxes, n - 1);
    let all = delivered(inboxes, n);
    let x = (inboxes[a].agent@, inboxes[a].messages@[k]);
    if a < n - 1 {
        law_every_inbox_is_delivered(inboxes, n - 1, a, k);
        let i = choose|i: int| 0 <= i < front.len() && front[i] == x;
        assert(all[i] == x);
    } else {
        assert(all[front.len() + k] == x);
    }
}

/// The file name of an inbox is that of its owner with the ending `.jsonl`, and no
/// other name is one.
pub proof fn law_inbox_owner(agent: Seq<char>, file_name: Seq<char>)
    ensures
        agent.len() > 0 ==> inbox_owner(agent + ".jsonl"@) == Some(agent),
        inbox_owner(".jsonl"@) is None,
        inbox_owner(file_name) is Some ==> file_name == inbox_owner(file_name)->0 + ".jsonl"@,
{
    let s = agent + ".jsonl"@;
    assert(s.subrange(s.len() - ".jsonl"@.len(), s.len() as int) =~= ".jsonl"@);
    assert(s.take(s.len() - ".jsonl"@.len()) =~= agent);
    if inbox_owner(file_name) is Some {
        let n = file_name.len() - ".jsonl"@.len();
        assert(file_name.subrange(n, file_name.len() as int) == ".jsonl"@);
        assert(file_name =~= file_name.take(n) + file_name.subrange(n, file_name.len() as int));
    }
}

/// Six bytes of an identifier in plain characters are its first six; one that is
/// shorter is kept whole.
pub proof fn law_short_id(id: Seq<char>)
    requires
        forall|k: int| 0 <= k < id.len() ==> #[trigger] (id[k] as u32) <= 0x7f,
    ensures
        byte_front(id, 6, 0) == Some(
            if id.len() >= 6 {
                id.take(6)
            } else {
                id
            },
        ),
{
    lemma_plain_front(id, 0);
}

proof fn lemma_plain_front(id: Seq<char>, i: int)
    requires
        0 <= i <= 6,
        i <= id.len(),
        forall|k: int| 0 <= k < id.len() ==> #[trigger] (id[k] as u32) <= 0x7f,
    ensures
        byte_front(id, 6 - i, i) == Some(
            if id.len() >= 6 {
                id.take(6)
            } else {
                id
            },
        ),
    decreases 6 - i,
{
    if i < 6 && i < id.len() {
        assert(id[i] as u32 <= 0x7f);
        lemma_plain_front(id, i + 1);
    } else if i == 6 {
        assert(id.len() >= 6);
    }
}

/// A store is made of every comment and every message of an inbox, the comments first
/// and all in order. A comment keeps its identifier, author, text, state, time and
/// receivers; a message of an inbox goes to the owner of the inbox and is new.
pub proof fn law_migration(r: Migration, comments: Vec<Comment>, inboxes: Seq<Inbox>, i: int)
    requires
        is_migration(r, Some(comments), inboxes),
    ensures
        r.messages@.len() == comments@.len() + delivered(inboxes, inboxes.len() as int).len(),
        0 <= i < comments@.len() ==> ({
            let m = r.messages@[i];
            let c = comments@[i];
            &&& m.id@ == c.id@ && m.from@ == c.author@ && m.content@ == c.text@
            &&& m.status@ == c.status@ && m.created_at@ == c.created_at@
            &&& m.msg_type is Comment
            &&& text::texts(m.to@) == text::texts(c.routed_to@)
            &&& text::texts(m.routed_to@) == text::texts(c.routed_to@)
            &&& (m.anchor is Some) == (c.asset@.len() > 0)
            &&& m.anchor is Some ==> m.anchor->0@ == c.asset@
            &&& m.action_log@.len() == c.action_log@.len()
        }),
        0 <= i < delivered(inboxes, inboxes.len() as int).len() ==> ({
            let m = r.messages@[comments@.len() + i];
            let d = delivered(inboxes, inboxes.len() as int)[i];
            &&& text::texts(m.to@) == seq![d.0]
            &&& m.from@ == (d.1).from@
            &&& m.content@ == (d.1).subject@ + ": "@ + (d.1).body@
            &&& m.created_at@ == (d.1).sent_at@
            &&& m.msg_type is Agent
            &&& m.status@ == "new"@
            &&& m.anchor is None && m.action_log@.len() == 0 && m.routed_to@.len() == 0
        }),
        text::texts(r.notes@)[0] == "messaging: migrated "@ + text::numeral(comments@.len())
            + " comments from comments.json"@,
        delivered(inboxes, inboxes.len() as int).len() > 0 ==> text::texts(r.notes@).len() == 2
            && text::texts(r.notes@)[1] == "messaging: migrated "@ + text::numeral(
            delivered(inboxes, inboxes.len() as int).len(),
        ) + " agent inbox messages"@,
        delivered(inboxes, inboxes.len() as int).len() == 0 ==> text::texts(r.notes@).len() == 1,
{
    let d = delivered(inboxes, inboxes.len() as int);
    let c = comments@.len();
    if 0 <= i < c {
        assert(is_comment_message(r.messages@[i], comments@[i]));
    }
    if 0 <= i < d.len() {
        assert(is_inbox_message(r.messages@[c + i], d[i].0, d[i].1));
    }
}

/// What is sent from the command line is put behind the messages that are there: from
/// its sender, to its receivers and with its content; the line about it names them. A
/// type that there is not is refused, and so is a store that cannot be read.
pub proof fn law_what_is_sent(
    r: Result<(Vec<Message>, Sent), String>,
    from: Seq<char>,
    to: Seq<Seq<char>>,
    content: Seq<char>,
    msg_type: Seq<char>,
    anchor: Option<Seq<char>>,
    store: Result<Vec<Message>, String>,
    hex: Seq<char>,
    now: Seq<char>,
)
    requires
        is_sent(r, from, to, content, msg_type, anchor, store, hex, now),
    ensures
        (r is Ok) == (store is Ok && (msg_type == "comment"@ || msg_type == "agent"@ || msg_type
            == "notification"@)),
        r is Ok ==> ({
            let v = (r->Ok_0).0@;
            let m = v.last();
            &&& v.len() == store->Ok_0@.len() + 1
            &&& v.drop_last() == store->Ok_0@
            &&& m.from@ == from && text::texts(m.to@) == to && m.content@ == content
            &&& m.msg_type.text() == msg_type
            &&& json::opt_text(m.anchor) == anchor
            &&& m.status@ == "new"@ && m.created_at@ == now
            &&& m.id@ == "M"@ + hex.take(6)
            &&& (r->Ok_0).1.line@ == "Sent message "@ + m.id@ + " ("@ + msg_type + ") from "@ + from
                + " to "@ + text::join(to, ","@)
            &&& server::notice_texts((r->Ok_0).1.notices@).len() == 2
            &&& server::notice_texts((r->Ok_0).1.notices@)[1].event == "hex.message.created"@
            &&& server::notice_texts((r->Ok_0).1.notices@)[0].topic == Some("content.messages"@)
        }),
        store is Err && r is Err && (msg_type == "comment"@ || msg_type == "agent"@ || msg_type
            == "notification"@) ==> r->Err_0@ == "read failed: "@ + store->Err_0@,
{
    reveal_strlit("comment");
    reveal_strlit("agent");
    reveal_strlit("notification");
    assert("comment"@.len() == 7 && "agent"@.len() == 5 && "notification"@.len() == 12);
    if r is Ok {
        let v = (r->Ok_0).0@;
        assert(v.drop_last() =~= store->Ok_0@);
    }
}

/// A response from the command line is told with the message and its new status, and
/// others hear of the message alone; what went wrong is told too.
pub proof fn law_a_response_is_told(
    r: Result<(Vec<Message>, Sent), String>,
    id: Seq<char>,
    status: Seq<char>,
    action: Option<Seq<char>>,
    assets: Seq<Seq<char>>,
    store: Result<Vec<Message>, String>,
    now: Seq<char>,
)
    requires
        is_response(r, id, status, action, assets, store, now),
    ensures
        r is Ok ==> (r->Ok_0).1.line@ == "Updated message "@ + id + " status="@ + status,
        r is Ok ==> server::notice_texts((r->Ok_0).1.notices@).len() == 1
            && server::notice_texts((r->Ok_0).1.notices@)[0].event == "hex.message.updated"@
            && server::notice_texts((r->Ok_0).1.notices@)[0].topic is None
            && server::notice_texts((r->Ok_0).1.notices@)[0].payload == JsonText::Object(
            seq![("id"@, JsonText::Str(id))],
        ),
        store is Err ==> r is Err && r->Err_0@ == "read failed: "@ + store->Err_0@,
        store is Ok && r is Err ==> r->Err_0@ == "message not found: "@ + id,
{
}

} // verus!
