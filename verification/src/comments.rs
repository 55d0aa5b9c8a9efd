//! Comments on assets: what each request answers, and what it changes.
use crate::json::{self, Json, JsonText};
use crate::lists;
use crate::messaging;
use crate::paths;
use crate::server::{
    self,
    Count,
    Request,
    Response,
    Saved,
    Step,
};
use crate::stamp;
use crate::text::{self, str_eq};
use vstd::prelude::*;

verus! {

#[derive(Debug, Clone)]
pub struct ActionEntry {
    pub ts: String,
    pub action: String,
}

#[derive(Debug, Clone)]
pub struct Comment {
    pub id: String,
    pub asset: String,
    pub text: String,
    pub author: String,
    pub status: String,
    pub created_at: String,
    pub action_log: Vec<ActionEntry>,
    pub routed_to: Vec<String>,
    pub related_assets: Vec<String>,
}

/// Who a comment without an author is by.
pub fn default_author() -> (r: &'static str)
    ensures
        r@ == "mike"@,
{
    "mike"
}

// ── Comments as JSON ─────────────────────────────────────────────────────────
pub open spec fn entry_json(e: ActionEntry) -> JsonText {
    JsonText::Object(
        seq![("ts"@, JsonText::Str(e.ts@)), ("action"@, JsonText::Str(e.action@))],
    )
}

pub open spec fn comment_json(c: Comment) -> JsonText {
    JsonText::Object(
        seq![
            ("id"@, JsonText::Str(c.id@)),
            ("asset"@, JsonText::Str(c.asset@)),
            ("text"@, JsonText::Str(c.text@)),
            ("author"@, JsonText::Str(c.author@)),
            ("status"@, JsonText::Str(c.status@)),
            ("created_at"@, JsonText::Str(c.created_at@)),
            (
                "action_log"@,
                JsonText::Array(c.action_log@.map_values(|e: ActionEntry| entry_json(e))),
            ),
            ("routed_to"@, json::text_array(text::texts(c.routed_to@))),
            ("related_assets"@, json::text_array(text::texts(c.related_assets@))),
        ],
    )
}

pub open spec fn comments_json(v: Seq<Comment>) -> JsonText {
    JsonText::Array(v.map_values(|c: Comment| comment_json(c)))
}

fn entry_value(e: &ActionEntry) -> (r: Json)
    ensures
        r@ == entry_json(*e),
{
    let mut m: Vec<(String, Json)> = Vec::new();
    json::put(&mut m, "ts", json::text_value(e.ts.as_str()));
    json::put(&mut m, "action", json::text_value(e.action.as_str()));
    proof {
        assert(json::member_texts(m@) =~= entry_json(*e)->Object_0);
    }
    json::object(m)
}

fn entries_value(v: &Vec<ActionEntry>) -> (r: Json)
    ensures
        r@ == JsonText::Array(v@.map_values(|e: ActionEntry| entry_json(e))),
{
    let mut out: Vec<Json> = Vec::new();
    let mut i: usize = 0;
    while i < v.len()
        invariant
            i <= v@.len(),
            out@.len() == i,
            forall|k: int| 0 <= k < i ==> (#[trigger] out@[k])@ == entry_json(v@[k]),
        decreases v.len() - i,
    {
        out.push(entry_value(&v[i]));
        i += 1;
    }
    let r = json::array(out);
    proof {
        assert(r@->Array_0 =~= v@.map_values(|e: ActionEntry| entry_json(e)));
    }
    r
}

/// A comment as it is sent and stored.
pub fn comment_value(c: &Comment) -> (r: Json)
    ensures
        r@ == comment_json(*c),
{
    let mut m: Vec<(String, Json)> = Vec::new();
    json::put(&mut m, "id", json::text_value(c.id.as_str()));
    json::put(&mut m, "asset", json::text_value(c.asset.as_str()));
    json::put(&mut m, "text", json::text_value(c.text.as_str()));
    json::put(&mut m, "author", json::text_value(c.author.as_str()));
    json::put(&mut m, "status", json::text_value(c.status.as_str()));
    json::put(&mut m, "created_at", json::text_value(c.created_at.as_str()));
    json::put(&mut m, "action_log", entries_value(&c.action_log));
    json::put(&mut m, "routed_to", json::texts_value(&c.routed_to));
    json::put(&mut m, "related_assets", json::texts_value(&c.related_assets));
    proof {
        assert(json::member_texts(m@) =~= comment_json(*c)->Object_0);
    }
    json::object(m)
}

fn comments_value(v: &Vec<Comment>) -> (r: Json)
    ensures
        r@ == comments_json(v@),
{
    let mut out: Vec<Json> = Vec::new();
    let mut i: usize = 0;
    while i < v.len()
        invariant
            i <= v@.len(),
            out@.len() == i,
            forall|k: int| 0 <= k < i ==> (#[trigger] out@[k])@ == comment_json(v@[k]),
        decreases v.len() - i,
    {
        out.push(comment_value(&v[i]));
        i += 1;
    }
    let r = json::array(out);
    proof {
        assert(r@->Array_0 =~= comments_json(v@)->Array_0);
    }
    r
}

// ── Requests ─────────────────────────────────────────────────────────────────
/// The body of a request to create a comment.
#[derive(Debug, Clone)]
pub struct CreateBody {
    pub text: String,
    pub asset: String,
    pub author: String,
}

/// The body of a request to update a comment.
#[derive(Debug, Clone)]
pub struct UpdateBody {
    pub id: String,
    pub status: Option<String>,
    pub action: Option<String>,
    pub routed_to: Option<Vec<String>>,
    pub related_assets: Option<Vec<String>>,
}

/// What has been read for a request. Only what its route needs is looked at:
/// the script for the widget, the stored comments for every other route, and a
/// body, or why it is none, where something is created or updated.
#[derive(Debug)]
pub struct Given {
    pub widget: Option<Vec<u8>>,
    pub store: Result<Vec<Comment>, String>,
    pub create: Result<CreateBody, String>,
    pub update: Result<UpdateBody, String>,
}

#[derive(Debug, Clone)]
pub struct CommentsHandler {
    pub data_path: String,
    pub hex_dir: String,
}

/// The stored comments that `keep` accepts, or why they cannot be read.
pub open spec fn listing(
    store: Result<Vec<Comment>, String>,
    keep: spec_fn(Comment) -> bool,
) -> server::ResponseText {
    match store {
        Ok(v) => server::json_text(200, comments_json(v@.filter(keep))),
        Err(e) => server::error_text(500, e@),
    }
}

/// All stored comments, or why they cannot be read.
pub open spec fn everything(store: Result<Vec<Comment>, String>) -> server::ResponseText {
    match store {
        Ok(v) => server::json_text(200, comments_json(v@)),
        Err(e) => server::error_text(500, e@),
    }
}

pub open spec fn pending_comments() -> spec_fn(Comment) -> bool {
    |c: Comment| messaging::pending(c.status@)
}

pub open spec fn on_asset(asset: Seq<char>) -> spec_fn(Comment) -> bool {
    |c: Comment| c.asset@ == asset
}

pub open spec fn with_id(id: Seq<char>) -> spec_fn(Comment) -> bool {
    |c: Comment| c.id@ == id
}

/// Each comment as its asset and whether it waits.
pub open spec fn asset_items(v: Seq<Comment>) -> Seq<(Seq<char>, bool)> {
    v.map_values(|c: Comment| (c.asset@, messaging::pending(c.status@)))
}

pub open spec fn summary_text(store: Result<Vec<Comment>, String>) -> server::ResponseText {
    match store {
        Ok(v) => server::json_text(200, server::counts_object(server::tally(asset_items(v@)))),
        Err(e) => server::error_text(500, e@),
    }
}

/// A comment as it is first stored.
pub open spec fn is_new(c: Comment, b: CreateBody, hex: Seq<char>, now: Seq<char>) -> bool {
    &&& c.id@ == "c-"@ + hex.take(8)
    &&& c.asset@ == b.asset@
    &&& c.text@ == b.text@
    &&& c.author@ == b.author@
    &&& c.status@ == "new"@
    &&& c.created_at@ == now
    &&& c.action_log@.len() == 0
    &&& c.routed_to@.len() == 0
    &&& c.related_assets@.len() == 0
}

/// What is sent out once a comment has been stored.
pub open spec fn created_text(c: Comment) -> server::SavedText {
    server::SavedText {
        notices: seq![
            server::published(
                "content.comments"@,
                "created"@,
                JsonText::Object(
                    seq![
                        ("id"@, JsonText::Str(c.id@)),
                        ("asset"@, JsonText::Str(c.asset@)),
                        ("text"@, JsonText::Str(c.text@)),
                        ("author"@, JsonText::Str(c.author@)),
                    ],
                ),
            ),
            server::emitted("hex.comment.created"@, server::id_object(c.id@)),
        ],
        route: Some(c.id@),
        response: server::json_text(201, comment_json(c)),
    }
}

fn created(c: &Comment) -> (s: Saved)
    ensures
        s@ == created_text(*c),
{
    let mut p: Vec<(String, Json)> = Vec::new();
    json::put(&mut p, "id", json::text_value(c.id.as_str()));
    json::put(&mut p, "asset", json::text_value(c.asset.as_str()));
    json::put(&mut p, "text", json::text_value(c.text.as_str()));
    json::put(&mut p, "author", json::text_value(c.author.as_str()));
    proof {
        assert(json::member_texts(p@) =~= created_text(*c).notices[0].payload->Object_0);
    }
    let notices = server::two(
        server::publish("content.comments", "created", json::object(p)),
        server::emit("hex.comment.created", server::id_value(c.id.as_str())),
    );
    let response = server::json_response(201, comment_value(c));
    let s = Saved { notices, route: Some(c.id.as_str().to_owned()), response };
    proof {
        assert(s@.notices =~= created_text(*c).notices);
    }
    s
}

/// What a request to create a comment leads to.
pub open spec fn is_created(
    s: Step<Comment>,
    body: Result<CreateBody, String>,
    store: Result<Vec<Comment>, String>,
    hex: Seq<char>,
    now: Seq<char>,
) -> bool {
    match body {
        Err(e) => messaging::is_reply(s, server::error_text(400, "invalid JSON: "@ + e@)),
        Ok(b) => match store {
            Err(e) => messaging::is_reply(s, server::error_text(500, "read failed: "@ + e@)),
            Ok(v) => match s {
                Step::Reply(_) => false,
                Step::Save(w, saved) => {
                    &&& w@.len() == v@.len() + 1
                    &&& w@ == v@.push(w@.last())
                    &&& is_new(w@.last(), b, hex, now)
                    &&& saved@ == created_text(w@.last())
                },
            },
        },
    }
}

/// A comment after a request to update it: the status, the routing and the
/// assets where they are given, one more entry in the log where an action is,
/// and nothing else.
pub open spec fn is_changed(c: Comment, d: Comment, b: UpdateBody, now: Seq<char>) -> bool {
    &&& d.id == c.id
    &&& d.asset == c.asset
    &&& d.text == c.text
    &&& d.author == c.author
    &&& d.created_at == c.created_at
    &&& match b.status {
        Some(s) => d.status@ == s@,
        None => d.status == c.status,
    }
    &&& match b.action {
        Some(a) => {
            &&& d.action_log@.len() == c.action_log@.len() + 1
            &&& d.action_log@ == c.action_log@.push(d.action_log@.last())
            &&& d.action_log@.last().ts@ == now
            &&& d.action_log@.last().action@ == a@
        },
        None => d.action_log == c.action_log,
    }
    &&& match b.routed_to {
        Some(r) => text::texts(d.routed_to@) == text::texts(r@),
        None => d.routed_to == c.routed_to,
    }
    &&& match b.related_assets {
        Some(r) => text::texts(d.related_assets@) == text::texts(r@),
        None => d.related_assets == c.related_assets,
    }
}

/// What is sent out once a comment has been updated.
pub open spec fn updated_text(c: Comment, status: Option<Seq<char>>) -> server::SavedText {
    server::SavedText {
        notices: seq![
            server::published(
                "content.comments"@,
                "status_changed"@,
                JsonText::Object(
                    seq![
                        ("id"@, JsonText::Str(c.id@)),
                        ("status"@, json::text_or_null(status)),
                        ("related_assets"@, json::text_array(text::texts(c.related_assets@))),
                    ],
                ),
            ),
            server::emitted("hex.comment.updated"@, server::id_object(c.id@)),
        ],
        route: None,
        response: server::json_text(200, comment_json(c)),
    }
}

fn updated(c: &Comment, status: &Option<String>) -> (s: Saved)
    ensures
        s@ == updated_text(*c, json::opt_text(*status)),
{
    let mut p: Vec<(String, Json)> = Vec::new();
    json::put(&mut p, "id", json::text_value(c.id.as_str()));
    json::put(&mut p, "status", json::opt_value(status));
    json::put(&mut p, "related_assets", json::texts_value(&c.related_assets));
    proof {
        assert(json::member_texts(p@) =~= updated_text(
            *c,
            json::opt_text(*status),
        ).notices[0].payload->Object_0);
    }
    let notices = server::two(
        server::publish("content.comments", "status_changed", json::object(p)),
        server::emit("hex.comment.updated", server::id_value(c.id.as_str())),
    );
    let response = server::json_response(200, comment_value(c));
    let s = Saved { notices, route: None, response };
    proof {
        assert(s@.notices =~= updated_text(*c, json::opt_text(*status)).notices);
    }
    s
}

/// What a request to update a comment leads to: of comments with one
/// identifier the first changes, the others stay.
pub open spec fn is_update(
    s: Step<Comment>,
    body: Result<UpdateBody, String>,
    store: Result<Vec<Comment>, String>,
    now: Seq<char>,
) -> bool {
    match body {
        Err(e) => messaging::is_reply(s, server::error_text(400, "invalid JSON: "@ + e@)),
        Ok(b) => match store {
            Err(e) => messaging::is_reply(s, server::error_text(500, "read failed: "@ + e@)),
            Ok(v) => match lists::first_from(v@, with_id(b.id@), 0) {
                None => messaging::is_reply(s, server::error_text(404, "comment not found"@)),
                Some(i) => match s {
                    Step::Reply(_) => false,
                    Step::Save(w, saved) => {
                        &&& w@.len() == v@.len()
                        &&& w@ == v@.update(i, w@[i])
                        &&& is_changed(v@[i], w@[i], b, now)
                        &&& saved@ == updated_text(w@[i], json::opt_text(b.status))
                    },
                },
            },
        },
    }
}

fn change(c: Comment, b: UpdateBody, now: &str) -> (d: Comment)
    ensures
        is_changed(c, d, b, now@),
{
    let mut d = c;
    if let Some(s) = b.status {
        d.status = s;
    }
    if let Some(a) = b.action {
        let ghost before = d.action_log@;
        d.action_log.push(ActionEntry { ts: now.to_owned(), action: a });
        proof {
            assert(d.action_log@ =~= before.push(d.action_log@.last()));
        }
    }
    if let Some(r) = b.routed_to {
        d.routed_to = r;
    }
    if let Some(r) = b.related_assets {
        d.related_assets = r;
    }
    d
}

impl CommentsHandler {
    pub fn new(hex_dir: &str) -> (h: CommentsHandler)
        ensures
            h.hex_dir@ == hex_dir@,
            h.data_path@ == paths::joined(hex_dir@, ".hex/data/comments.json"@),
    {
        CommentsHandler {
            data_path: paths::join(hex_dir, ".hex/data/comments.json"),
            hex_dir: hex_dir.to_owned(),
        }
    }

    /// The script behind `/widget.js`.
    pub fn widget_path(&self) -> (r: String)
        ensures
            r@ == paths::joined(self.hex_dir@, ".hex/scripts/comments-service/widget.js"@),
    {
        paths::join(self.hex_dir.as_str(), ".hex/scripts/comments-service/widget.js")
    }

    /// The script that routes a new comment.
    pub fn route_script(&self) -> (r: String)
        ensures
            r@ == paths::joined(self.hex_dir@, ".hex/scripts/route-comment.py"@),
    {
        paths::join(self.hex_dir.as_str(), ".hex/scripts/route-comment.py")
    }

    fn list_all(store: Result<Vec<Comment>, String>) -> (r: Response)
        ensures
            r@ == everything(store),
    {
        match store {
            Ok(v) => server::json_response(200, comments_value(&v)),
            Err(e) => server::json_error(500, e.as_str()),
        }
    }

    fn list_pending(store: Result<Vec<Comment>, String>) -> (r: Response)
        ensures
            r@ == listing(store, pending_comments()),
    {
        match store {
            Ok(v) => {
                let ghost accepts = pending_comments();
                let keep = |c: &Comment| -> (b: bool)
                    ensures
                        b == accepts(*c),
                    { messaging::is_pending(c.status.as_str()) };
                let kept = lists::keep_if(v, keep, Ghost(accepts));
                server::json_response(200, comments_value(&kept))
            },
            Err(e) => server::json_error(500, e.as_str()),
        }
    }

    fn list_by_asset(store: Result<Vec<Comment>, String>, asset: Option<&str>) -> (r: Response)
        ensures
            r@ == match asset {
                Some(a) => listing(store, on_asset(a@)),
                None => everything(store),
            },
    {
        match asset {
            None => Self::list_all(store),
            Some(a) => match store {
                Ok(v) => {
                    let ghost accepts = on_asset(a@);
                    let keep = |c: &Comment| -> (b: bool)
                        ensures
                            b == accepts(*c),
                        { str_eq(c.asset.as_str(), a) };
                    let kept = lists::keep_if(v, keep, Ghost(accepts));
                    server::json_response(200, comments_value(&kept))
                },
                Err(e) => server::json_error(500, e.as_str()),
            },
        }
    }

    fn summary(store: Result<Vec<Comment>, String>) -> (r: Response)
        requires
            store is Ok ==> store->Ok_0@.len() <= i64::MAX,
        ensures
            r@ == summary_text(store),
    {
        let v = match store {
            Ok(v) => v,
            Err(e) => {
                return server::json_error(500, e.as_str());
            },
        };
        let ghost items = asset_items(v@);
        let mut counts: Vec<Count> = Vec::new();
        let mut i: usize = 0;
        proof {
            assert(items.take(0) =~= Seq::<(Seq<char>, bool)>::empty());
            assert(server::count_texts(counts@) =~= Seq::<server::CountText>::empty());
        }
        while i < v.len()
            invariant
                i <= v@.len() <= i64::MAX,
                items == asset_items(v@),
                server::counts_within(counts@, i as int),
                server::count_texts(counts@) == server::tally(items.take(i as int)),
            decreases v.len() - i,
        {
            let waits = messaging::is_pending(v[i].status.as_str());
            proof {
                assert(items.take(i + 1).drop_last() =~= items.take(i as int));
                assert(items.take(i + 1).last() == items[i as int]);
            }
            server::count_in(&mut counts, v[i].asset.as_str(), waits, Ghost(i as int));
            i += 1;
        }
        proof {
            assert(items.take(items.len() as int) =~= items);
        }
        server::json_response(200, server::counts_value(&counts))
    }

    fn create(
        body: Result<CreateBody, String>,
        store: Result<Vec<Comment>, String>,
        hex: &str,
        now: &str,
    ) -> (s: Step<Comment>)
        requires
            hex@.len() >= 8,
        ensures
            is_created(s, body, store, hex@, now@),
    {
        let b = match body {
            Ok(b) => b,
            Err(e) => {
                let mut msg = "invalid JSON: ".to_owned();
                msg.append(e.as_str());
                return Step::Reply(server::json_error(400, msg.as_str()));
            },
        };
        let mut v = match store {
            Ok(v) => v,
            Err(e) => {
                let mut msg = "read failed: ".to_owned();
                msg.append(e.as_str());
                return Step::Reply(server::json_error(500, msg.as_str()));
            },
        };
        let mut id = "c-".to_owned();
        let short = text::take_chars(hex, 8);
        id.append(short.as_str());
        proof {
            assert(short@ =~= hex@.take(8));
        }
        let c = Comment {
            id,
            asset: b.asset,
            text: b.text,
            author: b.author,
            status: "new".to_owned(),
            created_at: now.to_owned(),
            action_log: Vec::new(),
            routed_to: Vec::new(),
            related_assets: Vec::new(),
        };
        let saved = created(&c);
        v.push(c);
        Step::Save(v, saved)
    }

    fn update(
        body: Result<UpdateBody, String>,
        store: Result<Vec<Comment>, String>,
        now: &str,
    ) -> (s: Step<Comment>)
        ensures
            is_update(s, body, store, now@),
    {
        let b = match body {
            Ok(b) => b,
            Err(e) => {
                let mut msg = "invalid JSON: ".to_owned();
                msg.append(e.as_str());
                return Step::Reply(server::json_error(400, msg.as_str()));
            },
        };
        let mut v = match store {
            Ok(v) => v,
            Err(e) => {
                let mut msg = "read failed: ".to_owned();
                msg.append(e.as_str());
                return Step::Reply(server::json_error(500, msg.as_str()));
            },
        };
        let ghost accepts = with_id(b.id@);
        let id = b.id.as_str();
        let keep = |c: &Comment| -> (x: bool)
            ensures
                x == accepts(*c),
            { str_eq(c.id.as_str(), id) };
        let i = match lists::position(&v, keep, Ghost(accepts)) {
            Some(i) => i,
            None => {
                return Step::Reply(server::json_error(404, "comment not found"));
            },
        };
        let ghost before = v@;
        let status = text::copy_opt(
            match &b.status {
                Some(s) => Some(s.as_str()),
                None => None,
            },
        );
        let c = v.remove(i);
        let d = change(c, b, now);
        let saved = updated(&d, &status);
        v.insert(i, d);
        proof {
            assert(v@ =~= before.update(i as int, d));
        }
        Step::Save(v, saved)
    }

    /// What a request is answered, from what was read for it, an identifier
    /// and the time.
    pub open spec fn answers(
        self,
        s: Step<Comment>,
        req: Request,
        g: Given,
        hex: Seq<char>,
        now: Seq<char>,
    ) -> bool {
        let base = "/comments"@;
        if req.asks("GET"@, base, "/widget.js"@) {
            messaging::is_reply(s, server::widget_text(g.widget))
        } else if req.asks("GET"@, base, "/api/comments/all"@) {
            messaging::is_reply(s, everything(g.store))
        } else if req.asks("GET"@, base, "/api/comments/pending"@) {
            messaging::is_reply(s, listing(g.store, pending_comments()))
        } else if req.asks("GET"@, base, "/api/comments/summary"@) {
            messaging::is_reply(s, summary_text(g.store))
        } else if req.asks("GET"@, base, "/api/comments"@) {
            messaging::is_reply(
                s,
                match req.param("asset"@) {
                    Some(a) => listing(g.store, on_asset(a)),
                    None => everything(g.store),
                },
            )
        } else if req.asks("POST"@, base, "/api/comments"@) {
            is_created(s, g.create, g.store, hex, now)
        } else if req.asks("POST"@, base, "/api/comments/update"@) {
            is_update(s, g.update, g.store, now)
        } else {
            messaging::is_reply(s, server::error_text(404, "comments endpoint not found"@))
        }
    }

    /// Answers a request with a given identifier at a given time.
    pub fn handle_at(&self, req: &Request, given: Given, hex: &str, now: &str) -> (s: Step<Comment>)
        requires
            hex@.len() >= 8,
            given.store is Ok ==> given.store->Ok_0@.len() <= i64::MAX,
        ensures
            self.answers(s, *req, given, hex@, now@),
    {
        let base = "/comments";
        if req.is_for("GET", base, "/widget.js") {
            Step::Reply(server::widget_response(given.widget))
        } else if req.is_for("GET", base, "/api/comments/all") {
            Step::Reply(Self::list_all(given.store))
        } else if req.is_for("GET", base, "/api/comments/pending") {
            Step::Reply(Self::list_pending(given.store))
        } else if req.is_for("GET", base, "/api/comments/summary") {
            Step::Reply(Self::summary(given.store))
        } else if req.is_for("GET", base, "/api/comments") {
            Step::Reply(Self::list_by_asset(given.store, req.get("asset")))
        } else if req.is_for("POST", base, "/api/comments") {
            Self::create(given.create, given.store, hex, now)
        } else if req.is_for("POST", base, "/api/comments/update") {
            Self::update(given.update, given.store, now)
        } else {
            Step::Reply(server::json_error(404, "comments endpoint not found"))
        }
    }

    /// Answers a request. A new comment gets a fresh identifier and, as an
    /// entry in a log does, the present time.
    pub fn handle(&self, req: &Request, given: Given) -> (s: Step<Comment>)
        requires
            given.store is Ok ==> given.store->Ok_0@.len() <= i64::MAX,
        ensures
            exists|hex: Seq<char>, now: Seq<char>|
                stamp::hex_digits(hex) && #[trigger] self.answers(s, *req, given, hex, now),
    {
        let hex = stamp::fresh_hex();
        let now = stamp::now_text();
        self.handle_at(req, given, hex.as_str(), now.as_str())
    }
}

// ── Laws ─────────────────────────────────────────────────────────────────────
/// Whether `w` holds what `v` does in every place but `i`.
pub open spec fn same_but(w: Seq<Comment>, v: Seq<Comment>, i: int) -> bool {
    w.len() >= v.len() && forall|k: int| 0 <= k < v.len() && k != i ==> w[k] == #[trigger] v[k]
}

/// Only an accepted creation or update asks for a write, and it keeps every
/// comment but the one that it is about.
pub proof fn law_writes_keep_the_rest(
    h: CommentsHandler,
    s: Step<Comment>,
    req: Request,
    g: Given,
    hex: Seq<char>,
    now: Seq<char>,
)
    requires
        h.answers(s, req, g, hex, now),
        s is Save,
    ensures
        req.method@ == "POST"@,
        g.store is Ok,
        exists|i: int| same_but(s->Save_0@, g.store->Ok_0@, i),
{
    let w = s->Save_0@;
    let v = g.store->Ok_0@;
    if req.asks("POST"@, "/comments"@, "/api/comments"@) {
        assert(same_but(w, v, v.len() as int));
    } else {
        lists::lemma_first_from(v, with_id(g.update->Ok_0.id@), 0);
        assert(same_but(w, v, lists::first_from(v, with_id(g.update->Ok_0.id@), 0)->0));
    }
}

/// A comment that has just been created stands last in the store and in the
/// list of those that still ask for something, behind all that stood there
/// before.
pub proof fn law_created_is_pending(
    s: Step<Comment>,
    body: Result<CreateBody, String>,
    store: Result<Vec<Comment>, String>,
    hex: Seq<char>,
    now: Seq<char>,
)
    requires
        is_created(s, body, store, hex, now),
        s is Save,
    ensures
        store is Ok,
        s->Save_0@.drop_last() == store->Ok_0@,
        s->Save_0@.filter(pending_comments()) == store->Ok_0@.filter(pending_comments()).push(
            s->Save_0@.last(),
        ),
{
    let w = s->Save_0@;
    let v = store->Ok_0@;
    assert(w.drop_last() =~= v);
    assert(pending_comments()(w.last()));
    reveal(Seq::filter);
}

/// Whether a count is that of the stored comments on its asset, and of those of them
/// that still ask for something.
pub open spec fn is_count_in(c: server::CountText, v: Seq<Comment>) -> bool {
    &&& c.total == v.filter(on_asset(c.name)).len()
    &&& c.pending == v.filter(on_asset(c.name)).filter(pending_comments()).len()
    &&& c.total > 0
}

/// Whether counts are those of stored comments, each under its name, and together
/// all of them.
pub open spec fn sums_up(counts: Seq<server::CountText>, v: Seq<Comment>) -> bool {
    &&& server::distinct_names(counts)
    &&& forall|i: int|
        0 <= i < v.len() ==> server::has_count(counts, (#[trigger] v[i]).asset@)
    &&& forall|k: int|
        0 <= k < counts.len() ==> is_count_in(#[trigger] counts[k], v)
    &&& server::sum_of_totals(counts) == v.len()
    &&& server::sum_of_pending(counts) == v.filter(pending_comments()).len()
}

/// The summary adds up: it is answered without a write, each asset of a stored
/// comment stands in it once with the number of its comments and of those that
/// still ask for something, its totals together are all comments and its pending
/// ones together are the list of those that still ask for something.
pub proof fn law_summary_adds_up(
    h: CommentsHandler,
    s: Step<Comment>,
    req: Request,
    g: Given,
    hex: Seq<char>,
    now: Seq<char>,
)
    requires
        h.answers(s, req, g, hex, now),
        req.asks("GET"@, "/comments"@, "/api/comments/summary"@),
        g.store is Ok,
    ensures
        messaging::is_reply(
            s,
            server::json_text(
                200,
                server::counts_object(server::tally(asset_items(g.store->Ok_0@))),
            ),
        ),
        sums_up(server::tally(asset_items(g.store->Ok_0@)), g.store->Ok_0@),
{
    let v = g.store->Ok_0@;
    let items = asset_items(v);
    let counts = server::tally(items);
    let f = |c: Comment| (c.asset@, messaging::pending(c.status@));
    reveal_strlit("/widget.js");
    reveal_strlit("/api/comments/all");
    reveal_strlit("/api/comments/pending");
    reveal_strlit("/api/comments/summary");
    assert("/widget.js"@.len() != "/api/comments/summary"@.len());
    assert("/api/comments/all"@.len() != "/api/comments/summary"@.len());
    assert("/api/comments/pending"@[14] != "/api/comments/summary"@[14]);
    assert(messaging::is_reply(s, summary_text(g.store)));
    server::law_counts_add_up(items);
    assert(items == v.map_values(f));
    lists::lemma_filter_map(v, f, pending_comments(), server::waits());
    assert forall|i: int| 0 <= i < v.len() implies server::has_count(
        counts,
        (#[trigger] v[i]).asset@,
    ) by {
        assert(items[i].0 == v[i].asset@);
    }
    assert forall|k: int| 0 <= k < counts.len() implies is_count_in(#[trigger] counts[k], v) by {
        let name = counts[k].name;
        assert(server::is_count_of(counts[k], items));
        lists::lemma_filter_map(v, f, on_asset(name), server::is_under(name));
        lists::lemma_filter_map(v.filter(on_asset(name)), f, pending_comments(), server::waits());
    }
}

proof fn lemma_paths(req: Request, path: Seq<char>)
    requires
        req.path@ == "/comments"@ + path,
    ensures
        forall|method: Seq<char>, p: Seq<char>| #[trigger]
            req.asks(method, "/comments"@, p) == (req.method@ == method && p == path),
{
    let base = "/comments"@;
    let n = base.len() as int;
    assert(req.path@.subrange(0, n) =~= base);
    assert(text::starts_with(req.path@, base));
    assert(req.path@.skip(n) =~= path);
}

/// A list of comments is answered with those on the asset that the query asks for, or
/// with all where it names none; the pending list with those whose status is `new` or
/// `seen`: each time all of them and no others, in their order.
pub proof fn law_a_list_is_answered(
    h: CommentsHandler,
    s: Step<Comment>,
    req: Request,
    g: Given,
    hex: Seq<char>,
    now: Seq<char>,
)
    requires
        h.answers(s, req, g, hex, now),
        req.method@ == "GET"@,
        g.store is Ok,
    ensures
        req.path@ == "/comments"@ + "/api/comments"@ ==> exists|kept: Seq<Comment>| #[trigger]
            messaging::is_reply(s, server::json_text(200, comments_json(kept)))
                && lists::is_choice(
                kept,
                g.store->Ok_0@,
                |c: Comment|
                    req.param("asset"@) is Some ==> c.asset@ == req.param("asset"@)->0,
            ),
        req.path@ == "/comments"@ + "/api/comments/pending"@ ==> exists|kept: Seq<Comment>| #[trigger]
            messaging::is_reply(s, server::json_text(200, comments_json(kept)))
                && lists::is_choice(
                kept,
                g.store->Ok_0@,
                |c: Comment| c.status@ == "new"@ || c.status@ == "seen"@,
            ),
        req.path@ == "/comments"@ + "/api/comments/all"@ ==> messaging::is_reply(
            s,
            server::json_text(200, comments_json(g.store->Ok_0@)),
        ),
{
    reveal_strlit("/widget.js");
    reveal_strlit("/api/comments");
    reveal_strlit("/api/comments/all");
    reveal_strlit("/api/comments/pending");
    reveal_strlit("/api/comments/summary");
    assert("/widget.js"@.len() == 10 && "/api/comments"@.len() == 13);
    assert("/api/comments/all"@.len() == 17 && "/api/comments/pending"@.len() == 21);
    assert("/api/comments/summary"@.len() == 21);
    let v = g.store->Ok_0@;
    if req.path@ == "/comments"@ + "/api/comments"@ {
        lemma_paths(req, "/api/comments"@);
        let holds = |c: Comment|
            req.param("asset"@) is Some ==> c.asset@ == req.param("asset"@)->0;
        if req.param("asset"@) is Some {
            let kept = v.filter(on_asset(req.param("asset"@)->0));
            lists::lemma_filter_is_choice(v, on_asset(req.param("asset"@)->0), holds);
            assert(messaging::is_reply(s, server::json_text(200, comments_json(kept))));
        } else {
            let at = Seq::new(v.len(), |i: int| i);
            assert forall|i: int| 0 <= i < v.len() implies #[trigger] at.contains(i) == holds(
                v[i],
            ) by {
                assert(at[i] == i);
            }
            assert(lists::stands_at(v, v, at));
            assert(messaging::is_reply(s, server::json_text(200, comments_json(v))));
        }
    }
    if req.path@ == "/comments"@ + "/api/comments/pending"@ {
        lemma_paths(req, "/api/comments/pending"@);
        let kept = v.filter(pending_comments());
        lists::lemma_filter_is_choice(
            v,
            pending_comments(),
            |c: Comment| c.status@ == "new"@ || c.status@ == "seen"@,
        );
        assert(messaging::is_reply(s, server::json_text(200, comments_json(kept))));
    }
    if req.path@ == "/comments"@ + "/api/comments/all"@ {
        lemma_paths(req, "/api/comments/all"@);
    }
}

/// An answer shows a comment with all its fields, each under its name.
pub proof fn law_comment_json(c: Comment, v: Seq<Comment>, k: int)
    requires
        0 <= k < v.len(),
    ensures
        comment_json(c)->Object_0.len() == 9,
        comment_json(c)->Object_0.contains(("id"@, JsonText::Str(c.id@))),
        comment_json(c)->Object_0.contains(("asset"@, JsonText::Str(c.asset@))),
        comment_json(c)->Object_0.contains(("text"@, JsonText::Str(c.text@))),
        comment_json(c)->Object_0.contains(("author"@, JsonText::Str(c.author@))),
        comment_json(c)->Object_0.contains(("status"@, JsonText::Str(c.status@))),
        comment_json(c)->Object_0.contains(("created_at"@, JsonText::Str(c.created_at@))),
        comment_json(c)->Object_0.contains(
            ("routed_to"@, json::text_array(text::texts(c.routed_to@))),
        ),
        comment_json(c)->Object_0.contains(
            ("related_assets"@, json::text_array(text::texts(c.related_assets@))),
        ),
        comments_json(v)->Array_0.len() == v.len(),
        comments_json(v)->Array_0[k] == comment_json(v[k]),
{
    let o = comment_json(c)->Object_0;
    assert(o[0].0 == "id"@ && o[1].0 == "asset"@ && o[2].0 == "text"@ && o[3].0 == "author"@);
    assert(o[4].0 == "status"@ && o[5].0 == "created_at"@ && o[6].0 == "action_log"@);
    assert(o[7].0 == "routed_to"@ && o[8].0 == "related_assets"@);
}

/// Whether the first comment with an identifier stands at `i`.
pub open spec fn is_first_with(v: Seq<Comment>, id: Seq<char>, i: int) -> bool {
    &&& 0 <= i < v.len()
    &&& v[i].id@ == id
    &&& forall|j: int| 0 <= j < i ==> (#[trigger] v[j]).id@ != id
}

/// Whether an update changed a comment as asked: what is given is set, an action is put
/// at the end of its log, and the rest stays.
pub open spec fn is_updated_comment(c: Comment, d: Comment, b: UpdateBody, now: Seq<char>) -> bool {
    &&& d.id == c.id && d.asset == c.asset && d.text == c.text && d.author == c.author
        && d.created_at == c.created_at
    &&& b.status is Some ==> d.status@ == b.status->0@
    &&& b.status is None ==> d.status == c.status
    &&& b.routed_to is Some ==> text::texts(d.routed_to@) == text::texts(b.routed_to->0@)
    &&& b.routed_to is None ==> d.routed_to == c.routed_to
    &&& b.related_assets is Some ==> text::texts(d.related_assets@) == text::texts(
        b.related_assets->0@,
    )
    &&& b.related_assets is None ==> d.related_assets == c.related_assets
    &&& b.action is None ==> d.action_log == c.action_log
    &&& b.action is Some ==> d.action_log@.drop_last() == c.action_log@ && d.action_log@.len() > 0
        && d.action_log@.last().ts@ == now && d.action_log@.last().action@ == b.action->0@
}

/// An update changes the first comment that has the identifier, as asked, and no
/// other; where none has it, the answer is 404 and nothing is written.
pub proof fn law_an_update_changes_one_comment(
    h: CommentsHandler,
    s: Step<Comment>,
    req: Request,
    g: Given,
    hex: Seq<char>,
    now: Seq<char>,
)
    requires
        h.answers(s, req, g, hex, now),
        req.method@ == "POST"@,
        req.path@ == "/comments"@ + "/api/comments/update"@,
        g.store is Ok,
        g.update is Ok,
    ensures
        (s is Save) == (exists|i: int|
            0 <= i < g.store->Ok_0@.len() && (#[trigger] g.store->Ok_0@[i]).id@
                == g.update->Ok_0.id@),
        s is Reply ==> messaging::is_reply(s, server::error_text(404, "comment not found"@)),
        s is Save ==> exists|i: int|
            same_but(s->Save_0@, g.store->Ok_0@, i) && s->Save_0@.len() == g.store->Ok_0@.len()
                && #[trigger] is_first_with(g.store->Ok_0@, g.update->Ok_0.id@, i)
                && is_updated_comment(g.store->Ok_0@[i], s->Save_0@[i], g.update->Ok_0, now),
{
    lemma_paths(req, "/api/comments/update"@);
    reveal_strlit("GET");
    reveal_strlit("POST");
    reveal_strlit("/api/comments");
    reveal_strlit("/api/comments/update");
    assert("GET"@.len() == 3 && "POST"@.len() == 4);
    assert("/api/comments"@.len() == 13 && "/api/comments/update"@.len() == 20);
    let v = g.store->Ok_0@;
    let id = g.update->Ok_0.id@;
    lists::lemma_first_from(v, with_id(id), 0);
    assert(is_update(s, g.update, g.store, now));
    if let Some(i) = lists::first_from(v, with_id(id), 0) {
        let w = s->Save_0@;
        assert forall|j: int| 0 <= j < i implies (#[trigger] v[j]).id@ != id by {
            assert(!with_id(id)(v[j]));
        }
        assert(is_first_with(v, id, i));
        assert(same_but(w, v, i));
        if g.update->Ok_0.action is Some {
            assert(w[i].action_log@.drop_last() =~= v[i].action_log@);
        }
        assert(is_updated_comment(v[i], w[i], g.update->Ok_0, now));
    } else {
        assert forall|i: int| 0 <= i < v.len() implies (#[trigger] v[i]).id@ != id by {
            assert(!with_id(id)(v[i]));
        }
    }
}

/// A created comment has the fields that were asked for, is new, has nothing in its
/// lists and an identifier of `c-` and eight digits; it goes to routing.
pub proof fn law_a_created_comment(
    h: CommentsHandler,
    s: Step<Comment>,
    req: Request,
    g: Given,
    hex: Seq<char>,
    now: Seq<char>,
)
    requires
        h.answers(s, req, g, hex, now),
        req.method@ == "POST"@,
        req.path@ == "/comments"@ + "/api/comments"@,
        g.store is Ok,
        g.create is Ok,
        hex.len() >= 8,
    ensures
        s is Save,
        s->Save_0@.len() == g.store->Ok_0@.len() + 1,
        s->Save_0@.drop_last() == g.store->Ok_0@,
        s->Save_0@.last().id@.take(2) == "c-"@,
        s->Save_0@.last().id@.skip(2) == hex.take(8),
        s->Save_0@.last().asset@ == g.create->Ok_0.asset@,
        s->Save_0@.last().text@ == g.create->Ok_0.text@,
        s->Save_0@.last().author@ == g.create->Ok_0.author@,
        s->Save_0@.last().status@ == "new"@,
        s->Save_0@.last().created_at@ == now,
        s->Save_0@.last().action_log@.len() == 0,
        s->Save_0@.last().routed_to@.len() == 0,
        s->Save_0@.last().related_assets@.len() == 0,
        json::opt_text(s->Save_1.route) == Some(s->Save_0@.last().id@),
        s->Save_1.response@.status == 201,
        s->Save_1.response@.body == server::BodyText::Json(comment_json(s->Save_0@.last())),
{
    lemma_paths(req, "/api/comments"@);
    reveal_strlit("GET");
    reveal_strlit("POST");
    reveal_strlit("c-");
    assert("GET"@.len() == 3 && "POST"@.len() == 4);
    assert(is_created(s, g.create, g.store, hex, now));
    let c = s->Save_0@.last();
    assert(s->Save_0@.drop_last() =~= g.store->Ok_0@);
    assert(c.id@ == "c-"@ + hex.take(8));
    assert(c.id@.take(2) =~= "c-"@);
    assert(c.id@.skip(2) =~= hex.take(8));
}

} // verus!
