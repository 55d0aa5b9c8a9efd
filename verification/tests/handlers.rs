use hex_harness::assets::{self, Asset, AssetsHandler, RegisterBody};
use hex_harness::comments::{self, Comment, CommentsHandler};
use hex_harness::json::Json;
use hex_harness::messaging::{
    self, inbox_agent, inbox_line, is_pending, migrate_if_needed, migration_result, short_id, Inbox,
    InboxMessage, Message, MessageType, MessagingHandler,
};
use hex_harness::server::{Body, Request, Response, Step};
use serde_json::Value;

fn s(v: &str) -> String {
    v.to_string()
}

fn value(j: &Json) -> Value {
    match j {
        Json::Null => Value::Null,
        Json::Bool(b) => Value::Bool(*b),
        Json::Int(n) => Value::from(*n),
        Json::Number(t) => serde_json::from_str(t).unwrap(),
        Json::Str(t) => Value::String(t.clone()),
        Json::Array(v) => Value::Array(v.iter().map(value).collect()),
        Json::Object(v) => Value::Object(v.iter().map(|(k, x)| (k.clone(), value(x))).collect()),
    }
}

fn body(r: &Response) -> Value {
    match &r.body {
        Body::Json(j) => value(j),
        Body::Bytes(_) => panic!("no JSON"),
    }
}

fn reply<T>(step: Step<T>) -> Response {
    match step {
        Step::Reply(r) => r,
        Step::Save(..) => panic!("a reply was expected"),
    }
}

fn request(method: &str, path: &str, query: &[(&str, &str)]) -> Request {
    Request {
        method: s(method),
        path: s(path),
        query: query.iter().map(|(k, v)| (s(k), s(v))).collect(),
    }
}

fn get(path: &str) -> Request {
    request("GET", path, &[])
}

const HEX: &str = "0123456789abcdef0123456789abcdef";
const NOW: &str = "2026-01-01T00:00:00+00:00";

// ── Assets ───────────────────────────────────────────────────────────────────

fn asset(id: &str, kind: &str, title: &str, owner: &str) -> Asset {
    Asset {
        id: s(id),
        kind: s(kind),
        local_id: s(id.split(':').nth(1).unwrap_or(id)),
        title: s(title),
        path: None,
        url: None,
        owner: s(owner),
        registered_at: s(NOW),
        metadata: Vec::new(),
    }
}

fn assets_given(store: Vec<Asset>) -> assets::Given {
    assets::Given { store: Ok(store), register: Err(s("none")) }
}

fn body_for(kind: &str, local_id: &str, title: &str) -> RegisterBody {
    RegisterBody {
        kind: s(kind),
        local_id: s(local_id),
        title: s(title),
        path: None,
        url: None,
        owner: s("brand"),
        metadata: vec![(s("n"), Json::Int(7))],
    }
}

#[test]
fn resolve_existing_asset() {
    let h = AssetsHandler::new("/h");
    let given = assets_given(vec![asset("post:P-001", "post", "Test Post", "brand")]);
    let resp = reply(h.handle(&get("/assets/resolve/post:P-001"), given));
    assert_eq!(resp.status, 200);
    assert_eq!(body(&resp)["id"], "post:P-001");
    assert_eq!(body(&resp)["type"], "post");
}

#[test]
fn resolve_missing_asset_returns_404() {
    let h = AssetsHandler::new("/h");
    let resp = reply(h.handle(&get("/assets/resolve/post:P-999"), assets_given(Vec::new())));
    assert_eq!(resp.status, 404);
    assert_eq!(body(&resp)["error"], "asset not found: post:P-999");
}

#[test]
fn list_filters_by_type() {
    let h = AssetsHandler::new("/h");
    let given = assets_given(vec![
        asset("post:P-001", "post", "Post 1", "brand"),
        asset("image:I-001", "image", "Image 1", "brand"),
        asset("post:P-002", "post", "Post 2", "brand"),
    ]);
    let resp = reply(h.handle(&request("GET", "/assets/list", &[("type", "post")]), given));
    assert_eq!(resp.status, 200);
    let val = body(&resp);
    let val = val.as_array().unwrap();
    assert_eq!(val.len(), 2);
    assert!(val.iter().all(|a| a["type"] == "post"));
}

#[test]
fn types_returns_counts() {
    let h = AssetsHandler::new("/h");
    let given = assets_given(vec![
        asset("post:P-001", "post", "Post 1", "brand"),
        asset("post:P-002", "post", "Post 2", "brand"),
        asset("image:I-001", "image", "Image 1", "brand"),
    ]);
    let resp = reply(h.handle(&get("/assets/types"), given));
    assert_eq!(resp.status, 200);
    let val = body(&resp);
    let post_entry = val.as_array().unwrap().iter().find(|v| v["type"] == "post").unwrap().clone();
    assert_eq!(post_entry["count"], 2);
}

#[test]
fn search_matches_title() {
    let h = AssetsHandler::new("/h");
    let store = || {
        vec![
            asset("post:P-001", "post", "Hello World", "brand"),
            asset("post:P-002", "post", "Goodbye World", "brand"),
        ]
    };
    let resp = reply(h.handle(&request("GET", "/assets/search", &[("q", "hello")]), assets_given(store())));
    assert_eq!(resp.status, 200);
    let val = body(&resp);
    assert_eq!(val.as_array().unwrap().len(), 1);
    assert_eq!(val[0]["id"], "post:P-001");
    let resp = reply(h.handle(&get("/assets/search"), assets_given(store())));
    assert_eq!((resp.status, body(&resp)["error"].clone()), (400, Value::from("query parameter 'q' is required")));
}

#[test]
fn assets_read_write_roundtrip() {
    // What is handed over to be stored is what is read back from it.
    let h = AssetsHandler::new("/h");
    assert_eq!(h.data_path, "/h/.hex/data/assets.json");
    let (stored, _) = h.cli_register_at("post", "P-001", "Test Post", None, Ok(Vec::new()), NOW).unwrap();
    assert_eq!(stored.len(), 1);
    let shown = h.cli_resolve("post:P-001", Ok(stored)).unwrap();
    assert_eq!(value(&shown)["id"], "post:P-001");
}

#[test]
fn a_registered_asset_resolves_and_replaces_its_namesake() {
    let h = AssetsHandler::new("/h");
    let req = request("POST", "/assets/register", &[]);
    let given = assets::Given {
        store: Ok(vec![asset("post:P-001", "post", "Old", "brand"), asset("post:P-002", "post", "Other", "brand")]),
        register: Ok(body_for("post", "P-001", "New")),
    };
    match h.handle_at(&req, given, NOW) {
        Step::Save(w, saved) => {
            assert_eq!(w.len(), 2);
            assert_eq!((w[0].title.as_str(), w[0].registered_at.as_str()), ("New", NOW));
            assert_eq!(w[1].title, "Other");
            assert_eq!(saved.response.status, 200);
            assert_eq!(body(&saved.response)["metadata"]["n"], 7);
            assert_eq!(saved.notices[0].topic.as_deref(), Some("content.assets"));
            assert_eq!(saved.notices[1].event, "hex.asset.registered");
            assert!(saved.route.is_none());
            let failed = saved.finish(Err(s("disk full")));
            assert_eq!(failed.response.status, 500);
            assert_eq!(body(&failed.response)["error"], "write failed: disk full");
            assert!(failed.notices.is_empty());
        }
        Step::Reply(_) => panic!("a store was expected"),
    }
    let given = assets::Given { store: Ok(Vec::new()), register: Err(s("eof")) };
    let r = reply(h.handle_at(&req, given, NOW));
    assert_eq!((r.status, body(&r)["error"].clone()), (400, Value::from("invalid JSON: eof")));
    let given = assets::Given { store: Err(s("torn")), register: Ok(body_for("a", "b", "c")) };
    let r = reply(h.handle_at(&req, given, NOW));
    assert_eq!((r.status, body(&r)["error"].clone()), (500, Value::from("read failed: torn")));
    let r = reply(h.handle(&get("/assets/nope"), assets_given(Vec::new())));
    assert_eq!((r.status, body(&r)["error"].clone()), (404, Value::from("assets endpoint not found")));
}

#[test]
fn assets_on_the_command_line() {
    let h = AssetsHandler::new("/h");
    let store = || Ok(vec![asset("b:1", "b", "One", "me"), asset("a:1", "a", "Two", "me"), asset("b:2", "b", "Three", "me")]);
    assert_eq!(value(&h.cli_list(Some("b"), store()).unwrap()).as_array().unwrap().len(), 2);
    assert_eq!(value(&h.cli_list(None, store()).unwrap()).as_array().unwrap().len(), 3);
    assert_eq!(value(&h.cli_search("tWo", store()).unwrap())[0]["id"], "a:1");
    assert_eq!(h.cli_types(store()).unwrap(), vec![s("b: 2"), s("a: 1")]);
    assert!(h.cli_resolve("z:9", store()).is_err());
    assert_eq!(
        h.cli_register_at("a", "1", "t", None, Err(s("torn")), NOW).err(),
        Some(s("ERROR reading assets: torn"))
    );
    // The clock gives the time of a registration.
    let (w, _) = h.cli_register("a", "9", "t", Some("/p"), Ok(Vec::new())).unwrap();
    assert!(chrono::DateTime::parse_from_rfc3339(&w[0].registered_at).is_ok());
    assert_eq!(w[0].path.as_deref(), Some("/p"));
}

// ── Comments ─────────────────────────────────────────────────────────────────

fn comment(id: &str, asset: &str, status: &str) -> Comment {
    Comment {
        id: s(id),
        asset: s(asset),
        text: s("test text"),
        author: s("mike"),
        status: s(status),
        created_at: s(NOW),
        action_log: Vec::new(),
        routed_to: Vec::new(),
        related_assets: Vec::new(),
    }
}

fn comments_given(store: Vec<Comment>) -> comments::Given {
    comments::Given { widget: None, store: Ok(store), create: Err(s("none")), update: Err(s("none")) }
}

#[test]
fn comments_list_pending_filters_status() {
    let h = CommentsHandler::new("/h");
    let given = comments_given(vec![
        comment("c-001", "a", "new"),
        comment("c-002", "b", "seen"),
        comment("c-003", "c", "acknowledged"),
    ]);
    let resp = reply(h.handle(&get("/comments/api/comments/pending"), given));
    assert_eq!(resp.status, 200);
    assert_eq!(body(&resp).as_array().unwrap().len(), 2);
}

#[test]
fn list_by_asset_filters() {
    let h = CommentsHandler::new("/h");
    let given = comments_given(vec![comment("c-001", "post:P-001", "new"), comment("c-002", "social", "new")]);
    let resp = reply(h.handle(&request("GET", "/comments/api/comments", &[("asset", "post:P-001")]), given));
    assert_eq!(resp.status, 200);
    let val = body(&resp);
    assert_eq!(val.as_array().unwrap().len(), 1);
    assert_eq!(val[0]["asset"], "post:P-001");
}

#[test]
fn summary_groups_by_surface() {
    let h = CommentsHandler::new("/h");
    let given = comments_given(vec![
        comment("c-001", "post:P-001", "new"),
        comment("c-002", "post:P-001", "acknowledged"),
        comment("c-003", "social", "seen"),
    ]);
    let resp = reply(h.handle(&get("/comments/api/comments/summary"), given));
    assert_eq!(resp.status, 200);
    let val = body(&resp);
    assert_eq!(val["post:P-001"]["total"], 2);
    assert_eq!(val["post:P-001"]["pending"], 1);
    assert_eq!(val["social"]["pending"], 1);
}

#[test]
fn the_comment_summary_adds_up() {
    let h = CommentsHandler::new("/h");
    let held = || {
        comments_given(vec![
            comment("c-1", "a", "new"),
            comment("c-2", "b", "done"),
            comment("c-3", "a", "seen"),
            comment("c-4", "b", "new"),
            comment("c-5", "c", "done"),
        ])
    };
    let summary = body(&reply(h.handle(&get("/comments/api/comments/summary"), held())));
    let pending = body(&reply(h.handle(&get("/comments/api/comments/pending"), held())));
    let counts = summary.as_object().unwrap();
    let sum = |key: &str| counts.values().map(|c| c[key].as_u64().unwrap()).sum::<u64>();
    assert_eq!(counts.len(), 3);
    assert_eq!(sum("total"), 5);
    assert_eq!(sum("pending"), 3);
    assert_eq!(pending.as_array().unwrap().len(), 3);
}

#[test]
fn comments_read_write_roundtrip() {
    let h = CommentsHandler::new("/h");
    assert_eq!(h.data_path, "/h/.hex/data/comments.json");
    let given = comments_given(vec![comment("c-001", "post:P-001", "new")]);
    let read = body(&reply(h.handle(&get("/comments/api/comments/all"), given)));
    assert_eq!(read.as_array().unwrap().len(), 1);
    assert_eq!(read[0]["id"], "c-001");
}

#[test]
fn a_comment_is_created_routed_and_updated() {
    let h = CommentsHandler::new("/h");
    let mut given = comments_given(vec![comment("c-001", "a", "new")]);
    given.create = Ok(comments::CreateBody { text: s("hi"), asset: s("b"), author: s(comments::default_author()) });
    let w = match h.handle_at(&request("POST", "/comments/api/comments", &[]), given, HEX, NOW) {
        Step::Save(w, saved) => {
            assert_eq!(saved.response.status, 201);
            assert_eq!(saved.route.as_deref(), Some("c-01234567"));
            assert_eq!(saved.notices[0].event, "created");
            assert_eq!(saved.notices[1].event, "hex.comment.created");
            w
        }
        Step::Reply(_) => panic!("a store was expected"),
    };
    assert_eq!((w.len(), w[1].id.as_str(), w[1].status.as_str()), (2, "c-01234567", "new"));
    let mut given = comments_given(w);
    given.update = Ok(comments::UpdateBody {
        id: s("c-01234567"),
        status: Some(s("seen")),
        action: Some(s("looked")),
        routed_to: None,
        related_assets: Some(vec![s("x")]),
    });
    match h.handle_at(&request("POST", "/comments/api/comments/update", &[]), given, HEX, NOW) {
        Step::Save(w, saved) => {
            assert_eq!((w[0].status.as_str(), w[1].status.as_str()), ("new", "seen"));
            assert_eq!(w[1].action_log[0].action, "looked");
            assert_eq!(w[1].related_assets, vec![s("x")]);
            assert_eq!(saved.response.status, 200);
            assert!(saved.route.is_none());
        }
        Step::Reply(_) => panic!("a store was expected"),
    }
    let mut given = comments_given(Vec::new());
    given.update = Ok(comments::UpdateBody { id: s("c-9"), status: None, action: None, routed_to: None, related_assets: None });
    let r = reply(h.handle(&request("POST", "/comments/api/comments/update", &[]), given));
    assert_eq!((r.status, body(&r)["error"].clone()), (404, Value::from("comment not found")));
    let r = reply(h.handle(&request("POST", "/comments/api/comments", &[]), comments_given(Vec::new())));
    assert_eq!((r.status, body(&r)["error"].clone()), (400, Value::from("invalid JSON: none")));
}

#[test]
fn a_new_comment_gets_a_fresh_identifier() {
    let h = CommentsHandler::new("/h");
    let create = || {
        let mut given = comments_given(Vec::new());
        given.create = Ok(comments::CreateBody { text: s("hi"), asset: s(""), author: s("me") });
        match h.handle(&request("POST", "/comments/api/comments", &[]), given) {
            Step::Save(w, _) => w,
            Step::Reply(_) => panic!("a store was expected"),
        }
    };
    let (a, b) = (create(), create());
    assert_ne!(a[0].id, b[0].id);
    assert_eq!(a[0].id.len(), 10);
    assert!(a[0].id[2..].chars().all(|c| c.is_ascii_hexdigit()));
    assert!(chrono::DateTime::parse_from_rfc3339(&a[0].created_at).is_ok());
}

// ── Messages ─────────────────────────────────────────────────────────────────

fn message(id: &str, msg_type: MessageType, from: &str, status: &str) -> Message {
    Message {
        id: s(id),
        msg_type,
        from: s(from),
        to: vec![s("brand")],
        content: s("test content"),
        anchor: None,
        status: s(status),
        created_at: s(NOW),
        action_log: Vec::new(),
        routed_to: Vec::new(),
    }
}

fn messages_given(store: Vec<Message>) -> messaging::Given {
    messaging::Given { widget: None, store: Ok(store), create: Err(s("none")), update: Err(s("none")) }
}

#[test]
fn messaging_list_pending_filters_status() {
    let h = MessagingHandler::new("/h");
    let given = messages_given(vec![
        message("M001", MessageType::Agent, "mike", "new"),
        message("M002", MessageType::Comment, "mike", "seen"),
        message("M003", MessageType::Agent, "brand", "done"),
    ]);
    let resp = reply(h.handle(&get("/messages/api/messages/pending"), given));
    assert_eq!(resp.status, 200);
    assert_eq!(body(&resp).as_array().unwrap().len(), 2);
    assert!(is_pending("new") && is_pending("seen") && !is_pending("done"));
}

#[test]
fn list_filtered_by_type() {
    let h = MessagingHandler::new("/h");
    let given = messages_given(vec![
        message("M001", MessageType::Agent, "mike", "new"),
        message("M002", MessageType::Comment, "mike", "new"),
        message("M003", MessageType::Notification, "system", "new"),
    ]);
    let resp = reply(h.handle(&request("GET", "/messages/api/messages", &[("type", "comment")]), given));
    assert_eq!(resp.status, 200);
    let val = body(&resp);
    assert_eq!(val.as_array().unwrap().len(), 1);
    assert_eq!(val[0]["msg_type"], "comment");
}

#[test]
fn summary_groups_by_type() {
    let h = MessagingHandler::new("/h");
    let given = messages_given(vec![
        message("M001", MessageType::Agent, "mike", "new"),
        message("M002", MessageType::Agent, "mike", "done"),
        message("M003", MessageType::Comment, "mike", "new"),
    ]);
    let resp = reply(h.handle(&get("/messages/api/messages/summary"), given));
    assert_eq!(resp.status, 200);
    let val = body(&resp);
    assert_eq!(val["agent"]["total"], 2);
    assert_eq!(val["agent"]["pending"], 1);
    assert_eq!(val["comment"]["total"], 1);
    assert_eq!(val["comment"]["pending"], 1);
    let counts = val.as_object().unwrap();
    let sum = |key: &str| counts.values().map(|c| c[key].as_u64().unwrap()).sum::<u64>();
    assert_eq!((sum("total"), sum("pending")), (3, 2));
}

#[test]
fn message_type_serde_roundtrip() {
    let mt = MessageType::Comment;
    let json = serde_json::to_string(mt.name()).unwrap();
    assert_eq!(json, "\"comment\"");
    let name: String = serde_json::from_str(&json).unwrap();
    assert_eq!(MessageType::parse(&name), Ok(MessageType::Comment));
    for t in [MessageType::Comment, MessageType::Agent, MessageType::Notification] {
        assert_eq!(MessageType::parse(t.name()), Ok(t));
    }
    assert!(MessageType::parse("letter").is_err());
}

#[test]
fn messaging_read_write_roundtrip() {
    let h = MessagingHandler::new("/h");
    assert_eq!(h.data_path, "/h/.hex/data/messages.json");
    let given = messages_given(vec![message("M001", MessageType::Agent, "mike", "new")]);
    let read = body(&reply(h.handle(&get("/messages/api/messages/all"), given)));
    assert_eq!(read.as_array().unwrap().len(), 1);
    assert_eq!(read[0]["id"], "M001");
    assert_eq!(read[0]["msg_type"], "agent");
}

#[test]
fn migrate_from_comments_json() {
    let mut c = comment("c-001", "post:P-001", "new");
    c.text = s("Hello world");
    c.created_at = s("2026-01-01T00:00:00Z");
    let m = migrate_if_needed(false, Some(vec![c]), Vec::new()).unwrap();
    assert_eq!(m.messages.len(), 1);
    assert_eq!(m.messages[0].id, "c-001");
    assert_eq!(m.messages[0].msg_type, MessageType::Comment);
    assert_eq!(m.messages[0].content, "Hello world");
    assert_eq!(m.messages[0].anchor, Some(s("post:P-001")));
    assert_eq!(m.notes, vec![s("messaging: migrated 1 comments from comments.json")]);
}

#[test]
fn inboxes_are_migrated_once() {
    assert!(migrate_if_needed(true, Some(vec![comment("c", "", "new")]), Vec::new()).is_none());
    let mail = |id: &str| InboxMessage { id: s(id), from: s("a"), subject: s("S"), body: s("B"), sent_at: s(NOW) };
    let inbox = Inbox { agent: s("brand"), messages: vec![mail("abcdefghij"), mail("xy")] };
    let m = migrate_if_needed(false, None, vec![inbox]).unwrap();
    assert_eq!(m.messages.len(), 2);
    assert_eq!((m.messages[0].id.as_str(), m.messages[1].id.as_str()), ("Mabcdef", "Mxy"));
    assert_eq!(m.messages[0].content, "S: B");
    assert_eq!(m.messages[0].to, vec![s("brand")]);
    assert_eq!(m.notes, vec![s("messaging: migrated 2 agent inbox messages")]);
    assert_eq!(short_id("äöüß"), Some(s("äöü")));
    assert_eq!(short_id("aäöüß"), None);
    assert_eq!(inbox_agent("brand.jsonl"), Some(s("brand")));
    assert_eq!(inbox_agent(".jsonl"), None);
    assert_eq!(inbox_line("  \t"), None);
    assert_eq!(inbox_line(" {} "), Some(s("{}")));
    assert!(migration_result(2, Err(s("full"))).contains("full"));
}

#[test]
fn a_message_is_created_and_updated() {
    let h = MessagingHandler::new("/h");
    let create = |t: Option<&str>| messaging::CreateBody {
        msg_type: t.map(s),
        from: s("mike"),
        to: vec![s("brand"), s("sales")],
        content: s("hi"),
        anchor: Some(s("post:P-001")),
    };
    let req = request("POST", "/messages/api/messages", &[]);
    let mut given = messages_given(vec![message("M001", MessageType::Agent, "x", "new")]);
    given.create = Ok(create(None));
    let w = match h.handle_at(&req, given, HEX, NOW) {
        Step::Save(w, saved) => {
            assert_eq!(saved.response.status, 201);
            assert_eq!(body(&saved.response)["id"], "M012345");
            assert_eq!(value(&saved.notices[0].payload)["to"][1], "sales");
            w
        }
        Step::Reply(_) => panic!("a store was expected"),
    };
    assert_eq!((w.len(), w[1].id.as_str(), w[1].msg_type), (2, "M012345", MessageType::Agent));
    assert!(is_pending(&w[1].status));
    let mut given = messages_given(w);
    given.update = Ok(messaging::UpdateBody {
        id: s("M012345"),
        status: Some(s("done")),
        action: Some(s("answered")),
        routed_to: Some(vec![s("ops")]),
        related_assets: Some(vec![s("x")]),
    });
    match h.handle_at(&request("POST", "/messages/api/messages/update", &[]), given, HEX, NOW) {
        Step::Save(w, saved) => {
            assert_eq!((w[0].status.as_str(), w[1].status.as_str()), ("new", "done"));
            assert_eq!(w[1].routed_to, vec![s("ops")]);
            assert_eq!((w[1].action_log[0].ts.as_str(), w[1].action_log[0].action.as_str()), (NOW, "answered"));
            assert_eq!(value(&saved.notices[0].payload)["related_assets"][0], "x");
        }
        Step::Reply(_) => panic!("a store was expected"),
    }
    let mut given = messages_given(Vec::new());
    given.create = Ok(create(Some("letter")));
    let r = reply(h.handle(&req, given));
    assert_eq!(r.status, 400);
    let r = reply(h.handle(&get("/messages/nope"), messages_given(Vec::new())));
    assert_eq!(r.status, 404);
    let mut given = messages_given(Vec::new());
    given.widget = Some(b"js".to_vec());
    let r = reply(h.handle(&get("/messages/widget.js"), given));
    assert_eq!(r.status, 200);
    assert!(matches!(r.body, Body::Bytes(b) if b == b"js"));
    assert_eq!(reply(h.handle(&get("/messages/widget.js"), messages_given(Vec::new()))).status, 404);
}

#[test]
fn messages_on_the_command_line() {
    let h = MessagingHandler::new("/h");
    let (w, sent) = h.cli_send_at("mike", vec![s("a"), s("b")], "hi", "agent", None, Ok(Vec::new()), HEX, NOW).unwrap();
    assert_eq!(sent.line, "Sent message M012345 (agent) from mike to a,b");
    assert_eq!(
        h.cli_list(None, None, None, Ok(w.clone())).unwrap(),
        vec![
            s("M012345 [agent] from=mike to=a,b status=new anchor=- created=2026-01-01T00:00:00+00:00"),
            s("  hi"),
            s(""),
            s("1 messages"),
        ]
    );
    assert_eq!(h.cli_list(Some("comment"), None, None, Ok(w.clone())).unwrap(), vec![s("No messages found")]);
    let (w, sent) = h.cli_respond_at("M012345", "done", Some("ok"), vec![s("x")], Ok(w), NOW).unwrap();
    assert_eq!(sent.line, "Updated message M012345 status=done");
    assert_eq!((w[0].status.as_str(), w[0].action_log[0].related_assets.clone()), ("done", vec![s("x")]));
    assert_eq!(h.cli_respond_at("M9", "done", None, Vec::new(), Ok(w), NOW).err(), Some(s("message not found: M9")));
    assert!(h.cli_send_at("a", Vec::new(), "x", "letter", None, Ok(Vec::new()), HEX, NOW).err().unwrap().starts_with("Invalid msg_type: "));
    let (_, sent) = h.cli_send("a", Vec::new(), "x", "agent", None, Ok(Vec::new())).unwrap();
    assert_eq!(sent.finish(Err(s("full"))).err(), Some(s("write failed: full")));
}
