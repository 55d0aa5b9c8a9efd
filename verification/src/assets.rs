//! The registry of assets: what each request answers, and what it changes.
use crate::json::{self, Json, JsonText};
use crate::lists;
use crate::messaging;
use crate::order;
use crate::paths;
use crate::server::{
    self,
    Count,
    Request,
    Response,
    Saved,
    Step,
};
use crate::stamp;
use crate::text::{self, str_eq};
use vstd::prelude::*;

verus! {

/// A registered asset. `kind` is the member `type` of its JSON.
#[derive(Debug)]
pub struct Asset {
    pub id: String,
    pub kind: String,
    pub local_id: String,
    pub title: String,
    pub path: Option<String>,
    pub url: Option<String>,
    pub owner: String,
    pub registered_at: String,
    pub metadata: Vec<(String, Json)>,
}

/// The number in front of the list of assets in the file.
pub const FILE_VERSION: u32 = 1;

// ── Assets as JSON ───────────────────────────────────────────────────────────
pub open spec fn asset_json(a: Asset) -> JsonText {
    JsonText::Object(
        seq![
            ("id"@, JsonText::Str(a.id@)),
            ("type"@, JsonText::Str(a.kind@)),
            ("local_id"@, JsonText::Str(a.local_id@)),
            ("title"@, JsonText::Str(a.title@)),
            ("path"@, json::text_or_null(json::opt_text(a.path))),
            ("url"@, json::text_or_null(json::opt_text(a.url))),
            ("owner"@, JsonText::Str(a.owner@)),
            ("registered_at"@, JsonText::Str(a.registered_at@)),
            ("metadata"@, JsonText::Object(json::member_texts(a.metadata@))),
        ],
    )
}

pub open spec fn assets_json(v: Seq<Asset>) -> JsonText {
    JsonText::Array(v.map_values(|a: Asset| asset_json(a)))
}

fn copy_members(m: &Vec<(String, Json)>) -> (r: Vec<(String, Json)>)
    ensures
        json::member_texts(r@) == json::member_texts(m@),
{
    let mut out: Vec<(String, Json)> = Vec::new();
    let mut i: usize = 0;
    while i < m.len()
        invariant
            i <= m@.len(),
            out@.len() == i,
            forall|k: int|
                0 <= k < i ==> (#[trigger] out@[k]).0@ == m@[k].0@ && out@[k].1@ == m@[k].1@,
        decreases m.len() - i,
    {
        let c = json::copy(&m[i].1);
        out.push((m[i].0.as_str().to_owned(), c));
        i += 1;
    }
    proof {
        assert(json::member_texts(out@) =~= json::member_texts(m@));
    }
    out
}

/// An asset as it is sent and stored.
pub fn asset_value(a: &Asset) -> (r: Json)
    ensures
        r@ == asset_json(*a),
{
    let mut m: Vec<(String, Json)> = Vec::new();
    json::put(&mut m, "id", json::text_value(a.id.as_str()));
    json::put(&mut m, "type", json::text_value(a.kind.as_str()));
    json::put(&mut m, "local_id", json::text_value(a.local_id.as_str()));
    json::put(&mut m, "title", json::text_value(a.title.as_str()));
    json::put(&mut m, "path", json::opt_value(&a.path));
    json::put(&mut m, "url", json::opt_value(&a.url));
    json::put(&mut m, "owner", json::text_value(a.owner.as_str()));
    json::put(&mut m, "registered_at", json::text_value(a.registered_at.as_str()));
    json::put(&mut m, "metadata", json::object(copy_members(&a.metadata)));
    proof {
        assert(json::member_texts(m@) =~= asset_json(*a)->Object_0);
    }
    json::object(m)
}

fn assets_value(v: &Vec<Asset>) -> (r: Json)
    ensures
        r@ == assets_json(v@),
{
    let mut out: Vec<Json> = Vec::new();
    let mut i: usize = 0;
    while i < v.len()
        invariant
            i <= v@.len(),
            out@.len() == i,
            forall|k: int| 0 <= k < i ==> (#[trigger] out@[k])@ == asset_json(v@[k]),
        decreases v.len() - i,
    {
        out.push(asset_value(&v[i]));
        i += 1;
    }
    let r = json::array(out);
    proof {
        assert(r@->Array_0 =~= assets_json(v@)->Array_0);
    }
    r
}

// ── Which assets an answer holds ─────────────────────────────────────────────
pub open spec fn with_id(id: Seq<char>) -> spec_fn(Asset) -> bool {
    |a: Asset| a.id@ == id
}

/// Assets of a type and with an owner, as far as they are given.
pub open spec fn picks(kind: Option<Seq<char>>, owner: Option<Seq<char>>) -> spec_fn(Asset) -> bool {
    |a: Asset| messaging::agrees(kind, Some(a.kind@)) && messaging::agrees(owner, Some(a.owner@))
}

/// Assets whose title, identifier or owner holds the query, letter case aside.
pub open spec fn mentions(query: Seq<char>) -> spec_fn(Asset) -> bool {
    |a: Asset|
        text::contains(text::lowercase(a.title@), text::lowercase(query)) || text::contains(
            text::lowercase(a.id@),
            text::lowercase(query),
        ) || text::contains(text::lowercase(a.owner@), text::lowercase(query))
}

fn find_asset(v: &Vec<Asset>, id: &str) -> (r: Option<usize>)
    ensures
        match r {
            Some(i) => i < v@.len() && lists::first_from(v@, with_id(id@), 0) == Some(i as int),
            None => lists::first_from(v@, with_id(id@), 0) is None,
        },
{
    let ghost accepts = with_id(id@);
    let keep = |a: &Asset| -> (b: bool)
        ensures
            b == accepts(*a),
        { str_eq(a.id.as_str(), id) };
    lists::position(v, keep, Ghost(accepts))
}

fn pick(v: Vec<Asset>, kind: Option<&str>, owner: Option<&str>) -> (r: Vec<Asset>)
    ensures
        r@ == v@.filter(
            picks(crate::memory::provider::opt_str(kind), crate::memory::provider::opt_str(owner)),
        ),
{
    let ghost accepts = picks(
        crate::memory::provider::opt_str(kind),
        crate::memory::provider::opt_str(owner),
    );
    let keep = |a: &Asset| -> (b: bool)
        ensures
            b == accepts(*a),
        {
            messaging::agrees_str(kind, a.kind.as_str()) && messaging::agrees_str(
                owner,
                a.owner.as_str(),
            )
        };
    lists::keep_if(v, keep, Ghost(accepts))
}

fn matching(v: Vec<Asset>, query: &str) -> (r: Vec<Asset>)
    ensures
        r@ == v@.filter(mentions(query@)),
{
    let ghost accepts = mentions(query@);
    let low = text::to_lowercase(query);
    let q = low.as_str();
    let keep = |a: &Asset| -> (b: bool)
        ensures
            b == accepts(*a),
        {
            let title = text::to_lowercase(a.title.as_str());
            let id = text::to_lowercase(a.id.as_str());
            let owner = text::to_lowercase(a.owner.as_str());
            text::contains_str(title.as_str(), q) || text::contains_str(id.as_str(), q)
                || text::contains_str(owner.as_str(), q)
        };
    lists::keep_if(v, keep, Ghost(accepts))
}

// ── Types ────────────────────────────────────────────────────────────────────
pub open spec fn kind_items(v: Seq<Asset>) -> Seq<(Seq<char>, bool)> {
    v.map_values(|a: Asset| (a.kind@, false))
}

/// More first, then by name.
pub open spec fn more_first() -> spec_fn(server::CountText, server::CountText) -> bool {
    |a: server::CountText, b: server::CountText|
        if a.total == b.total {
            text::text_le(a.name, b.name)
        } else {
            a.total > b.total
        }
}

/// How many assets there are of each type, most first.
pub open spec fn kind_counts(v: Seq<Asset>) -> Seq<server::CountText> {
    order::sorted(server::tally(kind_items(v)), more_first())
}

fn more_before(a: &Count, b: &Count) -> (r: bool)
    ensures
        r == more_first()(a@, b@),
{
    if a.total == b.total {
        text::str_le(a.name.as_str(), b.name.as_str())
    } else {
        a.total > b.total
    }
}

fn count_kinds(v: &Vec<Asset>) -> (r: Vec<Count>)
    requires
        v@.len() <= i64::MAX,
    ensures
        server::count_texts(r@) == kind_counts(v@),
        server::counts_within(r@, i64::MAX as int),
{
    let ghost items = kind_items(v@);
    let mut counts: Vec<Count> = Vec::new();
    let mut i: usize = 0;
    proof {
        assert(items.take(0) =~= Seq::<(Seq<char>, bool)>::empty());
        assert(server::count_texts(counts@) =~= Seq::<server::CountText>::empty());
    }
    while i < v.len()
        invariant
            i <= v@.len() <= i64::MAX,
            items == kind_items(v@),
            server::counts_within(counts@, i as int),
            server::count_texts(counts@) == server::tally(items.take(i as int)),
        decreases v.len() - i,
    {
        proof {
            assert(items.take(i + 1).drop_last() =~= items.take(i as int));
            assert(items.take(i + 1).last() == items[i as int]);
        }
        server::count_in(&mut counts, v[i].kind.as_str(), false, Ghost(i as int));
        i += 1;
    }
    proof {
        assert(items.take(items.len() as int) =~= items);
    }
    let ghost unranked = counts@;
    let ghost f = |c: Count| c@;
    let ghost le_t = |a: Count, b: Count| more_first()(a@, b@);
    let ranked = order::sort_stable(counts, more_before, Ghost(le_t));
    proof {
        assert forall|a: Count, b: Count| #[trigger] le_t(a, b) == more_first()(f(a), f(b)) by {}
        order::lemma_sorted_map(unranked, f, le_t, more_first());
        assert(server::count_texts(unranked) == unranked.map_values(f));
        assert(server::count_texts(ranked@) == ranked@.map_values(f));
        lemma_more_first_total(le_t);
        order::lemma_sorted(unranked, le_t);
        assert forall|k: int| 0 <= k < ranked@.len() implies (#[trigger] ranked@[k]).total
            <= i64::MAX && ranked@[k].pending <= ranked@[k].total by {
            assert(ranked@.to_multiset().contains(ranked@[k])) by {
                ranked@.to_multiset_ensures();
                assert(ranked@.contains(ranked@[k]));
            }
            unranked.to_multiset_ensures();
            assert(unranked.contains(ranked@[k]));
        }
    }
    ranked
}

proof fn lemma_more_first_total(le: spec_fn(Count, Count) -> bool)
    requires
        forall|a: Count, b: Count| #[trigger] le(a, b) == more_first()(a@, b@),
    ensures
        order::total(le),
{
    assert forall|a: Count, b: Count| #[trigger] le(a, b) || #[trigger] le(b, a) by {
        text::lemma_text_le_total(a.name@, b.name@);
    }
    assert forall|a: Count, b: Count, c: Count| #[trigger] le(a, b) && #[trigger] le(b, c) implies le(
        a,
        c,
    ) by {
        if a.total == b.total && b.total == c.total {
            text::lemma_text_le_trans(a.name@, b.name@, c.name@);
        }
    }
}

pub open spec fn kind_count_json(c: server::CountText) -> JsonText {
    JsonText::Object(seq![("type"@, JsonText::Str(c.name)), ("count"@, JsonText::Int(c.total))])
}

pub open spec fn kind_counts_json(v: Seq<server::CountText>) -> JsonText {
    JsonText::Array(v.map_values(|c: server::CountText| kind_count_json(c)))
}

fn kind_counts_value(v: &Vec<Count>) -> (r: Json)
    requires
        server::counts_within(v@, i64::MAX as int),
    ensures
        r@ == kind_counts_json(server::count_texts(v@)),
{
    let mut out: Vec<Json> = Vec::new();
    let mut i: usize = 0;
    while i < v.len()
        invariant
            i <= v@.len(),
            out@.len() == i,
            server::counts_within(v@, i64::MAX as int),
            forall|k: int| 0 <= k < i ==> (#[trigger] out@[k])@ == kind_count_json(v@[k]@),
        decreases v.len() - i,
    {
        let mut m: Vec<(String, Json)> = Vec::new();
        json::put(&mut m, "type", json::text_value(v[i].name.as_str()));
        json::put(&mut m, "count", Json::Int(v[i].total as i64));
        proof {
            assert(json::member_texts(m@) =~= kind_count_json(v@[i as int]@)->Object_0);
        }
        out.push(json::object(m));
        i += 1;
    }
    let r = json::array(out);
    proof {
        assert(r@->Array_0 =~= kind_counts_json(server::count_texts(v@))->Array_0);
    }
    r
}

// ── Registration ─────────────────────────────────────────────────────────────
/// The body of a request to register an asset.
#[derive(Debug)]
pub struct RegisterBody {
    pub kind: String,
    pub local_id: String,
    pub title: String,
    pub path: Option<String>,
    pub url: Option<String>,
    pub owner: String,
    pub metadata: Vec<(String, Json)>,
}

/// The identifier of an asset.
pub open spec fn asset_id(kind: Seq<char>, local_id: Seq<char>) -> Seq<char> {
    kind + ":"@ + local_id
}

/// An asset as it is registered.
pub open spec fn is_registered(a: Asset, b: RegisterBody, now: Seq<char>) -> bool {
    &&& a.id@ == asset_id(b.kind@, b.local_id@)
    &&& a.kind == b.kind
    &&& a.local_id == b.local_id
    &&& a.title == b.title
    &&& a.path == b.path
    &&& a.url == b.url
    &&& a.owner == b.owner
    &&& a.registered_at@ == now
    &&& a.metadata == b.metadata
}

/// Whether `w` is `v` with `a` in place of the first asset of that identifier,
/// or behind the others where there is none.
pub open spec fn is_upsert(w: Seq<Asset>, v: Seq<Asset>, a: Asset) -> bool {
    match lists::first_from(v, with_id(a.id@), 0) {
        Some(i) => w == v.update(i, a),
        None => w == v.push(a),
    }
}

/// The place of an asset in the store that it was put into.
pub open spec fn upsert_place(v: Seq<Asset>, id: Seq<char>) -> int {
    match lists::first_from(v, with_id(id), 0) {
        Some(i) => i,
        None => v.len() as int,
    }
}

fn register_asset(v: Vec<Asset>, b: RegisterBody, now: &str) -> (r: (Vec<Asset>, usize))
    requires
        v@.len() < usize::MAX,
    ensures
        r.1 < r.0@.len(),
        r.1 == upsert_place(v@, asset_id(b.kind@, b.local_id@)),
        is_registered(r.0@[r.1 as int], b, now@),
        is_upsert(r.0@, v@, r.0@[r.1 as int]),
{
    let mut id = b.kind.as_str().to_owned();
    id.append(":");
    id.append(b.local_id.as_str());
    let place = find_asset(&v, id.as_str());
    let a = Asset {
        id,
        kind: b.kind,
        local_id: b.local_id,
        title: b.title,
        path: b.path,
        url: b.url,
        owner: b.owner,
        registered_at: now.to_owned(),
        metadata: b.metadata,
    };
    let mut w = v;
    match place {
        Some(i) => {
            w.set(i, a);
            (w, i)
        },
        None => {
            let i: usize = w.len();
            w.push(a);
            (w, i)
        },
    }
}

/// What is sent out once an asset has been registered.
pub open spec fn registered_text(a: Asset) -> server::SavedText {
    server::SavedText {
        notices: seq![
            server::published(
                "content.assets"@,
                "registered"@,
                JsonText::Object(
                    seq![
                        ("id"@, JsonText::Str(a.id@)),
                        ("title"@, JsonText::Str(a.title@)),
                        ("asset_type"@, JsonText::Str(a.kind@)),
                    ],
                ),
            ),
            server::emitted("hex.asset.registered"@, server::id_object(a.id@)),
        ],
        route: None,
        response: server::json_text(200, asset_json(a)),
    }
}

fn registered(a: &Asset) -> (s: Saved)
    ensures
        s@ == registered_text(*a),
{
    let mut p: Vec<(String, Json)> = Vec::new();
    json::put(&mut p, "id", json::text_value(a.id.as_str()));
    json::put(&mut p, "title", json::text_value(a.title.as_str()));
    json::put(&mut p, "asset_type", json::text_value(a.kind.as_str()));
    proof {
        assert(json::member_texts(p@) =~= registered_text(*a).notices[0].payload->Object_0);
    }
    let notices = server::two(
        server::publish("content.assets", "registered", json::object(p)),
        server::emit("hex.asset.registered", server::id_value(a.id.as_str())),
    );
    let response = server::json_response(200, asset_value(a));
    let s = Saved { notices, route: None, response };
    proof {
        assert(s@.notices =~= registered_text(*a).notices);
    }
    s
}

// ── Requests ─────────────────────────────────────────────────────────────────
/// What has been read for a request: the stored assets, and where something is
/// registered the body, or why it is none.
#[derive(Debug)]
pub struct Given {
    pub store: Result<Vec<Asset>, String>,
    pub register: Result<RegisterBody, String>,
}

#[derive(Debug, Clone)]
pub struct AssetsHandler {
    pub data_path: String,
}

/// The stored assets that `keep` accepts, or why they cannot be read.
pub open spec fn listing(
    store: Result<Vec<Asset>, String>,
    keep: spec_fn(Asset) -> bool,
) -> server::ResponseText {
    match store {
        Ok(v) => server::json_text(200, assets_json(v@.filter(keep))),
        Err(e) => server::error_text(500, e@),
    }
}

/// The asset of an identifier, that there is none, or why they cannot be read.
pub open spec fn resolved(store: Result<Vec<Asset>, String>, id: Seq<char>) -> server::ResponseText {
    match store {
        Ok(v) => match lists::first_from(v@, with_id(id), 0) {
            Some(i) => server::json_text(200, asset_json(v@[i])),
            None => server::error_text(404, "asset not found: "@ + id),
        },
        Err(e) => server::error_text(500, e@),
    }
}

pub open spec fn types_text(store: Result<Vec<Asset>, String>) -> server::ResponseText {
    match store {
        Ok(v) => server::json_text(200, kind_counts_json(kind_counts(v@))),
        Err(e) => server::error_text(500, e@),
    }
}

pub open spec fn search_text(store: Result<Vec<Asset>, String>, query: Seq<char>) -> server::ResponseText {
    if query.len() == 0 {
        server::error_text(400, "query parameter 'q' is required"@)
    } else {
        listing(store, mentions(query))
    }
}

/// What a request to register an asset leads to.
pub open spec fn is_registration(
    s: Step<Asset>,
    body: Result<RegisterBody, String>,
    store: Result<Vec<Asset>, String>,
    now: Seq<char>,
) -> bool {
    match body {
        Err(e) => messaging::is_reply(s, server::error_text(400, "invalid JSON: "@ + e@)),
        Ok(b) => match store {
            Err(e) => messaging::is_reply(s, server::error_text(500, "read failed: "@ + e@)),
            Ok(v) => match s {
                Step::Reply(_) => false,
                Step::Save(w, saved) => {
                    let i = upsert_place(v@, asset_id(b.kind@, b.local_id@));
                    &&& 0 <= i < w@.len()
                    &&& is_registered(w@[i], b, now)
                    &&& is_upsert(w@, v@, w@[i])
                    &&& saved@ == registered_text(w@[i])
                },
            },
        },
    }
}

impl AssetsHandler {
    pub fn new(hex_dir: &str) -> (h: AssetsHandler)
        ensures
            h.data_path@ == paths::joined(hex_dir@, ".hex/data/assets.json"@),
    {
        AssetsHandler { data_path: paths::join(hex_dir, ".hex/data/assets.json") }
    }

    fn resolve(store: Result<Vec<Asset>, String>, id: &str) -> (r: Response)
        ensures
            r@ == resolved(store, id@),
    {
        match store {
            Ok(v) => match find_asset(&v, id) {
                Some(i) => server::json_response(200, asset_value(&v[i])),
                None => {
                    let mut msg = "asset not found: ".to_owned();
                    msg.append(id);
                    server::json_error(404, msg.as_str())
                },
            },
            Err(e) => server::json_error(500, e.as_str()),
        }
    }

    fn list(store: Result<Vec<Asset>, String>, kind: Option<&str>, owner: Option<&str>) -> (r:
        Response)
        ensures
            r@ == listing(
                store,
                picks(
                    crate::memory::provider::opt_str(kind),
                    crate::memory::provider::opt_str(owner),
                ),
            ),
    {
        match store {
            Ok(v) => {
                let kept = pick(v, kind, owner);
                server::json_response(200, assets_value(&kept))
            },
            Err(e) => server::json_error(500, e.as_str()),
        }
    }

    fn types(store: Result<Vec<Asset>, String>) -> (r: Response)
        requires
            store is Ok ==> store->Ok_0@.len() <= i64::MAX,
        ensures
            r@ == types_text(store),
    {
        match store {
            Ok(v) => {
                let counts = count_kinds(&v);
                server::json_response(200, kind_counts_value(&counts))
            },
            Err(e) => server::json_error(500, e.as_str()),
        }
    }

    fn search(store: Result<Vec<Asset>, String>, query: &str) -> (r: Response)
        ensures
            r@ == search_text(store, query@),
    {
        if query.is_empty() {
            return server::json_error(400, "query parameter 'q' is required");
        }
        match store {
            Ok(v) => {
                let kept = matching(v, query);
                server::json_response(200, assets_value(&kept))
            },
            Err(e) => server::json_error(500, e.as_str()),
        }
    }

    fn register(
        body: Result<RegisterBody, String>,
        store: Result<Vec<Asset>, String>,
        now: &str,
    ) -> (s: Step<Asset>)
        requires
            store is Ok ==> store->Ok_0@.len() < usize::MAX,
        ensures
            is_registration(s, body, store, now@),
    {
        let b = match body {
            Ok(b) => b,
            Err(e) => {
                let mut msg = "invalid JSON: ".to_owned();
                msg.append(e.as_str());
                return Step::Reply(server::json_error(400, msg.as_str()));
            },
        };
        let v = match store {
            Ok(v) => v,
            Err(e) => {
                let mut msg = "read failed: ".to_owned();
                msg.append(e.as_str());
                return Step::Reply(server::json_error(500, msg.as_str()));
            },
        };
        let (w, i) = register_asset(v, b, now);
        let saved = registered(&w[i]);
        Step::Save(w, saved)
    }

    /// What a request is answered, from what was read for it and the time.
    pub open spec fn answers(self, s: Step<Asset>, req: Request, g: Given, now: Seq<char>) -> bool {
        let base = "/assets"@;
        let rest = text::without_prefix(req.path@, base);
        if req.asks("GET"@, base, "/types"@) {
            messaging::is_reply(s, types_text(g.store))
        } else if req.asks("GET"@, base, "/list"@) {
            messaging::is_reply(
                s,
                listing(g.store, picks(req.param("type"@), req.param("owner"@))),
            )
        } else if req.asks("GET"@, base, "/search"@) {
            messaging::is_reply(
                s,
                search_text(
                    g.store,
                    match req.param("q"@) {
                        Some(q) => q,
                        None => Seq::empty(),
                    },
                ),
            )
        } else if req.asks("POST"@, base, "/register"@) {
            is_registration(s, g.register, g.store, now)
        } else if req.method@ == "GET"@ && text::starts_with(rest, "/resolve/"@) {
            messaging::is_reply(s, resolved(g.store, rest.skip("/resolve/"@.len() as int)))
        } else {
            messaging::is_reply(s, server::error_text(404, "assets endpoint not found"@))
        }
    }

    /// Answers a request at a given time.
    pub fn handle_at(&self, req: &Request, given: Given, now: &str) -> (s: Step<Asset>)
        requires
            given.store is Ok ==> given.store->Ok_0@.len() < usize::MAX
                && given.store->Ok_0@.len() <= i64::MAX,
        ensures
            self.answers(s, *req, given, now@),
    {
        let base = "/assets";
        if req.is_for("GET", base, "/types") {
            return Step::Reply(Self::types(given.store));
        }
        if req.is_for("GET", base, "/list") {
            return Step::Reply(Self::list(given.store, req.get("type"), req.get("owner")));
        }
        if req.is_for("GET", base, "/search") {
            let none = String::new();
            proof {
                assert(none@ =~= Seq::<char>::empty());
            }
            let q = match req.get("q") {
                Some(q) => q,
                None => none.as_str(),
            };
            return Step::Reply(Self::search(given.store, q));
        }
        if req.is_for("POST", base, "/register") {
            return Self::register(given.register, given.store, now);
        }
        let rest = text::strip_prefix_or_self(req.path.as_str(), base);
        if str_eq(req.method.as_str(), "GET") && text::starts_with_str(rest.as_str(), "/resolve/") {
            let id = text::strip_prefix_or_self(rest.as_str(), "/resolve/");
            proof {
                assert(id@ =~= rest@.skip("/resolve/"@.len() as int));
            }
            return Step::Reply(Self::resolve(given.store, id.as_str()));
        }
        Step::Reply(server::json_error(404, "assets endpoint not found"))
    }

    /// Answers a request; an asset is registered at the present time.
    pub fn handle(&self, req: &Request, given: Given) -> (s: Step<Asset>)
        requires
            given.store is Ok ==> given.store->Ok_0@.len() < usize::MAX
                && given.store->Ok_0@.len() <= i64::MAX,
        ensures
            exists|now: Seq<char>| #[trigger] self.answers(s, *req, given, now),
    {
        let now = stamp::now_text();
        self.handle_at(req, given, now.as_str())
    }

    // ── Commands ─────────────────────────────────────────────────────────────
    /// The asset to print, or the error line.
    pub fn cli_resolve(&self, id: &str, store: Result<Vec<Asset>, String>) -> (r: Result<
        Json,
        String,
    >)
        ensures
            match store {
                Err(e) => r is Err && r->Err_0@ == "ERROR: "@ + e@,
                Ok(v) => match lists::first_from(v@, with_id(id@), 0) {
                    Some(i) => r is Ok && r->Ok_0@ == asset_json(v@[i]),
                    None => r is Err && r->Err_0@ == "asset not found: "@ + id@,
                },
            },
    {
        match store {
            Ok(v) => match find_asset(&v, id) {
                Some(i) => Ok(asset_value(&v[i])),
                None => {
                    let mut msg = "asset not found: ".to_owned();
                    msg.append(id);
                    Err(msg)
                },
            },
            Err(e) => Err(cli_error(e)),
        }
    }

    /// The assets of a type to print, or the error line.
    pub fn cli_list(&self, kind: Option<&str>, store: Result<Vec<Asset>, String>) -> (r: Result<
        Json,
        String,
    >)
        ensures
            match store {
                Err(e) => r is Err && r->Err_0@ == "ERROR: "@ + e@,
                Ok(v) => r is Ok && r->Ok_0@ == assets_json(
                    v@.filter(picks(crate::memory::provider::opt_str(kind), None)),
                ),
            },
    {
        match store {
            Ok(v) => {
                let kept = pick(v, kind, None);
                Ok(assets_value(&kept))
            },
            Err(e) => Err(cli_error(e)),
        }
    }

    /// The assets that a query finds, to print, or the error line.
    pub fn cli_search(&self, query: &str, store: Result<Vec<Asset>, String>) -> (r: Result<
        Json,
        String,
    >)
        ensures
            match store {
                Err(e) => r is Err && r->Err_0@ == "ERROR: "@ + e@,
                Ok(v) => r is Ok && r->Ok_0@ == assets_json(v@.filter(mentions(query@))),
            },
    {
        match store {
            Ok(v) => {
                let kept = matching(v, query);
                Ok(assets_value(&kept))
            },
            Err(e) => Err(cli_error(e)),
        }
    }

    /// The lines with the number of assets of each type, or the error line.
    pub fn cli_types(&self, store: Result<Vec<Asset>, String>) -> (r: Result<Vec<String>, String>)
        requires
            store is Ok ==> store->Ok_0@.len() <= i64::MAX,
        ensures
            match store {
                Err(e) => r is Err && r->Err_0@ == "ERROR: "@ + e@,
                Ok(v) => r is Ok && text::texts(r->Ok_0@) == kind_counts(v@).map_values(
                    |c: server::CountText| kind_line(c),
                ),
            },
    {
        let v = match store {
            Ok(v) => v,
            Err(e) => {
                return Err(cli_error(e));
            },
        };
        let counts = count_kinds(&v);
        let mut out: Vec<String> = Vec::new();
        let mut i: usize = 0;
        while i < counts.len()
            invariant
                i <= counts@.len(),
                out@.len() == i,
                forall|k: int| 0 <= k < i ==> (#[trigger] out@[k])@ == kind_line(counts@[k]@),
            decreases counts.len() - i,
        {
            let mut line = counts[i].name.as_str().to_owned();
            line.append(": ");
            let n = text::decimal(counts[i].total);
            line.append(n.as_str());
            out.push(line);
            i += 1;
        }
        proof {
            assert(text::texts(out@) =~= server::count_texts(counts@).map_values(
                |c: server::CountText| kind_line(c),
            ));
        }
        Ok(out)
    }

    /// What registering an asset from the command line leads to: the assets to
    /// store and the one to print, or the error line.
    pub open spec fn is_cli_registration(
        self,
        r: Result<(Vec<Asset>, Json), String>,
        kind: Seq<char>,
        local_id: Seq<char>,
        title: Seq<char>,
        path: Option<Seq<char>>,
        store: Result<Vec<Asset>, String>,
        now: Seq<char>,
    ) -> bool {
        match store {
            Err(e) => r is Err && r->Err_0@ == "ERROR reading assets: "@ + e@,
            Ok(v) => match r {
                Err(_) => false,
                Ok(p) => {
                    let i = upsert_place(v@, asset_id(kind, local_id));
                    let a = p.0@[i];
                    &&& 0 <= i < p.0@.len()
                    &&& a.id@ == asset_id(kind, local_id)
                    &&& a.kind@ == kind
                    &&& a.local_id@ == local_id
                    &&& a.title@ == title
                    &&& json::opt_text(a.path) == path
                    &&& a.url is None
                    &&& a.owner@.len() == 0
                    &&& a.registered_at@ == now
                    &&& a.metadata@.len() == 0
                    &&& is_upsert(p.0@, v@, a)
                    &&& p.1@ == asset_json(a)
                },
            },
        }
    }

    /// Registers an asset from the command line at a given time.
    pub fn cli_register_at(
        &self,
        kind: &str,
        local_id: &str,
        title: &str,
        path: Option<&str>,
        store: Result<Vec<Asset>, String>,
        now: &str,
    ) -> (r: Result<(Vec<Asset>, Json), String>)
        requires
            store is Ok ==> store->Ok_0@.len() < usize::MAX,
        ensures
            self.is_cli_registration(
                r,
                kind@,
                local_id@,
                title@,
                crate::memory::provider::opt_str(path),
                store,
                now@,
            ),
    {
        let v = match store {
            Ok(v) => v,
            Err(e) => {
                let mut msg = "ERROR reading assets: ".to_owned();
                msg.append(e.as_str());
                return Err(msg);
            },
        };
        let b = RegisterBody {
            kind: kind.to_owned(),
            local_id: local_id.to_owned(),
            title: title.to_owned(),
            path: text::copy_opt(path),
            url: None,
            owner: String::new(),
            metadata: Vec::new(),
        };
        let (w, i) = register_asset(v, b, now);
        let shown = asset_value(&w[i]);
        Ok((w, shown))
    }

    /// Registers an asset from the command line at the present time.
    pub fn cli_register(
        &self,
        kind: &str,
        local_id: &str,
        title: &str,
        path: Option<&str>,
        store: Result<Vec<Asset>, String>,
    ) -> (r: Result<(Vec<Asset>, Json), String>)
        requires
            store is Ok ==> store->Ok_0@.len() < usize::MAX,
        ensures
            exists|now: Seq<char>| #[trigger]
                self.is_cli_registration(
                    r,
                    kind@,
                    local_id@,
                    title@,
                    crate::memory::provider::opt_str(path),
                    store,
                    now,
                ),
    {
        let now = stamp::now_text();
        self.cli_register_at(kind, local_id, title, path, store, now.as_str())
    }
}

pub open spec fn kind_line(c: server::CountText) -> Seq<char> {
    c.name + ": "@ + text::numeral(c.total as nat)
}

fn cli_error(e: String) -> (r: String)
    ensures
        r@ == "ERROR: "@ + e@,
{
    let mut r = "ERROR: ".to_owned();
    r.append(e.as_str());
    r
}

// ── Laws ─────────────────────────────────────────────────────────────────────
/// What was registered is what its identifier resolves to, and every other
/// identifier resolves to what it did before.
pub proof fn law_register_then_resolve(v: Vec<Asset>, w: Vec<Asset>, a: Asset, other: Seq<char>)
    requires
        is_upsert(w@, v@, a),
        other != a.id@,
    ensures
        resolved(Ok(w), a.id@) == server::json_text(200, asset_json(a)),
        resolved(Ok(w), other) == resolved(Ok(v), other),
{
    lists::lemma_first_from(v@, with_id(a.id@), 0);
    lists::lemma_first_from(w@, with_id(a.id@), 0);
    lists::lemma_first_from(v@, with_id(other), 0);
    lists::lemma_first_from(w@, with_id(other), 0);
    let i = upsert_place(v@, a.id@);
    assert(w@[i] == a);
    assert forall|k: int| 0 <= k < v@.len() && k != i implies w@[k] == #[trigger] v@[k] by {}
    match lists::first_from(w@, with_id(a.id@), 0) {
        Some(k) => {
            assert(with_id(a.id@)(w@[i]));
            assert(k == i);
        },
        None => {
            assert(with_id(a.id@)(w@[i]));
        },
    }
    match lists::first_from(w@, with_id(other), 0) {
        Some(k) => {
            assert(with_id(other)(v@[k]));
            let j = lists::first_from(v@, with_id(other), 0)->0;
            if j < k {
                assert(with_id(other)(w@[j]));
            }
        },
        None => {
            match lists::first_from(v@, with_id(other), 0) {
                Some(j) => {
                    assert(with_id(other)(w@[j]));
                },
                None => {},
            }
        },
    }
}

/// Registering never makes an identifier stand twice.
pub proof fn law_identifiers_stay_unique(v: Seq<Asset>, w: Seq<Asset>, a: Asset)
    requires
        is_upsert(w, v, a),
        forall|i: int, j: int| 0 <= i < j < v.len() ==> (#[trigger] v[i]).id@ != (#[trigger] v[j]).id@,
    ensures
        forall|i: int, j: int| 0 <= i < j < w.len() ==> (#[trigger] w[i]).id@ != (#[trigger] w[j]).id@,
{
    lists::lemma_first_from(v, with_id(a.id@), 0);
    assert forall|i: int, j: int| 0 <= i < j < w.len() implies (#[trigger] w[i]).id@ != (
    #[trigger] w[j]).id@ by {
        match lists::first_from(v, with_id(a.id@), 0) {
            Some(k) => {
                assert(v[k].id@ == a.id@);
            },
            None => {
                assert(!with_id(a.id@)(v[i]));
            },
        }
    }
}

proof fn lemma_paths(req: Request, path: Seq<char>)
    requires
        req.path@ == "/assets"@ + path,
    ensures
        forall|method: Seq<char>, p: Seq<char>| #[trigger]
            req.asks(method, "/assets"@, p) == (req.method@ == method && p == path),
        text::without_prefix(req.path@, "/assets"@) == path,
{
    let base = "/assets"@;
    let n = base.len() as int;
    assert(req.path@.subrange(0, n) =~= base);
    assert(text::starts_with(req.path@, base));
    assert(req.path@.skip(n) =~= path);
}

/// Whether an asset has the type and the owner that are asked for, each where it is
/// given.
pub open spec fn has_what_is_asked(
    a: Asset,
    kind: Option<Seq<char>>,
    owner: Option<Seq<char>>,
) -> bool {
    (kind is Some ==> a.kind@ == kind->0) && (owner is Some ==> a.owner@ == owner->0)
}

/// Whether the title, the identifier or the owner of an asset holds a text, letter case
/// aside.
pub open spec fn holds_text(a: Asset, query: Seq<char>) -> bool {
    ||| text::contains(text::lowercase(a.title@), text::lowercase(query))
    ||| text::contains(text::lowercase(a.id@), text::lowercase(query))
    ||| text::contains(text::lowercase(a.owner@), text::lowercase(query))
}

/// A list of assets holds those of the type and the owner asked for, each where it is
/// given, and a search those that hold the text: all of them and no others, in their
/// order.
pub proof fn law_lists_and_searches(
    v: Seq<Asset>,
    kind: Option<Seq<char>>,
    owner: Option<Seq<char>>,
    query: Seq<char>,
)
    ensures
        lists::is_choice(
            v.filter(picks(kind, owner)),
            v,
            |a: Asset| has_what_is_asked(a, kind, owner),
        ),
        lists::is_choice(v.filter(mentions(query)), v, |a: Asset| holds_text(a, query)),
{
    lists::lemma_filter_is_choice(
        v,
        picks(kind, owner),
        |a: Asset| has_what_is_asked(a, kind, owner),
    );
    lists::lemma_filter_is_choice(v, mentions(query), |a: Asset| holds_text(a, query));
}

/// A list is answered with the assets that have what the query asks for under `type`
/// and `owner`; a search with those that hold the text under `q`, and with 400 where
/// there is none.
pub proof fn law_a_list_is_answered(
    h: AssetsHandler,
    s: Step<Asset>,
    req: Request,
    g: Given,
    now: Seq<char>,
)
    requires
        h.answers(s, req, g, now),
        req.method@ == "GET"@,
        g.store is Ok,
    ensures
        req.path@ == "/assets"@ + "/list"@ ==> exists|kept: Seq<Asset>| #[trigger]
            messaging::is_reply(s, server::json_text(200, assets_json(kept))) && lists::is_choice(
                kept,
                g.store->Ok_0@,
                |a: Asset| has_what_is_asked(a, req.param("type"@), req.param("owner"@)),
            ),
        req.path@ == "/assets"@ + "/search"@ && req.param("q"@) is Some && req.param(
            "q"@,
        )->0.len() > 0 ==> exists|kept: Seq<Asset>| #[trigger]
            messaging::is_reply(s, server::json_text(200, assets_json(kept))) && lists::is_choice(
                kept,
                g.store->Ok_0@,
                |a: Asset| holds_text(a, req.param("q"@)->0),
            ),
        req.path@ == "/assets"@ + "/search"@ && (req.param("q"@) is None || req.param(
            "q"@,
        )->0.len() == 0) ==> s is Reply && s->Reply_0@.status == 400,
{
    reveal_strlit("/types");
    reveal_strlit("/list");
    reveal_strlit("/search");
    assert("/types"@.len() == 6 && "/list"@.len() == 5 && "/search"@.len() == 7);
    let v = g.store->Ok_0@;
    law_lists_and_searches(v, req.param("type"@), req.param("owner"@), req.param("q"@)->0);
    if req.path@ == "/assets"@ + "/list"@ {
        lemma_paths(req, "/list"@);
        let kept = v.filter(picks(req.param("type"@), req.param("owner"@)));
        assert(messaging::is_reply(s, server::json_text(200, assets_json(kept))));
    }
    if req.path@ == "/assets"@ + "/search"@ {
        lemma_paths(req, "/search"@);
        if req.param("q"@) is Some && req.param("q"@)->0.len() > 0 {
            let kept = v.filter(mentions(req.param("q"@)->0));
            assert(messaging::is_reply(s, server::json_text(200, assets_json(kept))));
        }
    }
}

/// An identifier is answered with the first asset that has it, and with 404 where none
/// has.
pub proof fn law_an_identifier_is_resolved(
    h: AssetsHandler,
    s: Step<Asset>,
    req: Request,
    g: Given,
    now: Seq<char>,
    id: Seq<char>,
)
    requires
        h.answers(s, req, g, now),
        req.method@ == "GET"@,
        req.path@ == "/assets"@ + ("/resolve/"@ + id),
        g.store is Ok,
    ensures
        (exists|i: int| 0 <= i < g.store->Ok_0@.len() && (#[trigger] g.store->Ok_0@[i]).id@ == id)
            ==> exists|i: int| #[trigger]
            is_first_with(g.store->Ok_0@, id, i) && messaging::is_reply(
                s,
                server::json_text(200, asset_json(g.store->Ok_0@[i])),
            ),
        (forall|i: int| 0 <= i < g.store->Ok_0@.len() ==> (#[trigger] g.store->Ok_0@[i]).id@ != id)
            ==> s is Reply && s->Reply_0@.status == 404,
{
    let v = g.store->Ok_0@;
    let rest = "/resolve/"@ + id;
    lemma_paths(req, rest);
    reveal_strlit("/types");
    reveal_strlit("/list");
    reveal_strlit("/search");
    reveal_strlit("/resolve/");
    reveal_strlit("GET");
    reveal_strlit("POST");
    assert("GET"@.len() == 3 && "POST"@.len() == 4);
    assert("/types"@[1] == 't' && "/list"@[1] == 'l' && "/search"@[1] == 's' && rest[1] == 'r');
    assert(rest.subrange(0, "/resolve/"@.len() as int) =~= "/resolve/"@);
    assert(rest.skip("/resolve/"@.len() as int) =~= id);
    assert(messaging::is_reply(s, resolved(g.store, id)));
    lists::lemma_first_from(v, with_id(id), 0);
    match lists::first_from(v, with_id(id), 0) {
        Some(i) => {
            assert forall|j: int| 0 <= j < i implies (#[trigger] v[j]).id@ != id by {
                assert(!with_id(id)(v[j]));
            }
            assert(is_first_with(v, id, i));
        },
        None => {
            assert forall|j: int| 0 <= j < v.len() implies (#[trigger] v[j]).id@ != id by {
                assert(!with_id(id)(v[j]));
            }
        },
    }
}

/// Whether the first asset with an identifier stands at `i`.
pub open spec fn is_first_with(v: Seq<Asset>, id: Seq<char>, i: int) -> bool {
    &&& 0 <= i < v.len()
    &&& v[i].id@ == id
    &&& forall|j: int| 0 <= j < i ==> (#[trigger] v[j]).id@ != id
}

/// Each type of an asset stands once among the types, with the number of its assets;
/// those with more come first, and of those with as many the one whose name does.
pub proof fn law_types(v: Seq<Asset>)
    ensures
        forall|k: int|
            0 <= k < kind_counts(v).len() ==> (#[trigger] kind_counts(v)[k]).total == v.filter(
                of_kind(kind_counts(v)[k].name),
            ).len() && kind_counts(v)[k].total > 0,
        forall|i: int| 0 <= i < v.len() ==> server::has_count(kind_counts(v), (#[trigger] v[i]).kind@),
        server::distinct_names(kind_counts(v)),
        forall|i: int, j: int|
            0 <= i < j < kind_counts(v).len() ==> (#[trigger] kind_counts(v)[i]).total > (
            #[trigger] kind_counts(v)[j]).total || (kind_counts(v)[i].total == kind_counts(
                v,
            )[j].total && text::text_le(kind_counts(v)[i].name, kind_counts(v)[j].name)),
{
    let items = kind_items(v);
    let t = server::tally(items);
    let all = kind_counts(v);
    let le = more_first();
    let f = |a: Asset| (a.kind@, false);
    server::law_counts_add_up(items);
    lemma_more_first();
    order::lemma_sorted(t, le);
    assert(items == v.map_values(f));
    assert forall|k: int| 0 <= k < all.len() implies (#[trigger] all[k]).total == v.filter(
        of_kind(all[k].name),
    ).len() && all[k].total > 0 by {
        order::lemma_sorted_contains(t, le, all[k]);
        assert(all.contains(all[k]));
        let m = choose|m: int| 0 <= m < t.len() && t[m] == all[k];
        assert(server::is_count_of(t[m], items));
        lists::lemma_filter_map(v, f, of_kind(all[k].name), server::is_under(all[k].name));
    }
    assert forall|i: int| 0 <= i < v.len() implies server::has_count(
        all,
        (#[trigger] v[i]).kind@,
    ) by {
        assert(items[i].0 == v[i].kind@);
        assert(server::has_count(t, items[i].0));
        let m = choose|m: int| 0 <= m < t.len() && (#[trigger] t[m]).name == v[i].kind@;
        assert(t.contains(t[m]));
        order::lemma_sorted_contains(t, le, t[m]);
        let k = choose|k: int| 0 <= k < all.len() && all[k] == t[m];
        assert(all[k].name == v[i].kind@);
    }
    let key = |c: server::CountText| c.name;
    assert(order::unique(t, key)) by {
        assert forall|i: int, j: int| 0 <= i < j < t.len() implies key(#[trigger] t[i]) != key(
            #[trigger] t[j],
        ) by {}
    }
    order::lemma_sorted_unique(t, le, key);
    assert forall|i: int, j: int| 0 <= i < j < all.len() implies (#[trigger] all[i]).name != (
    #[trigger] all[j]).name by {
        assert(key(all[i]) != key(all[j]));
    }
    assert forall|i: int, j: int| 0 <= i < j < all.len() implies (#[trigger] all[i]).total > (
    #[trigger] all[j]).total || (all[i].total == all[j].total && text::text_le(
        all[i].name,
        all[j].name,
    )) by {
        assert(le(all[i], all[j]));
    }
}

pub open spec fn of_kind(kind: Seq<char>) -> spec_fn(Asset) -> bool {
    |a: Asset| a.kind@ == kind
}

proof fn lemma_more_first()
    ensures
        order::total(more_first()),
{
    let le = more_first();
    assert forall|a: server::CountText, b: server::CountText| #[trigger] le(a, b) || #[trigger] le(
        b,
        a,
    ) by {
        text::lemma_text_le_total(a.name, b.name);
    }
    assert forall|a: server::CountText, b: server::CountText, c: server::CountText| #[trigger]
        le(a, b) && #[trigger] le(b, c) implies le(a, c) by {
        if a.total == b.total && b.total == c.total {
            text::lemma_text_le_trans(a.name, b.name, c.name);
        }
    }
}

/// A registration puts an asset with the fields that were given, under the identifier
/// of its type, a colon and its local name, into the place of the first asset that has
/// it, or behind all others.
pub proof fn law_a_registration(
    h: AssetsHandler,
    s: Step<Asset>,
    req: Request,
    g: Given,
    now: Seq<char>,
)
    requires
        h.answers(s, req, g, now),
        req.method@ == "POST"@,
        req.path@ == "/assets"@ + "/register"@,
        g.store is Ok,
        g.register is Ok,
    ensures
        s is Save,
        exists|i: int| #[trigger]
            is_put_at(
                s->Save_0@,
                g.store->Ok_0@,
                g.register->Ok_0.kind@ + ":"@ + g.register->Ok_0.local_id@,
                i,
            ) && ({
                let a = s->Save_0@[i];
                let b = g.register->Ok_0;
                a.kind == b.kind && a.local_id == b.local_id && a.title == b.title && a.path
                    == b.path && a.url == b.url && a.owner == b.owner && a.metadata == b.metadata
                    && a.registered_at@ == now && s->Save_1.response@.status == 200
                    && s->Save_1.response@.body == server::BodyText::Json(asset_json(a))
            }),
{
    lemma_paths(req, "/register"@);
    reveal_strlit("GET");
    reveal_strlit("POST");
    assert("GET"@.len() == 3 && "POST"@.len() == 4);
    let v = g.store->Ok_0@;
    let id = g.register->Ok_0.kind@ + ":"@ + g.register->Ok_0.local_id@;
    assert(is_registration(s, g.register, g.store, now));
    let i = upsert_place(v, id);
    lists::lemma_first_from(v, with_id(id), 0);
    assert forall|j: int| 0 <= j < i implies (#[trigger] v[j]).id@ != id by {
        assert(!with_id(id)(v[j]));
    }
    assert(is_put_at(s->Save_0@, v, id, i));
}

/// Whether an asset with an identifier was put into place `i`: that of the first asset
/// that has it, or behind all others.
pub open spec fn is_put_at(w: Seq<Asset>, v: Seq<Asset>, id: Seq<char>, i: int) -> bool {
    &&& 0 <= i < w.len()
    &&& w[i].id@ == id
    &&& i < v.len() ==> v[i].id@ == id && w.len() == v.len()
    &&& i >= v.len() ==> i == v.len() && w.len() == v.len() + 1
    &&& forall|j: int| 0 <= j < i ==> (#[trigger] v[j]).id@ != id
    &&& forall|j: int| 0 <= j < v.len() && j != i ==> #[trigger] w[j] == v[j]
}

/// An answer shows an asset with all its fields, each under its name.
pub proof fn law_asset_json(a: Asset, v: Seq<Asset>, k: int)
    requires
        0 <= k < v.len(),
    ensures
        asset_json(a)->Object_0.len() == 9,
        asset_json(a)->Object_0.contains(("id"@, JsonText::Str(a.id@))),
        asset_json(a)->Object_0.contains(("type"@, JsonText::Str(a.kind@))),
        asset_json(a)->Object_0.contains(("local_id"@, JsonText::Str(a.local_id@))),
        asset_json(a)->Object_0.contains(("title"@, JsonText::Str(a.title@))),
        a.path is Some ==> asset_json(a)->Object_0.contains(("path"@, JsonText::Str(a.path->0@))),
        a.path is None ==> asset_json(a)->Object_0.contains(("path"@, JsonText::Null)),
        a.url is Some ==> asset_json(a)->Object_0.contains(("url"@, JsonText::Str(a.url->0@))),
        a.url is None ==> asset_json(a)->Object_0.contains(("url"@, JsonText::Null)),
        asset_json(a)->Object_0.contains(("owner"@, JsonText::Str(a.owner@))),
        asset_json(a)->Object_0.contains(("registered_at"@, JsonText::Str(a.registered_at@))),
        asset_json(a)->Object_0.contains(
            ("metadata"@, JsonText::Object(json::member_texts(a.metadata@))),
        ),
        assets_json(v)->Array_0.len() == v.len(),
        assets_json(v)->Array_0[k] == asset_json(v[k]),
{
    let o = asset_json(a)->Object_0;
    assert(o[0].0 == "id"@ && o[1].0 == "type"@ && o[2].0 == "local_id"@ && o[3].0 == "title"@);
    assert(o[4].0 == "path"@ && o[5].0 == "url"@ && o[6].0 == "owner"@);
    assert(o[7].0 == "registered_at"@ && o[8].0 == "metadata"@);
}

/// Registering from the command line puts the asset in the place of the one that has its
/// identifier, or behind the others; the rest of the store stays. It has no address, no
/// owner and no further data, and is printed as it is stored. Only a store that cannot
/// be read is refused.
pub proof fn law_a_registration_from_the_command_line(
    h: AssetsHandler,
    r: Result<(Vec<Asset>, Json), String>,
    kind: Seq<char>,
    local_id: Seq<char>,
    title: Seq<char>,
    path: Option<Seq<char>>,
    store: Result<Vec<Asset>, String>,
    now: Seq<char>,
    k: int,
)
    requires
        h.is_cli_registration(r, kind, local_id, title, path, store, now),
    ensures
        (r is Ok) == (store is Ok),
        r is Err ==> r->Err_0@ == "ERROR reading assets: "@ + store->Err_0@,
        r is Ok ==> ({
            let v = store->Ok_0@;
            let w = (r->Ok_0).0@;
            let id = kind + ":"@ + local_id;
            &&& forall|i: int| 0 <= i < w.len() && is_first_of(v, id, i) ==> ({
                let a = #[trigger] w[i];
                &&& a.id@ == id && a.kind@ == kind && a.local_id@ == local_id && a.title@ == title
                &&& json::opt_text(a.path) == path && a.url is None && a.owner@.len() == 0
                &&& a.metadata@.len() == 0 && a.registered_at@ == now
                &&& (r->Ok_0).1@ == asset_json(a)
            })
            &&& 0 <= k < v.len() && !is_first_of(v, id, k) ==> w[k] == v[k]
        }),
{
    if r is Ok {
        let v = store->Ok_0@;
        let id = asset_id(kind, local_id);
        lists::lemma_first_from(v, with_id(id), 0);
    }
}

/// Whether an asset with an identifier is put into the place `i` of a store: that of the
/// first with the identifier, or the one behind all.
pub open spec fn is_first_of(v: Seq<Asset>, id: Seq<char>, i: int) -> bool {
    &&& 0 <= i <= v.len()
    &&& i < v.len() ==> v[i].id@ == id
    &&& forall|j: int| 0 <= j < i ==> (#[trigger] v[j]).id@ != id
}

/// A kind is listed with how many assets it has.
pub proof fn law_kind_line(c: server::CountText)
    ensures
        kind_line(c) == c.name + ": "@ + text::numeral(c.total as nat),
{
}

} // verus!
