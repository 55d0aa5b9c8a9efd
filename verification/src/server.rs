//! Requests, responses and what a change of a store sets off.
use crate::json::{self, Json, JsonText};
use crate::text::{self, str_eq};
use vstd::prelude::*;

verus! {

/// A request without its body. Each query parameter stands once.
#[derive(Debug, Clone)]
pub struct Request {
    pub method: String,
    pub path: String,
    pub query: Vec<(String, String)>,
}

pub open spec fn parameter(query: Seq<(String, String)>, name: Seq<char>, i: int) -> Option<
    Seq<char>,
>
    decreases query.len() - i,
{
    if i < 0 || i >= query.len() {
        None
    } else if query[i].0@ == name {
        Some(query[i].1@)
    } else {
        parameter(query, name, i + 1)
    }
}

impl Request {
    /// The value of a query parameter.
    pub open spec fn param(self, name: Seq<char>) -> Option<Seq<char>> {
        parameter(self.query@, name, 0)
    }

    /// Whether the request is `method` on `path`, `prefix` of the path left out.
    pub open spec fn asks(self, method: Seq<char>, prefix: Seq<char>, path: Seq<char>) -> bool {
        self.method@ == method && text::without_prefix(self.path@, prefix) == path
    }

    /// The value of a query parameter.
    pub fn get(&self, name: &str) -> (r: Option<&str>)
        ensures
            crate::memory::provider::opt_str(r) == self.param(name@),
    {
        let mut i: usize = 0;
        while i < self.query.len()
            invariant
                i <= self.query@.len(),
                self.param(name@) == parameter(self.query@, name@, i as int),
            decreases self.query.len() - i,
        {
            if str_eq(self.query[i].0.as_str(), name) {
                return Some(self.query[i].1.as_str());
            }
            i += 1;
        }
        None
    }

    /// Whether the request is `method` on `path`, `prefix` of the path left out.
    pub fn is_for(&self, method: &str, prefix: &str, path: &str) -> (b: bool)
        ensures
            b == self.asks(method@, prefix@, path@),
    {
        let rest = text::strip_prefix_or_self(self.path.as_str(), prefix);
        str_eq(self.method.as_str(), method) && str_eq(rest.as_str(), path)
    }
}

#[derive(Debug)]
pub enum Body {
    Json(Json),
    Bytes(Vec<u8>),
}

#[derive(Debug)]
pub struct Response {
    pub status: u16,
    pub content_type: String,
    pub headers: Vec<(String, String)>,
    pub body: Body,
}

pub enum BodyText {
    Json(JsonText),
    Bytes(Seq<u8>),
}

pub struct ResponseText {
    pub status: u16,
    pub content_type: Seq<char>,
    pub headers: Seq<(Seq<char>, Seq<char>)>,
    pub body: BodyText,
}

impl View for Body {
    type V = BodyText;

    open spec fn view(&self) -> BodyText {
        match self {
            Body::Json(v) => BodyText::Json(v@),
            Body::Bytes(b) => BodyText::Bytes(b@),
        }
    }
}

impl View for Response {
    type V = ResponseText;

    open spec fn view(&self) -> ResponseText {
        ResponseText {
            status: self.status,
            content_type: self.content_type@,
            headers: self.headers@.map_values(|h: (String, String)| (h.0@, h.1@)),
            body: self.body@,
        }
    }
}

/// Every response may be read from any origin.
pub open spec fn open_headers() -> Seq<(Seq<char>, Seq<char>)> {
    seq![("Access-Control-Allow-Origin"@, "*"@)]
}

pub open spec fn json_text(status: u16, v: JsonText) -> ResponseText {
    ResponseText {
        status,
        content_type: "application/json"@,
        headers: open_headers(),
        body: BodyText::Json(v),
    }
}

pub open spec fn error_text(status: u16, msg: Seq<char>) -> ResponseText {
    json_text(status, JsonText::Object(seq![("error"@, JsonText::Str(msg))]))
}

pub open spec fn script_text(data: Seq<u8>) -> ResponseText {
    ResponseText {
        status: 200,
        content_type: "application/javascript"@,
        headers: open_headers(),
        body: BodyText::Bytes(data),
    }
}

fn respond(status: u16, content_type: &str, body: Body) -> (r: Response)
    ensures
        r@ == (ResponseText {
            status,
            content_type: content_type@,
            headers: open_headers(),
            body: body@,
        }),
{
    let mut headers: Vec<(String, String)> = Vec::new();
    headers.push(("Access-Control-Allow-Origin".to_owned(), "*".to_owned()));
    let r = Response { status, content_type: content_type.to_owned(), headers, body };
    proof {
        assert(r@.headers =~= open_headers());
    }
    r
}

pub fn json_response(status: u16, v: Json) -> (r: Response)
    ensures
        r@ == json_text(status, v@),
{
    respond(status, "application/json", Body::Json(v))
}

pub fn json_error(status: u16, msg: &str) -> (r: Response)
    ensures
        r@ == error_text(status, msg@),
{
    let mut m: Vec<(String, Json)> = Vec::new();
    json::put(&mut m, "error", json::text_value(msg));
    let ghost members = json::member_texts(m@);
    let v = json::object(m);
    proof {
        assert(members =~= seq![("error"@, JsonText::Str(msg@))]);
    }
    json_response(status, v)
}

/// The script behind a widget, or that there is none.
pub(crate) fn widget_response(data: Option<Vec<u8>>) -> (r: Response)
    ensures
        r@ == widget_text(data),
{
    match data {
        Some(d) => respond(200, "application/javascript", Body::Bytes(d)),
        None => json_error(404, "widget.js not found"),
    }
}

pub open spec fn widget_text(data: Option<Vec<u8>>) -> ResponseText {
    match data {
        Some(d) => script_text(d@),
        None => error_text(404, "widget.js not found"@),
    }
}

// ── What follows a change ────────────────────────────────────────────────────
/// Something to tell others: on the bus with a topic, or as telemetry without
/// one.
#[derive(Debug)]
pub struct Notice {
    pub topic: Option<String>,
    pub event: String,
    pub payload: Json,
}

pub struct NoticeText {
    pub topic: Option<Seq<char>>,
    pub event: Seq<char>,
    pub payload: JsonText,
}

impl View for Notice {
    type V = NoticeText;

    open spec fn view(&self) -> NoticeText {
        NoticeText {
            topic: json::opt_text(self.topic),
            event: self.event@,
            payload: self.payload@,
        }
    }
}

pub open spec fn notice_texts(v: Seq<Notice>) -> Seq<NoticeText> {
    v.map_values(|n: Notice| n@)
}

pub open spec fn published(topic: Seq<char>, event: Seq<char>, payload: JsonText) -> NoticeText {
    NoticeText { topic: Some(topic), event, payload }
}

pub open spec fn emitted(event: Seq<char>, payload: JsonText) -> NoticeText {
    NoticeText { topic: None, event, payload }
}

pub(crate) fn publish(topic: &str, event: &str, payload: Json) -> (n: Notice)
    ensures
        n@ == published(topic@, event@, payload@),
{
    Notice { topic: Some(topic.to_owned()), event: event.to_owned(), payload }
}

pub(crate) fn emit(event: &str, payload: Json) -> (n: Notice)
    ensures
        n@ == emitted(event@, payload@),
{
    Notice { topic: None, event: event.to_owned(), payload }
}

/// What a change of a store sets off once it has been written.
#[derive(Debug)]
pub struct Saved {
    /// Sent in this order.
    pub notices: Vec<Notice>,
    /// The identifier to hand to the routing script, where it exists.
    pub route: Option<String>,
    pub response: Response,
}

pub struct SavedText {
    pub notices: Seq<NoticeText>,
    pub route: Option<Seq<char>>,
    pub response: ResponseText,
}

impl View for Saved {
    type V = SavedText;

    open spec fn view(&self) -> SavedText {
        SavedText {
            notices: notice_texts(self.notices@),
            route: json::opt_text(self.route),
            response: self.response@,
        }
    }
}

/// The answer to a request, or the change of the store that it asks for.
#[derive(Debug)]
pub enum Step<T> {
    Reply(Response),
    /// Write these items, then go on with [`Saved::finish`].
    Save(Vec<T>, Saved),
}

impl Saved {
    /// What is left to do after the write: everything where it succeeded,
    /// where it failed only the error response.
    pub fn finish(self, written: Result<(), String>) -> (r: Saved)
        ensures
            r@ == match written {
                Ok(_) => self@,
                Err(e) => SavedText {
                    notices: Seq::empty(),
                    route: None,
                    response: error_text(500, "write failed: "@ + e@),
                },
            },
    {
        match written {
            Ok(_) => self,
            Err(e) => {
                let mut msg = "write failed: ".to_owned();
                msg.append(e.as_str());
                let r = Saved {
                    notices: Vec::new(),
                    route: None,
                    response: json_error(500, msg.as_str()),
                };
                proof {
                    assert(notice_texts(r.notices@) =~= Seq::<NoticeText>::empty());
                }
                r
            },
        }
    }
}

pub(crate) fn two(a: Notice, b: Notice) -> (v: Vec<Notice>)
    ensures
        notice_texts(v@) == seq![a@, b@],
{
    let mut v: Vec<Notice> = Vec::new();
    v.push(a);
    v.push(b);
    proof {
        assert(notice_texts(v@) =~= seq![a@, b@]);
    }
    v
}

/// An object with the member `id` alone.
pub open spec fn id_object(id: Seq<char>) -> JsonText {
    JsonText::Object(seq![("id"@, JsonText::Str(id))])
}

pub(crate) fn id_value(id: &str) -> (v: Json)
    ensures
        v@ == id_object(id@),
{
    let mut m: Vec<(String, Json)> = Vec::new();
    json::put(&mut m, "id", json::text_value(id));
    proof {
        assert(json::member_texts(m@) =~= seq![("id"@, JsonText::Str(id@))]);
    }
    json::object(m)
}

// ── Counts ───────────────────────────────────────────────────────────────────
/// How many items there are under a name, and how many of them wait.
#[derive(Debug, Clone)]
pub struct Count {
    pub name: String,
    pub total: u64,
    pub pending: u64,
}

pub struct CountText {
    pub name: Seq<char>,
    pub total: int,
    pub pending: int,
}

impl View for Count {
    type V = CountText;

    open spec fn view(&self) -> CountText {
        CountText { name: self.name@, total: self.total as int, pending: self.pending as int }
    }
}

pub open spec fn count_texts(v: Seq<Count>) -> Seq<CountText> {
    v.map_values(|c: Count| c@)
}

pub open spec fn count_index(v: Seq<CountText>, name: Seq<char>, i: int) -> Option<int>
    decreases v.len() - i,
{
    if i < 0 || i >= v.len() {
        None
    } else if v[i].name == name {
        Some(i)
    } else {
        count_index(v, name, i + 1)
    }
}

/// One item more under a name; names stand in the order in which they came.
pub open spec fn counted(v: Seq<CountText>, name: Seq<char>, pending: bool) -> Seq<CountText> {
    let more: int = if pending {
        1
    } else {
        0
    };
    match count_index(v, name, 0) {
        Some(i) => v.update(
            i,
            CountText { name, total: v[i].total + 1, pending: v[i].pending + more },
        ),
        None => v.push(CountText { name, total: 1, pending: more }),
    }
}

/// The counts over items, each a name and whether it waits.
pub open spec fn tally(items: Seq<(Seq<char>, bool)>) -> Seq<CountText>
    decreases items.len(),
{
    if items.len() == 0 {
        Seq::empty()
    } else {
        counted(tally(items.drop_last()), items.last().0, items.last().1)
    }
}

/// Whether no count is above `n`.
pub open spec fn counts_within(v: Seq<Count>, n: int) -> bool {
    forall|k: int|
        0 <= k < v.len() ==> (#[trigger] v[k]).total <= n && v[k].pending <= v[k].total
}

pub(crate) fn count_in(v: &mut Vec<Count>, name: &str, pending: bool, Ghost(n): Ghost<int>)
    requires
        0 <= n < u64::MAX,
        counts_within(old(v)@, n),
    ensures
        counts_within(final(v)@, n + 1),
        count_texts(final(v)@) == counted(count_texts(old(v)@), name@, pending),
{
    let ghost before = v@;
    let ghost all = count_texts(v@);
    let more: u64 = if pending {
        1
    } else {
        0
    };
    let mut i: usize = 0;
    while i < v.len()
        invariant
            v@ == before,
            before == old(v)@,
            all == count_texts(before),
            i <= v@.len(),
            0 <= n < u64::MAX,
            counts_within(before, n),
            more == if pending {
                1int
            } else {
                0
            },
            count_index(all, name@, 0) == count_index(all, name@, i as int),
        decreases v.len() - i,
    {
        proof {
            assert(all[i as int] == before[i as int]@);
        }
        if str_eq(v[i].name.as_str(), name) {
            let c = Count {
                name: name.to_owned(),
                total: v[i].total + 1,
                pending: v[i].pending + more,
            };
            v.set(i, c);
            proof {
                assert(count_texts(v@) =~= counted(all, name@, pending));
            }
            return;
        }
        i += 1;
    }
    v.push(Count { name: name.to_owned(), total: 1, pending: more });
    proof {
        assert(count_texts(v@) =~= counted(all, name@, pending));
    }
}

/// The counts as an object, each name with its two numbers.
pub open spec fn counts_object(v: Seq<CountText>) -> JsonText {
    JsonText::Object(v.map_values(|c: CountText| (c.name, count_object(c))))
}

pub open spec fn count_object(c: CountText) -> JsonText {
    JsonText::Object(
        seq![("total"@, JsonText::Int(c.total)), ("pending"@, JsonText::Int(c.pending))],
    )
}

pub(crate) fn counts_value(v: &Vec<Count>) -> (r: Json)
    requires
        counts_within(v@, i64::MAX as int),
    ensures
        r@ == counts_object(count_texts(v@)),
{
    let mut out: Vec<(String, Json)> = Vec::new();
    let mut i: usize = 0;
    while i < v.len()
        invariant
            i <= v@.len(),
            out@.len() == i,
            counts_within(v@, i64::MAX as int),
            forall|k: int|
                0 <= k < i ==> (#[trigger] out@[k]).0@ == v@[k].name@ && out@[k].1@ == count_object(
                    v@[k]@,
                ),
        decreases v.len() - i,
    {
        let mut m: Vec<(String, Json)> = Vec::new();
        json::put(&mut m, "total", Json::Int(v[i].total as i64));
        json::put(&mut m, "pending", Json::Int(v[i].pending as i64));
        let ghost members = json::member_texts(m@);
        let c = json::object(m);
        proof {
            assert(members =~= count_object(v@[i as int]@)->Object_0);
        }
        out.push((v[i].name.as_str().to_owned(), c));
        i += 1;
    }
    let ghost flat = json::member_texts(out@);
    let r = json::object(out);
    proof {
        assert(flat =~= counts_object(count_texts(v@))->Object_0);
    }
    r
}

// ── Laws ─────────────────────────────────────────────────────────────────────
pub open spec fn is_under(name: Seq<char>) -> spec_fn((Seq<char>, bool)) -> bool {
    |x: (Seq<char>, bool)| x.0 == name
}

pub open spec fn waits() -> spec_fn((Seq<char>, bool)) -> bool {
    |x: (Seq<char>, bool)| x.1
}

/// The items under a name.
pub open spec fn named(items: Seq<(Seq<char>, bool)>, name: Seq<char>) -> Seq<(Seq<char>, bool)> {
    items.filter(is_under(name))
}

/// The items that wait.
pub open spec fn waiting(items: Seq<(Seq<char>, bool)>) -> Seq<(Seq<char>, bool)> {
    items.filter(waits())
}

/// Whether a count is that of the items under its name, of which there are some.
pub open spec fn is_count_of(c: CountText, items: Seq<(Seq<char>, bool)>) -> bool {
    &&& c.total == named(items, c.name).len()
    &&& c.pending == waiting(named(items, c.name)).len()
    &&& c.total > 0
}

pub open spec fn has_count(v: Seq<CountText>, name: Seq<char>) -> bool {
    exists|k: int| 0 <= k < v.len() && (#[trigger] v[k]).name == name
}

pub open spec fn distinct_names(v: Seq<CountText>) -> bool {
    forall|i: int, j: int|
        0 <= i < j < v.len() ==> (#[trigger] v[i]).name != (#[trigger] v[j]).name
}

/// The totals of counts taken together.
pub open spec fn sum_of_totals(v: Seq<CountText>) -> int
    decreases v.len(),
{
    if v.len() == 0 {
        0
    } else {
        sum_of_totals(v.drop_last()) + v.last().total
    }
}

/// What waits under all counts taken together.
pub open spec fn sum_of_pending(v: Seq<CountText>) -> int
    decreases v.len(),
{
    if v.len() == 0 {
        0
    } else {
        sum_of_pending(v.drop_last()) + v.last().pending
    }
}

proof fn lemma_sum_update(v: Seq<CountText>, i: int, c: CountText)
    requires
        0 <= i < v.len(),
    ensures
        sum_of_totals(v.update(i, c)) == sum_of_totals(v) - v[i].total + c.total,
        sum_of_pending(v.update(i, c)) == sum_of_pending(v) - v[i].pending + c.pending,
    decreases v.len(),
{
    let w = v.update(i, c);
    if i == v.len() - 1 {
        assert(w.drop_last() =~= v.drop_last());
    } else {
        assert(w.drop_last() =~= v.drop_last().update(i, c));
        lemma_sum_update(v.drop_last(), i, c);
    }
}

proof fn lemma_sum_push(v: Seq<CountText>, c: CountText)
    ensures
        sum_of_totals(v.push(c)) == sum_of_totals(v) + c.total,
        sum_of_pending(v.push(c)) == sum_of_pending(v) + c.pending,
{
    assert(v.push(c).drop_last() =~= v);
}

proof fn lemma_count_index(v: Seq<CountText>, name: Seq<char>, i: int)
    requires
        0 <= i,
    ensures
        match count_index(v, name, i) {
            Some(k) => i <= k < v.len() && v[k].name == name,
            None => forall|k: int| i <= k < v.len() ==> (#[trigger] v[k]).name != name,
        },
    decreases v.len() - i,
{
    if i < v.len() && v[i].name != name {
        lemma_count_index(v, name, i + 1);
    }
}

/// One item more: its name has one more, and every other name what it had.
proof fn lemma_named_push(front: Seq<(Seq<char>, bool)>, x: (Seq<char>, bool), name: Seq<char>)
    ensures
        ({
            let more: int = if x.1 {
                1
            } else {
                0
            };
            let a = named(front, name);
            let b = named(front.push(x), name);
            if x.0 == name {
                b.len() == a.len() + 1 && waiting(b).len() == waiting(a).len() + more
            } else {
                b == a
            }
        }),
{
    reveal(Seq::filter);
    let a = named(front, name);
    assert(front.push(x).drop_last() =~= front);
    assert(a.push(x).drop_last() =~= a);
}

/// The counts over items are those of the items: each name that an item has
/// stands there once, with the number of its items and of those that wait, so
/// that together they count every item and everything that waits.
pub proof fn law_counts_add_up(items: Seq<(Seq<char>, bool)>)
    ensures
        distinct_names(tally(items)),
        forall|i: int| 0 <= i < items.len() ==> has_count(tally(items), (#[trigger] items[i]).0),
        forall|k: int| 0 <= k < tally(items).len() ==> is_count_of(#[trigger] tally(items)[k], items),
        sum_of_totals(tally(items)) == items.len(),
        sum_of_pending(tally(items)) == waiting(items).len(),
    decreases items.len(),
{
    reveal(Seq::filter);
    if items.len() > 0 {
        let front = items.drop_last();
        let x = items.last();
        let v = tally(front);
        let w = tally(items);
        law_counts_add_up(front);
        lemma_count_index(v, x.0, 0);
        lemma_named_push(front, x, x.0);
        assert(items =~= front.push(x));
        match count_index(v, x.0, 0) {
            Some(i) => {
                lemma_sum_update(v, i, w[i]);
            },
            None => {
                lemma_sum_push(v, w.last());
                assert(named(front, x.0).len() == 0) by {
                    if named(front, x.0).len() > 0 {
                        let same = is_under(x.0);
                        front.lemma_filter_pred(same, 0);
                        front.lemma_filter_contains_rev(same, front.filter(same)[0]);
                        let j = choose|j: int|
                            0 <= j < front.len() && front[j] == front.filter(same)[0];
                        assert(has_count(v, front[j].0));
                    }
                }
                assert(waiting(named(front, x.0)).len() == 0);
                assert(w[v.len() as int].name == x.0);
            },
        }
        assert forall|k: int| 0 <= k < w.len() implies is_count_of(#[trigger] w[k], items) by {
            if w[k].name != x.0 {
                assert(w[k] == v[k]);
                lemma_named_push(front, x, w[k].name);
            } else if k < v.len() {
                assert(is_count_of(v[k], front));
            }
        }
        assert forall|j: int| 0 <= j < items.len() implies has_count(
            w,
            (#[trigger] items[j]).0,
        ) by {
            if j < front.len() {
                assert(front[j] == items[j]);
                assert(has_count(v, front[j].0));
                let k = choose|k: int| 0 <= k < v.len() && (#[trigger] v[k]).name == front[j].0;
                assert(w[k].name == front[j].0);
            } else {
                let k = match count_index(v, x.0, 0) {
                    Some(i) => i,
                    None => v.len() as int,
                };
                assert(w[k].name == x.0);
            }
        }
    }
}

/// A request asks for a path if and only if its method is that one and its path is
/// the prefix followed by it, or, where it does not start with the prefix, the path
/// itself.
pub proof fn law_asks(req: Request, method: Seq<char>, prefix: Seq<char>, path: Seq<char>)
    ensures
        req.asks(method, prefix, path) == (req.method@ == method && (req.path@ == prefix + path || (
        req.path@ == path && !text::starts_with(path, prefix)))),
{
    let p = req.path@;
    if text::starts_with(p, prefix) {
        let n = prefix.len() as int;
        assert(p.subrange(0, n) == prefix);
        assert(p =~= prefix + p.skip(n));
        assert((prefix + path).skip(n) =~= path);
    } else if p == prefix + path {
        assert(p.subrange(0, prefix.len() as int) =~= prefix);
    }
}

/// A parameter has the value of the first pair of the query under its name.
pub proof fn law_parameter(req: Request, name: Seq<char>, i: int)
    requires
        0 <= i < req.query@.len(),
        req.query@[i].0@ == name,
        forall|j: int| 0 <= j < i ==> (#[trigger] req.query@[j]).0@ != name,
    ensures
        req.param(name) == Some(req.query@[i].1@),
{
    lemma_parameter(req.query@, name, 0);
}

/// A parameter that no pair of the query names has no value.
pub proof fn law_no_parameter(req: Request, name: Seq<char>)
    ensures
        (req.param(name) is None) == (forall|j: int|
            0 <= j < req.query@.len() ==> (#[trigger] req.query@[j]).0@ != name),
{
    lemma_parameter(req.query@, name, 0);
}

proof fn lemma_parameter(query: Seq<(String, String)>, name: Seq<char>, i: int)
    requires
        0 <= i <= query.len(),
    ensures
        match parameter(query, name, i) {
            Some(v) => exists|k: int|
                i <= k < query.len() && (#[trigger] query[k]).0@ == name && query[k].1@ == v
                    && forall|j: int| i <= j < k ==> (#[trigger] query[j]).0@ != name,
            None => forall|j: int| i <= j < query.len() ==> (#[trigger] query[j]).0@ != name,
        },
    decreases query.len() - i,
{
    if i < query.len() {
        if query[i].0@ == name {
            assert(query[i].1@ == parameter(query, name, i)->0);
        } else {
            lemma_parameter(query, name, i + 1);
            if parameter(query, name, i) is Some {
                let k = choose|k: int|
                    i + 1 <= k < query.len() && (#[trigger] query[k]).0@ == name && query[k].1@
                        == parameter(query, name, i)->0 && forall|j: int|
                        i + 1 <= j < k ==> (#[trigger] query[j]).0@ != name;
                assert(query[k].0@ == name);
            }
        }
    }
}

/// A reply in JSON says so, anyone may read it, and an error is an object with the
/// message under `error`.
pub proof fn law_replies(status: u16, v: JsonText, msg: Seq<char>, data: Option<Vec<u8>>)
    ensures
        json_text(status, v).status == status,
        json_text(status, v).content_type == "application/json"@,
        json_text(status, v).body == BodyText::Json(v),
        json_text(status, v).headers.contains(("Access-Control-Allow-Origin"@, "*"@)),
        error_text(status, msg).status == status,
        error_text(status, msg).body == BodyText::Json(
            JsonText::Object(seq![("error"@, JsonText::Str(msg))]),
        ),
        data is Some ==> widget_text(data).status == 200 && widget_text(data).body
            == BodyText::Bytes(data->0@) && widget_text(data).content_type
            == "application/javascript"@,
        data is None ==> widget_text(data).status == 404,
{
    assert(open_headers()[0] == ("Access-Control-Allow-Origin"@, "*"@));
}

} // verus!
