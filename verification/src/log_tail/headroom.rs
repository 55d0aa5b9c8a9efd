//! The stage timings that the headroom proxy logs.
use super::observer::{self, Latency, LineObserver, Observation, Severity, Stage};
use crate::json::{self, Json, JsonText};
use crate::text::{self, str_eq};
use vstd::prelude::*;

verus! {

/// The ranks of the two floors.
#[derive(Debug, Clone, Copy)]
pub struct HeadroomStageTimings {
    pub degraded: i64,
    pub stall: i64,
}

/// What stands in front of the payload.
pub open spec fn marker() -> Seq<char> {
    "STAGE_TIMINGS "@
}

/// The payload of a line: behind the marker from the first brace on, without
/// the space around it.
pub open spec fn payload_of(line: Seq<char>) -> Option<Seq<char>> {
    match text::find(line, marker()) {
        None => None,
        Some(i) => {
            let rest = line.skip(i + marker().len());
            match text::find(rest, "{"@) {
                None => None,
                Some(j) => Some(text::trim(rest.skip(j))),
            }
        },
    }
}

/// The JSON of a line that carries stage timings.
pub fn payload(line: &str) -> (r: Option<String>)
    ensures
        json::is_text(r, payload_of(line@)),
{
    let v = text::to_chars(line);
    let m = text::to_chars("STAGE_TIMINGS ");
    let i = match text::find_chars_from(v.as_slice(), m.as_slice(), 0) {
        Some(i) => i,
        None => {
            return None;
        },
    };
    proof {
        text::lemma_find_from(line@, marker(), 0);
        assert(text::occurs_at(v@, m@, i as int));
        assert(v.len() == v@.len() && m.len() == m@.len());
    }
    let rest = text::substring(v.as_slice(), i + m.len(), v.len());
    proof {
        assert(rest@ =~= line@.skip(i + marker().len()));
    }
    let w = text::to_chars(rest.as_str());
    let b = text::to_chars("{");
    let j = match text::find_chars_from(w.as_slice(), b.as_slice(), 0) {
        Some(j) => j,
        None => {
            return None;
        },
    };
    proof {
        text::lemma_find_from(rest@, "{"@, 0);
    }
    let tail = text::substring(w.as_slice(), j, w.len());
    proof {
        assert(tail@ =~= rest@.skip(j as int));
    }
    Some(text::trim_str(tail.as_str()))
}

/// The number that a value is, as a text.
pub open spec fn number_text(v: JsonText) -> Option<Seq<char>> {
    match v {
        JsonText::Int(n) => Some(text::signed_numeral(n)),
        JsonText::Number(s) => Some(s),
        _ => None,
    }
}

/// The members of an object that are numbers, the first `n` of them.
pub open spec fn numbers(m: Seq<(Seq<char>, JsonText)>, n: int) -> Seq<(Seq<char>, Seq<char>)>
    decreases n,
{
    if n <= 0 {
        Seq::empty()
    } else {
        match number_text(m[n - 1].1) {
            Some(s) => numbers(m, n - 1).push((m[n - 1].0, s)),
            None => numbers(m, n - 1),
        }
    }
}

/// The numbers of the object `stages`.
pub open spec fn stages_in(v: JsonText) -> Option<Seq<(Seq<char>, Seq<char>)>> {
    match json::member_of(v, "stages"@) {
        Some(JsonText::Object(m)) => Some(numbers(m, m.len() as int)),
        _ => None,
    }
}

pub open spec fn pair_texts(v: Seq<(String, String)>) -> Seq<(Seq<char>, Seq<char>)> {
    v.map_values(|p: (String, String)| (p.0@, p.1@))
}

pub open spec fn are_pairs(
    r: Option<Vec<(String, String)>>,
    p: Option<Seq<(Seq<char>, Seq<char>)>>,
) -> bool {
    match r {
        Some(v) => p == Some(pair_texts(v@)),
        None => p is None,
    }
}

/// The stages of a line with their numbers as texts: nothing where the line has
/// no payload, or one that is no JSON or has no stages.
pub fn stage_numbers(line: &str) -> (r: Option<Vec<(String, String)>>)
    ensures
        are_pairs(
            r,
            match payload_of(line@) {
                None => None,
                Some(p) => match json::parsed(p) {
                    Ok(v) => stages_in(v),
                    Err(_) => None,
                },
            },
        ),
{
    match payload(line) {
        None => None,
        Some(p) => match json::parse(p.as_str()) {
            Ok(v) => numbers_of(&v),
            Err(_) => None,
        },
    }
}

/// The numbers of the object `stages` of a payload.
pub fn numbers_of(v: &Json) -> (r: Option<Vec<(String, String)>>)
    ensures
        are_pairs(r, stages_in(v@)),
{
    proof {
        json::lemma_member(*v, "stages"@);
    }
    let m = match v.get("stages") {
        Some(Json::Object(m)) => m,
        _ => {
            return None;
        },
    };
    let ghost all = json::tree(Json::Object(*m))->Object_0;
    let mut out: Vec<(String, String)> = Vec::new();
    let mut i: usize = 0;
    proof {
        assert(pair_texts(out@) =~= Seq::<(Seq<char>, Seq<char>)>::empty());
    }
    while i < m.len()
        invariant
            i <= m@.len(),
            all == json::tree(Json::Object(*m))->Object_0,
            pair_texts(out@) == numbers(all, i as int),
        decreases m.len() - i,
    {
        let ghost before = out@;
        proof {
            assert(all[i as int] == (m@[i as int].0@, json::tree(m@[i as int].1)));
        }
        let number = match &m[i].1 {
            Json::Int(n) => Some(text::signed_decimal(*n)),
            Json::Number(s) => Some(s.as_str().to_owned()),
            _ => None,
        };
        if let Some(s) = number {
            let pair = (m[i].0.as_str().to_owned(), s);
            out.push(pair);
            proof {
                assert(pair_texts(out@) =~= pair_texts(before).push((pair.0@, pair.1@)));
            }
        }
        i += 1;
    }
    Some(out)
}

/// The latency of a stage.
pub open spec fn stage_at(stages: Seq<Stage>, name: Seq<char>, i: int) -> Option<int>
    decreases stages.len() - i,
{
    if i < 0 || i >= stages.len() {
        None
    } else if stages[i].0@ == name {
        Some(i)
    } else {
        stage_at(stages, name, i + 1)
    }
}

/// The stages that hold everything up, in the order in which they are looked at.
pub open spec fn blocking_stages() -> Seq<Seq<char>> {
    seq!["read_request_json"@, "deep_copy"@, "compression_first_stage"@]
}

/// The longest of the first `n` blocking stages, the last of those of one
/// length.
pub open spec fn longest(stages: Seq<Stage>, n: int) -> Option<(Seq<char>, i64)>
    decreases n,
{
    if n <= 0 {
        None
    } else {
        let name = blocking_stages()[n - 1];
        match stage_at(stages, name, 0) {
            None => longest(stages, n - 1),
            Some(i) => match longest(stages, n - 1) {
                Some(best) => if best.1 > stages[i].1.rank {
                    Some(best)
                } else {
                    Some((name, stages[i].1.rank))
                },
                None => Some((name, stages[i].1.rank)),
            },
        }
    }
}

pub open spec fn dominant(stages: Seq<Stage>) -> Option<Seq<char>> {
    match longest(stages, blocking_stages().len() as int) {
        Some(best) => Some(best.0),
        None => None,
    }
}

fn find_stage(stages: &Vec<Stage>, name: &str) -> (r: Option<usize>)
    ensures
        match r {
            Some(i) => i < stages@.len() && stage_at(stages@, name@, 0) == Some(i as int),
            None => stage_at(stages@, name@, 0) is None,
        },
{
    let mut i: usize = 0;
    while i < stages.len()
        invariant
            i <= stages@.len(),
            stage_at(stages@, name@, 0) == stage_at(stages@, name@, i as int),
        decreases stages.len() - i,
    {
        if str_eq(stages[i].0.as_str(), name) {
            return Some(i);
        }
        i += 1;
    }
    None
}

fn dominant_stage(stages: &Vec<Stage>) -> (r: Option<String>)
    ensures
        json::is_text(r, dominant(stages@)),
{
    let names: [&str; 3] = ["read_request_json", "deep_copy", "compression_first_stage"];
    let mut best: Option<(usize, i64)> = None;
    let mut n: usize = 0;
    proof {
        assert(names@.map_values(|s: &str| s@) =~= blocking_stages());
    }
    while n < 3
        invariant
            n <= 3,
            names@.len() == 3,
            blocking_stages().len() == 3,
            forall|k: int| 0 <= k < 3 ==> (#[trigger] names@[k])@ == blocking_stages()[k],
            match best {
                Some(b) => b.0 < 3 && longest(stages@, n as int) == Some(
                    (blocking_stages()[b.0 as int], b.1),
                ),
                None => longest(stages@, n as int) is None,
            },
        decreases 3 - n,
    {
        let name = names[n];
        if let Some(i) = find_stage(stages, name) {
            let rank: i64 = stages[i].1.rank;
            match best {
                Some(b) => {
                    if b.1 <= rank {
                        best = Some((n, rank));
                    }
                },
                None => {
                    best = Some((n, rank));
                },
            }
        }
        n += 1;
    }
    match best {
        Some(b) => Some(names[b.0].to_owned()),
        None => None,
    }
}

impl HeadroomStageTimings {
    /// What the stages of a line say.
    pub open spec fn says(self, stages: Seq<Stage>) -> Option<observer::ObservationText> {
        match stage_at(stages, "total_pre_upstream"@, 0) {
            None => None,
            Some(i) => Some(
                observer::ObservationText {
                    value: stages[i].1@,
                    stage: dominant(stages),
                    severity: Severity::of(stages[i].1.rank, self.degraded, self.stall),
                },
            ),
        }
    }
}

impl LineObserver for HeadroomStageTimings {
    open spec fn label(&self) -> Seq<char> {
        "headroom-stage-timings"@
    }

    open spec fn observed(&self, line: Seq<char>, stages: Option<Seq<Stage>>) -> Option<
        observer::ObservationText,
    > {
        if payload_of(line) is None || stages is None {
            None
        } else {
            self.says(stages->0)
        }
    }

    fn name(&self) -> (r: &'static str) {
        "headroom-stage-timings"
    }

    fn observe(&self, line: &str, stages: Option<&Vec<Stage>>) -> (r: Option<Observation>) {
        if payload(line).is_none() {
            return None;
        }
        let stages = match stages {
            Some(s) => s,
            None => {
                return None;
            },
        };
        let i = match find_stage(stages, "total_pre_upstream") {
            Some(i) => i,
            None => {
                return None;
            },
        };
        let value = observer::copy_latency(&stages[i].1);
        let severity = Severity::classify(value.rank, self.degraded, self.stall);
        Some(Observation { value, stage: dominant_stage(stages), severity })
    }
}

// ── Laws ─────────────────────────────────────────────────────────────────────
/// Whether the first stage of that name stands at `i`.
pub open spec fn is_first_stage(stages: Seq<Stage>, name: Seq<char>, i: int) -> bool {
    &&& 0 <= i < stages.len()
    &&& stages[i].0@ == name
    &&& forall|j: int| 0 <= j < i ==> (#[trigger] stages[j]).0@ != name
}

/// Whether a stage holds everything up.
pub open spec fn is_blocking(name: Seq<char>) -> bool {
    name == "read_request_json"@ || name == "deep_copy"@ || name == "compression_first_stage"@
}

proof fn lemma_stage_at(stages: Seq<Stage>, name: Seq<char>, i: int)
    requires
        0 <= i <= stages.len(),
    ensures
        match stage_at(stages, name, i) {
            Some(k) => i <= k < stages.len() && stages[k].0@ == name && forall|j: int|
                i <= j < k ==> (#[trigger] stages[j]).0@ != name,
            None => forall|j: int| i <= j < stages.len() ==> (#[trigger] stages[j]).0@ != name,
        },
    decreases stages.len() - i,
{
    if i < stages.len() && stages[i].0@ != name {
        lemma_stage_at(stages, name, i + 1);
    }
}

/// The dominant stage is one of the blocking stages of the line, and no blocking
/// stage of the line has a greater latency; of those with one latency it is the one
/// that comes last on the way of a request. There is none only where the line has
/// no blocking stage.
pub proof fn law_dominant_stage(stages: Seq<Stage>)
    ensures
        match dominant(stages) {
            Some(name) => {
                &&& is_blocking(name)
                &&& exists|i: int| is_dominant_at(stages, name, i)
            },
            None => forall|j: int| 0 <= j < stages.len() ==> !is_blocking(#[trigger] stages[j].0@),
        },
{
    let a = "read_request_json"@;
    let b = "deep_copy"@;
    let c = "compression_first_stage"@;
    lemma_stage_at(stages, a, 0);
    lemma_stage_at(stages, b, 0);
    lemma_stage_at(stages, c, 0);
    assert(blocking_stages()[0] == a && blocking_stages()[1] == b && blocking_stages()[2] == c);
    assert(longest(stages, 0) is None);
    assert(longest(stages, 1) == match stage_at(stages, a, 0) {
        Some(i) => Some((a, stages[i].1.rank)),
        None => None,
    });
    assert(longest(stages, 2) == longest(stages, 3 - 1));
    reveal_strlit("read_request_json");
    reveal_strlit("deep_copy");
    reveal_strlit("compression_first_stage");
    assert(a.len() == 17 && b.len() == 9 && c.len() == 23);
    if let Some(name) = dominant(stages) {
        let i = stage_at(stages, name, 0)->0;
        assert(stage_at(stages, name, 0) is Some);
        assert(is_first_stage(stages, name, i));
        assert forall|j: int, other: Seq<char>|
            is_blocking(other) && #[trigger] is_first_stage(stages, other, j) implies
            stages[j].1.rank <= stages[i].1.rank && (stages[j].1.rank == stages[i].1.rank
            ==> !comes_later(other, name)) by {
            lemma_stage_at(stages, other, 0);
            assert(stage_at(stages, other, 0) == Some(j));
        }
        assert(is_dominant_at(stages, name, i));
    }
}

/// Whether one blocking stage comes behind another.
pub open spec fn comes_later(name: Seq<char>, other: Seq<char>) -> bool {
    (name == "compression_first_stage"@ && other != "compression_first_stage"@) || (name
        == "deep_copy"@ && other == "read_request_json"@)
}

/// Whether the first stage of that name stands at `i`, and no blocking stage has a
/// greater latency, nor comes later with the same.
pub open spec fn is_dominant_at(stages: Seq<Stage>, name: Seq<char>, i: int) -> bool {
    &&& is_first_stage(stages, name, i)
    &&& forall|j: int, other: Seq<char>|
        is_blocking(other) && #[trigger] is_first_stage(stages, other, j) ==> stages[j].1.rank
            <= stages[i].1.rank && (stages[j].1.rank == stages[i].1.rank ==> !comes_later(
            other,
            name,
        ))
}

/// What a line says is the total in front of the upstream call, judged against the
/// two floors; a line without a payload, without stages or without that total says
/// nothing.
pub proof fn law_a_line_tells_its_total(
    t: HeadroomStageTimings,
    line: Seq<char>,
    stages: Seq<Stage>,
    i: int,
)
    requires
        payload_of(line) is Some,
        is_first_stage(stages, "total_pre_upstream"@, i),
    ensures
        t.observed(line, Some(stages)) is Some,
        t.observed(line, Some(stages))->0.value == stages[i].1@,
        t.observed(line, Some(stages))->0.stage == dominant(stages),
        (t.observed(line, Some(stages))->0.severity is Stall) == (stages[i].1.rank >= t.stall),
        (t.observed(line, Some(stages))->0.severity is Degraded) == (t.degraded
            <= stages[i].1.rank < t.stall),
{
    lemma_stage_at(stages, "total_pre_upstream"@, 0);
}

/// A line without a payload, without stages or without the total says nothing.
pub proof fn law_other_lines_say_nothing(
    t: HeadroomStageTimings,
    line: Seq<char>,
    stages: Option<Seq<Stage>>,
)
    requires
        payload_of(line) is None || stages is None || forall|j: int|
            0 <= j < stages->0.len() ==> (#[trigger] stages->0[j]).0@ != "total_pre_upstream"@,
    ensures
        t.observed(line, stages) is None,
{
    if stages is Some {
        lemma_stage_at(stages->0, "total_pre_upstream"@, 0);
    }
}

/// The payload starts at the first brace behind the first marker and holds the rest
/// of the line but for the white space at its end.
pub proof fn law_payload(before: Seq<char>, between: Seq<char>, body: Seq<char>, space: Seq<char>)
    requires
        forall|j: int|
            0 <= j < before.len() ==> !text::occurs_at(
                before + "STAGE_TIMINGS "@ + between + body + space,
                "STAGE_TIMINGS "@,
                j,
            ),
        forall|j: int| 0 <= j < between.len() ==> #[trigger] between[j] != '{',
        body.len() > 0,
        body[0] == '{',
        !text::is_space(body.last()),
        forall|j: int| 0 <= j < space.len() ==> text::is_space(#[trigger] space[j]),
    ensures
        payload_of(before + "STAGE_TIMINGS "@ + between + body + space) == Some(body),
{
    let m = "STAGE_TIMINGS "@;
    let line = before + m + between + body + space;
    let n = before.len() as int;
    text::lemma_find_from(line, m, 0);
    assert(line.subrange(n, n + m.len()) =~= m);
    assert(text::occurs_at(line, m, n));
    assert(text::find(line, m) == Some(n));
    let rest = line.skip(n + m.len());
    assert(rest =~= between + body + space);
    reveal_strlit("{");
    let b = between.len() as int;
    text::lemma_find_from(rest, "{"@, 0);
    assert(rest.subrange(b, b + 1) =~= "{"@);
    assert(text::occurs_at(rest, "{"@, b));
    assert forall|j: int| 0 <= j < b implies !text::occurs_at(rest, "{"@, j) by {
        assert(rest[j] == between[j]);
        if text::occurs_at(rest, "{"@, j) {
            assert(rest.subrange(j, j + 1)[0] == "{"@[0]);
        }
    }
    assert(text::find(rest, "{"@) == Some(b));
    let tail = rest.skip(b);
    assert(tail =~= body + space);
    text::law_trim(tail);
    let (x, y) = choose|x: int, y: int| #[trigger]
        text::is_inner(tail, x, y) && text::trim(tail) == tail.subrange(x, y);
    reveal(text::is_space);
    assert(!text::is_space('{'));
    assert(tail[0] == '{');
    assert(x == 0) by {
        if x > 0 {
            assert(text::is_space(tail[0]));
        }
    }
    assert(tail[body.len() - 1] == body.last());
    assert(y >= body.len()) by {
        if y < body.len() {
            assert(text::is_space(tail[body.len() - 1]));
        }
    }
    assert(y == body.len()) by {
        if y > body.len() {
            assert(tail[y - 1] == space[y - 1 - body.len()]);
        }
    }
    assert(tail.subrange(0, y) =~= body);
}

/// The stages of a payload are the members that are numbers, in their order.
pub proof fn law_numbers(m: Seq<(Seq<char>, JsonText)>, n: int)
    requires
        0 <= n <= m.len(),
    ensures
        forall|i: int|
            0 <= i < n && ((#[trigger] m[i]).1 is Number) ==> numbers(m, n).contains(
                (m[i].0, m[i].1->Number_0),
            ),
        forall|i: int|
            0 <= i < n && ((#[trigger] m[i]).1 is Int) ==> numbers(m, n).contains(
                (m[i].0, text::signed_numeral(m[i].1->Int_0)),
            ),
        forall|k: int|
            0 <= k < numbers(m, n).len() ==> is_number_of(#[trigger] numbers(m, n)[k], m, n),
    decreases n,
{
    if n > 0 {
        law_numbers(m, n - 1);
        let front = numbers(m, n - 1);
        let all = numbers(m, n);
        if number_text(m[n - 1].1) is Some {
            assert(all[front.len() as int] == (m[n - 1].0, number_text(m[n - 1].1)->0));
        }
        assert forall|x: (Seq<char>, Seq<char>)| front.contains(x) implies #[trigger] all.contains(
            x,
        ) by {
            let k = choose|k: int| 0 <= k < front.len() && front[k] == x;
            assert(all[k] == x);
        }
        assert forall|k: int| 0 <= k < all.len() implies is_number_of(#[trigger] all[k], m, n) by {
            if k < front.len() {
                assert(all[k] == front[k]);
                assert(is_number_of(front[k], m, n - 1));
            } else {
                assert(m[n - 1].0 == all[k].0);
            }
        }
    }
}

/// Whether a stage is a member that is a number.
pub open spec fn is_number_of(
    x: (Seq<char>, Seq<char>),
    m: Seq<(Seq<char>, JsonText)>,
    n: int,
) -> bool {
    exists|i: int|
        0 <= i < n && (#[trigger] m[i]).0 == x.0 && (m[i].1 == JsonText::Number(x.1) || (m[i].1 is Int
            && x.1 == text::signed_numeral(m[i].1->Int_0)))
}

/// The stages of a payload are the numbers under `stages`, where that is an object, and
/// there are none otherwise.
pub proof fn law_stages_of_a_payload(
    m: Seq<(Seq<char>, JsonText)>,
    rest: Seq<(Seq<char>, JsonText)>,
    t: Seq<char>,
)
    ensures
        stages_in(JsonText::Object(seq![("stages"@, JsonText::Object(m))] + rest)) == Some(
            numbers(m, m.len() as int),
        ),
        stages_in(JsonText::Object(seq![("stages"@, JsonText::Str(t))] + rest)) is None,
        stages_in(JsonText::Object(Seq::empty())) is None,
        stages_in(JsonText::Null) is None,
{
    let a = seq![("stages"@, JsonText::Object(m))] + rest;
    let b = seq![("stages"@, JsonText::Str(t))] + rest;
    assert(a[0].0 == "stages"@ && b[0].0 == "stages"@);
}

} // verus!
