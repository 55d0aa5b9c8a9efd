//! The authority registry: which registered source answers a query, and what
//! is said when none can. A registry that is absent or does not match leaves
//! generic recall as it is.
use crate::order;
use crate::text::{self, split_char, split_lines, str_eq, to_chars, to_lowercase, trim_str};
use vstd::prelude::*;

verus! {

pub const REGISTRY_RELATIVE: &'static str = ".hex/config/memory-authority.toml";

pub const REGISTRY_LIMIT: u64 = 65_536;

pub const SOURCE_LIMIT: u64 = 131_072;

pub const SOURCE_AGGREGATE_LIMIT: u64 = 262_144;

pub const MAX_ENTRIES: usize = 64;

pub const MAX_MATCHES: usize = 8;

pub const MAX_SOURCES: usize = 2;

pub const MAX_EXCERPT_CHARS: usize = 900;

pub const MAX_PATH_COMPONENTS: usize = 16;

#[derive(Debug, Clone, Copy, PartialEq, Eq, Structural)]
pub enum AuthorityStatus {
    Current,
    Historical,
    Unknown,
}

#[derive(Debug, Clone, Copy, PartialEq, Eq, Structural)]
pub enum QueryIntent {
    Current,
    Historical,
}

#[derive(Debug, Clone, Copy, PartialEq, Eq, Structural)]
pub enum ResolutionKind {
    Absent,
    Unmatched,
    Matched,
    Invalid,
    PrivateOnly,
    Conflict,
    Unsupported,
}

/// One entry of the registry.
#[derive(Debug, Clone)]
pub struct RegistrySource {
    pub id: String,
    pub path: String,
    pub heading: Option<String>,
    pub topics: Vec<String>,
    pub authority_status: Option<String>,
    pub effective_date: Option<String>,
    pub superseded_by: Option<String>,
    pub private: Option<bool>,
}

#[derive(Debug, Clone)]
pub struct Registry {
    pub version: u32,
    pub sources: Vec<RegistrySource>,
}

/// What reading the registry gave.
#[derive(Debug, Clone)]
pub enum RegistryRead {
    /// There is none.
    Absent,
    /// It cannot be read, is no text, or does not parse.
    Unreadable,
    Parsed(Registry),
}

/// A source that answers, with the part of it that is shown.
#[derive(Debug, Clone)]
pub struct ResolvedSource {
    pub id: String,
    pub path: String,
    pub status: AuthorityStatus,
    pub effective_date: Option<String>,
    pub superseded_by: Option<String>,
    pub excerpt: String,
}

#[derive(Debug, Clone)]
pub struct Resolution {
    pub kind: ResolutionKind,
    pub intent: QueryIntent,
    pub sources: Vec<ResolvedSource>,
    pub notice: Option<String>,
}

/// An entry of the registry that may answer: its number and its status.
#[derive(Debug, Clone, Copy, PartialEq, Eq, Structural)]
pub struct Pick {
    pub index: usize,
    pub status: AuthorityStatus,
}

// ── Names ────────────────────────────────────────────────────────────────────
impl AuthorityStatus {
    pub open spec fn of_name(raw: Seq<char>) -> Option<AuthorityStatus> {
        if raw == "current"@ {
            Some(AuthorityStatus::Current)
        } else if raw == "historical"@ {
            Some(AuthorityStatus::Historical)
        } else if raw == "unknown"@ {
            Some(AuthorityStatus::Unknown)
        } else {
            None
        }
    }

    /// The status in a registry entry: none given is unknown.
    pub open spec fn registered(raw: Option<String>) -> Option<AuthorityStatus> {
        match raw {
            Some(s) => Self::of_name(s@),
            None => Some(AuthorityStatus::Unknown),
        }
    }

    /// The status in a database row: anything else counts as unknown.
    pub fn from_db(raw: &str) -> (r: AuthorityStatus)
        ensures
            r == match Self::of_name(raw@) {
                Some(s) => s,
                None => AuthorityStatus::Unknown,
            },
    {
        if str_eq(raw, "current") {
            AuthorityStatus::Current
        } else if str_eq(raw, "historical") {
            AuthorityStatus::Historical
        } else {
            AuthorityStatus::Unknown
        }
    }

    /// The status in a registry entry, or nothing if its name is not known.
    pub fn from_registry(raw: &Option<String>) -> (r: Option<AuthorityStatus>)
        ensures
            r == Self::registered(*raw),
    {
        match raw {
            None => Some(AuthorityStatus::Unknown),
            Some(s) => if str_eq(s.as_str(), "current") {
                Some(AuthorityStatus::Current)
            } else if str_eq(s.as_str(), "historical") {
                Some(AuthorityStatus::Historical)
            } else if str_eq(s.as_str(), "unknown") {
                Some(AuthorityStatus::Unknown)
            } else {
                None
            },
        }
    }
}

impl ResolutionKind {
    pub open spec fn name(self) -> Seq<char> {
        match self {
            ResolutionKind::Absent => "absent"@,
            ResolutionKind::Unmatched => "unmatched"@,
            ResolutionKind::Matched => "matched"@,
            ResolutionKind::Invalid => "invalid"@,
            ResolutionKind::PrivateOnly => "private_only"@,
            ResolutionKind::Conflict => "conflict"@,
            ResolutionKind::Unsupported => "unsupported"@,
        }
    }

    pub fn as_str(self) -> (r: &'static str)
        ensures
            r@ == self.name(),
    {
        match self {
            ResolutionKind::Absent => "absent",
            ResolutionKind::Unmatched => "unmatched",
            ResolutionKind::Matched => "matched",
            ResolutionKind::Invalid => "invalid",
            ResolutionKind::PrivateOnly => "private_only",
            ResolutionKind::Conflict => "conflict",
            ResolutionKind::Unsupported => "unsupported",
        }
    }
}

impl Resolution {
    /// A resolution without sources.
    pub open spec fn is_simple(
        self,
        kind: ResolutionKind,
        intent: QueryIntent,
        notice: Option<Seq<char>>,
    ) -> bool {
        &&& self.kind == kind
        &&& self.intent == intent
        &&& self.sources@.len() == 0
        &&& crate::json::is_text(self.notice, notice)
    }

    pub(crate) fn simple(kind: ResolutionKind, intent: QueryIntent, notice: Option<String>) -> (r: Resolution)
        ensures
            r.is_simple(kind, intent, crate::llm_config::opt_text(notice)),
    {
        Resolution { kind, intent, sources: Vec::new(), notice }
    }

    /// Whether generic recall goes on as if there were no registry.
    pub fn preserves_generic(&self) -> (b: bool)
        ensures
            b == (self.kind is Absent || self.kind is Unmatched),
    {
        match self.kind {
            ResolutionKind::Absent => true,
            ResolutionKind::Unmatched => true,
            _ => false,
        }
    }

    /// Whether the registry was meant to answer and could not.
    pub fn is_degraded(&self) -> (b: bool)
        ensures
            b == (self.kind is Invalid || self.kind is Conflict || self.kind is Unsupported),
    {
        match self.kind {
            ResolutionKind::Invalid => true,
            ResolutionKind::Conflict => true,
            ResolutionKind::Unsupported => true,
            _ => false,
        }
    }
}

// ── Tokens ───────────────────────────────────────────────────────────────────
pub open spec fn not_alphanumeric() -> spec_fn(char) -> bool {
    |c: char| !text::alphanumeric(c)
}

/// `s` without the items that stand in it before.
pub open spec fn uniq(s: Seq<Seq<char>>) -> Seq<Seq<char>>
    decreases s.len(),
{
    if s.len() == 0 {
        s
    } else if uniq(s.drop_last()).contains(s.last()) {
        uniq(s.drop_last())
    } else {
        uniq(s.drop_last()).push(s.last())
    }
}

/// The words of a text in lower case: maximal runs of alphanumeric characters,
/// each once.
pub open spec fn token_set(t: Seq<char>) -> Seq<Seq<char>> {
    uniq(text::non_empty(text::split_by(text::lowercase(t), not_alphanumeric())))
}

pub open spec fn generic_tokens() -> Seq<Seq<char>> {
    seq![
        "a"@,
        "an"@,
        "and"@,
        "are"@,
        "as"@,
        "at"@,
        "be"@,
        "by"@,
        "for"@,
        "from"@,
        "how"@,
        "in"@,
        "is"@,
        "it"@,
        "of"@,
        "on"@,
        "or"@,
        "that"@,
        "the"@,
        "this"@,
        "to"@,
        "what"@,
        "when"@,
        "where"@,
        "which"@,
        "who"@,
        "why"@,
        "with"@,
    ]
}

/// The words of a topic that tell it apart.
pub open spec fn significant(topic: Seq<char>) -> Seq<Seq<char>> {
    token_set(topic).filter(|t: Seq<char>| !generic_tokens().contains(t))
}

/// A topic has at least two words that tell it apart.
pub open spec fn usable_topic(topic: Seq<char>) -> bool {
    significant(topic).len() >= 2
}

/// The words that ask for what held before.
pub open spec fn asks_history(query: Seq<char>) -> bool {
    let t = token_set(query);
    t.contains("history"@) || t.contains("historical"@) || t.contains("previous"@) || t.contains(
        "former"@,
    ) || t.contains("superseded"@) || t.contains("before"@)
}

pub open spec fn intent_of(query: Seq<char>) -> QueryIntent {
    if asks_history(query) {
        QueryIntent::Historical
    } else {
        QueryIntent::Current
    }
}

fn lists(v: &Vec<String>, s: &str) -> (b: bool)
    ensures
        b == text::texts(v@).contains(s@),
{
    crate::memory::index::contains_text(v, s)
}

fn push_unique(out: &mut Vec<String>, s: String)
    ensures
        text::texts(final(out)@) == if text::texts(old(out)@).contains(s@) {
            text::texts(old(out)@)
        } else {
            text::texts(old(out)@).push(s@)
        },
{
    if !lists(out, s.as_str()) {
        proof {
            text::lemma_texts_push(out@, s);
        }
        out.push(s);
    }
}

/// The words of a text in lower case, each once.
pub fn tokens(t: &str) -> (r: Vec<String>)
    ensures
        text::texts(r@) == token_set(t@),
{
    let low = to_lowercase(t);
    let v = to_chars(low.as_str());
    let ghost cut = not_alphanumeric();
    let mut out: Vec<String> = Vec::new();
    let mut cur: String = String::new();
    let mut i: usize = 0;
    proof {
        reveal(Seq::filter);
        assert(v@.take(0) =~= Seq::<char>::empty());
        let one = text::split_by(v@.take(0), cut);
        assert(one.drop_last() =~= Seq::<Seq<char>>::empty());
        assert(text::texts(out@) =~= uniq(text::non_empty(one.drop_last())));
    }
    while i < v.len()
        invariant
            i <= v@.len(),
            cut == not_alphanumeric(),
            text::split_by(v@.take(i as int), cut).len() > 0,
            text::split_by(v@.take(i as int), cut).last() == cur@,
            text::texts(out@) == uniq(
                text::non_empty(text::split_by(v@.take(i as int), cut).drop_last()),
            ),
        decreases v.len() - i,
    {
        let ghost before = text::split_by(v@.take(i as int), cut);
        proof {
            assert(v@.take(i + 1).drop_last() =~= v@.take(i as int));
            assert(v@.take(i + 1).last() == v@[i as int]);
            assert(before =~= before.drop_last().push(cur@));
            text::lemma_non_empty_push(before.drop_last(), cur@);
        }
        if !v[i].is_alphanumeric() {
            proof {
                assert(text::split_by(v@.take(i + 1), cut).drop_last() =~= before);
            }
            if !cur.as_str().is_empty() {
                let ghost kept = text::non_empty(before.drop_last());
                proof {
                    assert(kept.push(cur@).drop_last() =~= kept);
                }
                push_unique(&mut out, cur);
                cur = String::new();
            }
        } else {
            cur.push(v[i]);
            proof {
                assert(text::split_by(v@.take(i + 1), cut).drop_last() =~= before.drop_last());
            }
        }
        i += 1;
    }
    proof {
        let all = text::split_by(v@, cut);
        assert(v@.take(v@.len() as int) =~= v@);
        assert(all =~= all.drop_last().push(cur@));
        text::lemma_non_empty_push(all.drop_last(), cur@);
        let kept = text::non_empty(all.drop_last());
        assert(kept.push(cur@).drop_last() =~= kept);
    }
    if !cur.as_str().is_empty() {
        push_unique(&mut out, cur);
    }
    out
}

/// Whether a word is too common to tell a topic apart.
pub fn is_generic_topic_token(t: &str) -> (b: bool)
    ensures
        b == generic_tokens().contains(t@),
{
    proof {
        let g = generic_tokens();
        assert(g[0] == "a"@);
        assert(g[1] == "an"@);
        assert(g[2] == "and"@);
        assert(g[3] == "are"@);
        assert(g[4] == "as"@);
        assert(g[5] == "at"@);
        assert(g[6] == "be"@);
        assert(g[7] == "by"@);
        assert(g[8] == "for"@);
        assert(g[9] == "from"@);
        assert(g[10] == "how"@);
        assert(g[11] == "in"@);
        assert(g[12] == "is"@);
        assert(g[13] == "it"@);
        assert(g[14] == "of"@);
        assert(g[15] == "on"@);
        assert(g[16] == "or"@);
        assert(g[17] == "that"@);
        assert(g[18] == "the"@);
        assert(g[19] == "this"@);
        assert(g[20] == "to"@);
        assert(g[21] == "what"@);
        assert(g[22] == "when"@);
        assert(g[23] == "where"@);
        assert(g[24] == "which"@);
        assert(g[25] == "who"@);
        assert(g[26] == "why"@);
        assert(g[27] == "with"@);
    }
    str_eq(t, "a") || str_eq(t, "an") || str_eq(t, "and") || str_eq(t, "are") || str_eq(t, "as")
        || str_eq(t, "at") || str_eq(t, "be") || str_eq(t, "by") || str_eq(t, "for") || str_eq(
        t,
        "from",
    ) || str_eq(t, "how") || str_eq(t, "in") || str_eq(t, "is") || str_eq(t, "it") || str_eq(
        t,
        "of",
    ) || str_eq(t, "on") || str_eq(t, "or") || str_eq(t, "that") || str_eq(t, "the") || str_eq(
        t,
        "this",
    ) || str_eq(t, "to") || str_eq(t, "what") || str_eq(t, "when") || str_eq(t, "where") || str_eq(
        t,
        "which",
    ) || str_eq(t, "who") || str_eq(t, "why") || str_eq(t, "with")
}

fn significant_tokens(topic: &str) -> (r: Vec<String>)
    ensures
        text::texts(r@) == significant(topic@),
{
    let all = tokens(topic);
    let ghost list = text::texts(all@);
    let ghost keep = |t: Seq<char>| !generic_tokens().contains(t);
    let mut out: Vec<String> = Vec::new();
    let mut i: usize = 0;
    proof {
        reveal(Seq::filter);
        assert(list.take(0) =~= Seq::<Seq<char>>::empty());
        assert(text::texts(out@) =~= list.take(0).filter(keep));
    }
    while i < all.len()
        invariant
            i <= all@.len(),
            list == text::texts(all@),
            keep == (|t: Seq<char>| !generic_tokens().contains(t)),
            text::texts(out@) == list.take(i as int).filter(keep),
        decreases all.len() - i,
    {
        proof {
            reveal(Seq::filter);
            assert(list.take(i + 1).drop_last() =~= list.take(i as int));
            assert(list.take(i + 1).last() == all@[i as int]@);
        }
        if !is_generic_topic_token(all[i].as_str()) {
            let t = all[i].clone();
            proof {
                text::lemma_texts_push(out@, t);
            }
            out.push(t);
        }
        i += 1;
    }
    proof {
        assert(list.take(list.len() as int) =~= list);
    }
    out
}

/// The words that tell a topic apart, if there are at least two.
pub fn topic_tokens(topic: &str) -> (r: Option<Vec<String>>)
    ensures
        (r is Some) == usable_topic(topic@),
        r is Some ==> text::texts(r->0@) == significant(topic@),
{
    let t = significant_tokens(topic);
    proof {
        assert(text::texts(t@).len() == t@.len());
    }
    if t.len() >= 2 {
        Some(t)
    } else {
        None
    }
}

/// Whether a query asks for what holds or for what held before.
pub fn query_intent(query: &str) -> (r: QueryIntent)
    ensures
        r == intent_of(query@),
{
    let t = tokens(query);
    if lists(&t, "history") || lists(&t, "historical") || lists(&t, "previous") || lists(&t, "former")
        || lists(&t, "superseded") || lists(&t, "before") {
        QueryIntent::Historical
    } else {
        QueryIntent::Current
    }
}

// ── The registry ─────────────────────────────────────────────────────────────
/// A path component that names a directory or file.
pub open spec fn is_name(p: Seq<char>) -> bool {
    p.len() > 0 && p != "."@
}

pub open spec fn names_of(path: Seq<char>) -> Seq<Seq<char>> {
    text::split(path, '/').filter(|p: Seq<char>| is_name(p))
}

/// A relative path that does not climb and has a bounded number of components.
pub open spec fn bounded_path(path: Seq<char>) -> bool {
    &&& path.len() > 0
    &&& path[0] != '/'
    &&& text::split(path, '/')[0] != "."@
    &&& !text::split(path, '/').contains(".."@)
    &&& names_of(path).len() <= MAX_PATH_COMPONENTS
}

/// An entry that can be used.
pub open spec fn sound_source(s: RegistrySource) -> bool {
    &&& text::trim(s.id@).len() > 0
    &&& bounded_path(s.path@)
    &&& s.heading is Some ==> text::trim(s.heading->0@).len() > 0
    &&& s.topics@.len() > 0
    &&& forall|k: int| 0 <= k < s.topics@.len() ==> usable_topic((#[trigger] s.topics@[k])@)
    &&& AuthorityStatus::registered(s.authority_status) is Some
}

/// Every entry can be used and no id stands twice.
pub open spec fn sound_sources(s: Seq<RegistrySource>) -> bool {
    &&& forall|i: int| 0 <= i < s.len() ==> sound_source(#[trigger] s[i])
    &&& forall|i: int, j: int|
        0 <= i < j < s.len() ==> (#[trigger] s[i]).id@ != (#[trigger] s[j]).id@
}

/// Whether a path is relative, does not climb, and is not too deep.
pub fn valid_relative_path(path: &str) -> (b: bool)
    ensures
        b == bounded_path(path@),
{
    let v = to_chars(path);
    if v.len() == 0 || v[0] == '/' {
        return false;
    }
    let parts = split_char(path, '/');
    let ghost list = text::split(path@, '/');
    let ghost keep = |p: Seq<char>| is_name(p);
    let mut named: usize = 0;
    let mut climbs: bool = false;
    let mut i: usize = 0;
    proof {
        reveal(Seq::filter);
        assert(list.take(0) =~= Seq::<Seq<char>>::empty());
    }
    while i < parts.len()
        invariant
            i <= parts@.len(),
            list == text::texts(parts@),
            keep == (|p: Seq<char>| is_name(p)),
            named == list.take(i as int).filter(keep).len(),
            named <= i,
            climbs == exists|k: int| 0 <= k < i && #[trigger] list[k] == ".."@,
        decreases parts.len() - i,
    {
        proof {
            reveal(Seq::filter);
            assert(list.take(i + 1).drop_last() =~= list.take(i as int));
            assert(list.take(i + 1).last() == parts@[i as int]@);
            assert(list[i as int] == parts@[i as int]@);
        }
        let p = parts[i].as_str();
        if str_eq(p, "..") {
            climbs = true;
        }
        if !p.is_empty() && !str_eq(p, ".") {
            named += 1;
        }
        i += 1;
    }
    proof {
        assert(list.take(list.len() as int) =~= list);
        assert(climbs == list.contains(".."@));
        assert(list[0] == parts@[0]@);
    }
    !str_eq(parts[0].as_str(), ".") && !climbs && named <= MAX_PATH_COMPONENTS
}

fn source_is_sound(s: &RegistrySource) -> (b: bool)
    ensures
        b == sound_source(*s),
{
    let id = trim_str(s.id.as_str());
    if id.as_str().is_empty() || !valid_relative_path(s.path.as_str()) || s.topics.len() == 0 {
        return false;
    }
    if let Some(h) = &s.heading {
        let t = trim_str(h.as_str());
        if t.as_str().is_empty() {
            return false;
        }
    }
    if AuthorityStatus::from_registry(&s.authority_status).is_none() {
        return false;
    }
    let mut k: usize = 0;
    while k < s.topics.len()
        invariant
            k <= s.topics@.len(),
            forall|m: int| 0 <= m < k ==> usable_topic((#[trigger] s.topics@[m])@),
        decreases s.topics.len() - k,
    {
        if topic_tokens(s.topics[k].as_str()).is_none() {
            return false;
        }
        k += 1;
    }
    true
}

/// Whether a registry can be used: not too many entries, each sound, no id
/// twice.
pub fn validate_registry(registry: &Registry) -> (r: Result<(), String>)
    ensures
        (r is Ok) == (registry.sources@.len() <= MAX_ENTRIES && sound_sources(registry.sources@)),
        r is Err ==> r->Err_0@ == if registry.sources@.len() > MAX_ENTRIES {
            "registry entry limit"@
        } else {
            "invalid registry"@
        },
{
    let s = &registry.sources;
    if s.len() > MAX_ENTRIES {
        return Err("registry entry limit".to_owned());
    }
    let mut i: usize = 0;
    while i < s.len()
        invariant
            s == registry.sources,
            i <= s@.len(),
            s@.len() <= MAX_ENTRIES,
            forall|k: int| 0 <= k < i ==> sound_source(#[trigger] s@[k]),
            forall|k: int, m: int|
                0 <= k < m < i ==> (#[trigger] s@[k]).id@ != (#[trigger] s@[m]).id@,
        decreases s.len() - i,
    {
        if !source_is_sound(&s[i]) {
            return Err("invalid registry".to_owned());
        }
        let mut j: usize = 0;
        while j < i
            invariant
                s == registry.sources,
                j <= i < s@.len(),
                s@.len() <= MAX_ENTRIES,
                forall|k: int| 0 <= k < j ==> (#[trigger] s@[k]).id@ != s@[i as int].id@,
            decreases i - j,
        {
            if s[j].id == s[i].id {
                return Err("invalid registry".to_owned());
            }
            j += 1;
        }
        i += 1;
    }
    Ok(())
}

/// The id of the entry that supersedes another, unless it is empty.
pub open spec fn successor(v: Option<String>) -> Option<Seq<char>> {
    match v {
        Some(s) => if s@.len() > 0 {
            Some(s@)
        } else {
            None
        },
        None => None,
    }
}

/// The number of the last entry with an id, below `n`.
pub open spec fn id_index(s: Seq<RegistrySource>, id: Seq<char>, n: int) -> Option<int>
    decreases n,
{
    if n <= 0 {
        None
    } else if s[n - 1].id@ == id {
        Some(n - 1)
    } else {
        id_index(s, id, n - 1)
    }
}

/// An agent may only see what is marked as not private.
pub open spec fn hidden(s: RegistrySource, for_agent: bool) -> bool {
    for_agent && s.private != Some(false)
}

pub open spec fn bad_status(id: Seq<char>) -> Seq<char> {
    "invalid registry status for "@ + id
}

pub open spec fn bad_supersession(id: Seq<char>) -> Seq<char> {
    "invalid registry supersession for "@ + id
}

/// The status that an entry has in effect: one that names a successor is
/// historical, and the successor must be another entry that is current, not
/// superseded itself, and visible.
pub open spec fn effective_status(s: Seq<RegistrySource>, i: int, for_agent: bool) -> Result<
    AuthorityStatus,
    Seq<char>,
> {
    match AuthorityStatus::registered(s[i].authority_status) {
        None => Err(bad_status(s[i].id@)),
        Some(raw) => match successor(s[i].superseded_by) {
            None => Ok(raw),
            Some(id) => match id_index(s, id, s.len() as int) {
                None => Err(bad_supersession(s[i].id@)),
                Some(t) => match AuthorityStatus::registered(s[t].authority_status) {
                    None => Err(bad_status(s[t].id@)),
                    Some(status) => if s[t].id@ == s[i].id@ || successor(s[t].superseded_by) is Some
                        || status != AuthorityStatus::Current || hidden(s[t], for_agent) {
                        Err(bad_supersession(s[i].id@))
                    } else {
                        Ok(AuthorityStatus::Historical)
                    },
                },
            },
        },
    }
}

/// The visible entries among `matched`, in order, each with its status.
pub open spec fn eligible(s: Seq<RegistrySource>, matched: Seq<usize>, for_agent: bool) -> Result<
    Seq<Pick>,
    Seq<char>,
>
    decreases matched.len(),
{
    if matched.len() == 0 {
        Ok(Seq::empty())
    } else {
        let i = matched.last();
        match eligible(s, matched.drop_last(), for_agent) {
            Err(e) => Err(e),
            Ok(front) => if hidden(s[i as int], for_agent) {
                Ok(front)
            } else {
                match effective_status(s, i as int, for_agent) {
                    Err(e) => Err(e),
                    Ok(status) => Ok(front.push(Pick { index: i, status })),
                }
            },
        }
    }
}

fn find_id(s: &Vec<RegistrySource>, id: &str) -> (r: Option<usize>)
    ensures
        match r {
            Some(i) => id_index(s@, id@, s@.len() as int) == Some(i as int) && i < s@.len(),
            None => id_index(s@, id@, s@.len() as int) is None,
        },
{
    let mut n: usize = s.len();
    while n > 0
        invariant
            n <= s@.len(),
            id_index(s@, id@, s@.len() as int) == id_index(s@, id@, n as int),
        decreases n,
    {
        if str_eq(s[n - 1].id.as_str(), id) {
            return Some(n - 1);
        }
        n -= 1;
    }
    None
}

fn is_hidden(s: &RegistrySource, for_agent: bool) -> (b: bool)
    ensures
        b == hidden(*s, for_agent),
{
    for_agent && match s.private {
        Some(p) => p,
        None => true,
    }
}

fn status_in_effect(s: &Vec<RegistrySource>, i: usize, for_agent: bool) -> (r: Result<
    AuthorityStatus,
    String,
>)
    requires
        i < s@.len(),
    ensures
        match r {
            Ok(a) => effective_status(s@, i as int, for_agent) == Ok::<AuthorityStatus, Seq<char>>(
                a,
            ),
            Err(e) => effective_status(s@, i as int, for_agent) == Err::<
                AuthorityStatus,
                Seq<char>,
            >(e@),
        },
{
    let raw = match AuthorityStatus::from_registry(&s[i].authority_status) {
        Some(a) => a,
        None => {
            let mut m = "invalid registry status for ".to_owned();
            m.append(s[i].id.as_str());
            return Err(m);
        },
    };
    let target_id = match &s[i].superseded_by {
        Some(id) => if id.as_str().is_empty() {
            return Ok(raw);
        } else {
            id
        },
        None => {
            return Ok(raw);
        },
    };
    let mut bad = "invalid registry supersession for ".to_owned();
    bad.append(s[i].id.as_str());
    let t: usize = match find_id(s, target_id.as_str()) {
        Some(t) => t,
        None => {
            return Err(bad);
        },
    };
    let status = match AuthorityStatus::from_registry(&s[t].authority_status) {
        Some(a) => a,
        None => {
            let mut m = "invalid registry status for ".to_owned();
            m.append(s[t].id.as_str());
            return Err(m);
        },
    };
    let chained = match &s[t].superseded_by {
        Some(id) => !id.as_str().is_empty(),
        None => false,
    };
    if s[t].id == s[i].id || chained || status != AuthorityStatus::Current || is_hidden(
        &s[t],
        for_agent,
    ) {
        return Err(bad);
    }
    Ok(AuthorityStatus::Historical)
}

/// The visible entries among `matched`, each with the status that it has in
/// effect.
pub fn effective_sources(registry: &Registry, matched: &Vec<usize>, for_agent: bool) -> (r: Result<
    Vec<Pick>,
    String,
>)
    requires
        forall|k: int| 0 <= k < matched@.len() ==> (#[trigger] matched@[k]) < registry.sources@.len(),
    ensures
        match r {
            Ok(p) => eligible(registry.sources@, matched@, for_agent) == Ok::<Seq<Pick>, Seq<char>>(
                p@,
            ),
            Err(e) => eligible(registry.sources@, matched@, for_agent) == Err::<
                Seq<Pick>,
                Seq<char>,
            >(e@),
        },
{
    let s = &registry.sources;
    let mut out: Vec<Pick> = Vec::new();
    let mut k: usize = 0;
    proof {
        assert(matched@.take(0) =~= Seq::<usize>::empty());
        assert(out@ =~= Seq::<Pick>::empty());
    }
    while k < matched.len()
        invariant
            s == registry.sources,
            k <= matched@.len(),
            forall|k: int| 0 <= k < matched@.len() ==> (#[trigger] matched@[k]) < s@.len(),
            eligible(s@, matched@.take(k as int), for_agent) == Ok::<Seq<Pick>, Seq<char>>(out@),
        decreases matched.len() - k,
    {
        let i: usize = matched[k];
        proof {
            assert(matched@.take(k + 1).drop_last() =~= matched@.take(k as int));
            assert(matched@.take(k + 1).last() == i);
        }
        if !is_hidden(&s[i], for_agent) {
            match status_in_effect(s, i, for_agent) {
                Ok(status) => {
                    out.push(Pick { index: i, status });
                },
                Err(e) => {
                    proof {
                        lemma_eligible_error(s@, matched@, for_agent, k + 1);
                    }
                    return Err(e);
                },
            }
        }
        k += 1;
    }
    proof {
        assert(matched@.take(matched@.len() as int) =~= matched@);
    }
    Ok(out)
}

proof fn lemma_eligible_error(s: Seq<RegistrySource>, matched: Seq<usize>, for_agent: bool, k: int)
    requires
        0 <= k <= matched.len(),
        eligible(s, matched.take(k), for_agent) is Err,
    ensures
        eligible(s, matched, for_agent) == eligible(s, matched.take(k), for_agent),
    decreases matched.len() - k,
{
    if k == matched.len() {
        assert(matched.take(k) =~= matched);
    } else {
        assert(matched.take(k + 1).drop_last() =~= matched.take(k));
        lemma_eligible_error(s, matched, for_agent, k + 1);
    }
}

// ── Selection ────────────────────────────────────────────────────────────────
pub open spec fn all_in(need: Seq<Seq<char>>, have: Seq<Seq<char>>) -> bool {
    forall|k: int| 0 <= k < need.len() ==> have.contains(#[trigger] need[k])
}

/// A query names a topic: it holds every word that tells the topic apart.
pub open spec fn names_topic(query: Seq<char>, topic: Seq<char>) -> bool {
    usable_topic(topic) && all_in(significant(topic), token_set(query))
}

pub open spec fn names_source(query: Seq<char>, s: RegistrySource) -> bool {
    exists|k: int| 0 <= k < s.topics@.len() && names_topic(query, (#[trigger] s.topics@[k])@)
}

/// The numbers below `n` of the entries that a query names.
pub open spec fn matching(s: Seq<RegistrySource>, query: Seq<char>, n: int) -> Seq<usize>
    decreases n,
{
    if n <= 0 {
        Seq::empty()
    } else if names_source(query, s[n - 1]) {
        matching(s, query, n - 1).push((n - 1) as usize)
    } else {
        matching(s, query, n - 1)
    }
}

/// How well a status fits an intent: less is better.
pub open spec fn rank(intent: QueryIntent, status: AuthorityStatus) -> int {
    match (intent, status) {
        (QueryIntent::Current, AuthorityStatus::Current) => 0,
        (QueryIntent::Historical, AuthorityStatus::Historical) => 0,
        (QueryIntent::Current, AuthorityStatus::Unknown) => 1,
        (QueryIntent::Historical, AuthorityStatus::Current) => 1,
        _ => 2,
    }
}

pub open spec fn pick_le(intent: QueryIntent) -> spec_fn(Pick, Pick) -> bool {
    |a: Pick, b: Pick| rank(intent, a.status) <= rank(intent, b.status)
}

pub open spec fn with_status(p: Seq<Pick>, status: AuthorityStatus) -> Seq<Pick> {
    p.filter(|x: Pick| x.status == status)
}

/// The picks that are read: those that fit best, at most [`MAX_SOURCES`]. If
/// one is of the very kind that the query asks for, only that kind is read.
pub open spec fn chosen(p: Seq<Pick>, intent: QueryIntent) -> Seq<Pick> {
    let ordered = order::sorted(p, pick_le(intent));
    let wanted = match intent {
        QueryIntent::Current => AuthorityStatus::Current,
        QueryIntent::Historical => AuthorityStatus::Historical,
    };
    let kept = if with_status(p, wanted).len() > 0 {
        with_status(ordered, wanted)
    } else {
        ordered
    };
    if kept.len() <= MAX_SOURCES {
        kept
    } else {
        kept.take(MAX_SOURCES as int)
    }
}

/// The ids of picks, in order.
pub open spec fn pick_ids(s: Seq<RegistrySource>, p: Seq<Pick>) -> Seq<Seq<char>> {
    p.map_values(|x: Pick| s[x.index as int].id@)
}

/// What the registry and the query decide before any source is opened.
pub enum Selected {
    /// The answer is settled.
    Settled(ResolutionKind, Option<Seq<char>>),
    /// These entries are read.
    Read(Seq<Pick>),
}

pub open spec fn selected(registry: RegistryRead, query: Seq<char>, for_agent: bool) -> Selected {
    match registry {
        RegistryRead::Absent => Selected::Settled(ResolutionKind::Absent, None),
        RegistryRead::Unreadable => Selected::Settled(
            ResolutionKind::Invalid,
            Some("Authority degraded: invalid registry"@),
        ),
        RegistryRead::Parsed(reg) => {
            let s = reg.sources@;
            let matched = matching(s, query, s.len() as int);
            if reg.version != 1 {
                Selected::Settled(
                    ResolutionKind::Unsupported,
                    Some("Authority degraded: unsupported registry version"@),
                )
            } else if s.len() > MAX_ENTRIES {
                Selected::Settled(
                    ResolutionKind::Invalid,
                    Some("Authority degraded: registry entry limit"@),
                )
            } else if !sound_sources(s) {
                Selected::Settled(
                    ResolutionKind::Invalid,
                    Some("Authority degraded: invalid registry"@),
                )
            } else if matched.len() == 0 {
                Selected::Settled(ResolutionKind::Unmatched, None)
            } else if matched.len() > MAX_MATCHES {
                Selected::Settled(
                    ResolutionKind::Conflict,
                    Some("Authority conflict: matching source limit exceeded"@),
                )
            } else {
                match eligible(s, matched, for_agent) {
                    Err(e) => Selected::Settled(
                        ResolutionKind::Invalid,
                        Some("Authority degraded: "@ + e),
                    ),
                    Ok(p) => {
                        let current = with_status(p, AuthorityStatus::Current);
                        if p.len() == 0 {
                            Selected::Settled(
                                ResolutionKind::PrivateOnly,
                                Some("Authority source excluded: private"@),
                            )
                        } else if current.len() > 1 {
                            Selected::Settled(
                                ResolutionKind::Conflict,
                                Some(
                                    "Authority conflict: "@ + text::join(
                                        pick_ids(s, current),
                                        ", "@,
                                    ),
                                ),
                            )
                        } else {
                            Selected::Read(chosen(p, intent_of(query)))
                        }
                    },
                }
            }
        },
    }
}

/// What [`select`] decides.
#[derive(Debug)]
pub enum Selection {
    /// The answer, and what was wrong with the registry.
    Settled(Resolution, Option<String>),
    /// The entries to read, in order.
    Read(Vec<Pick>),
}

fn topic_is_named(query: &Vec<String>, topic: &str, Ghost(q): Ghost<Seq<char>>) -> (b: bool)
    requires
        text::texts(query@) == token_set(q),
    ensures
        b == names_topic(q, topic@),
{
    let need = match topic_tokens(topic) {
        Some(n) => n,
        None => {
            return false;
        },
    };
    let ghost list = text::texts(need@);
    let mut k: usize = 0;
    while k < need.len()
        invariant
            k <= need@.len(),
            list == text::texts(need@),
            list == significant(topic@),
            text::texts(query@) == token_set(q),
            forall|m: int| 0 <= m < k ==> token_set(q).contains(#[trigger] list[m]),
        decreases need.len() - k,
    {
        proof {
            assert(list[k as int] == need@[k as int]@);
        }
        if !lists(query, need[k].as_str()) {
            return false;
        }
        k += 1;
    }
    true
}

fn source_is_named(query: &Vec<String>, s: &RegistrySource, Ghost(q): Ghost<Seq<char>>) -> (b: bool)
    requires
        text::texts(query@) == token_set(q),
    ensures
        b == names_source(q, *s),
{
    let mut k: usize = 0;
    while k < s.topics.len()
        invariant
            k <= s.topics@.len(),
            text::texts(query@) == token_set(q),
            forall|m: int| 0 <= m < k ==> !names_topic(q, (#[trigger] s.topics@[m])@),
        decreases s.topics.len() - k,
    {
        if topic_is_named(query, s.topics[k].as_str(), Ghost(q)) {
            return true;
        }
        k += 1;
    }
    false
}

fn matching_sources(s: &Vec<RegistrySource>, query: &str) -> (r: Vec<usize>)
    ensures
        r@ == matching(s@, query@, s@.len() as int),
        forall|k: int| 0 <= k < r@.len() ==> (#[trigger] r@[k]) < s@.len(),
{
    let words = tokens(query);
    let mut out: Vec<usize> = Vec::new();
    let mut i: usize = 0;
    while i < s.len()
        invariant
            i <= s@.len(),
            text::texts(words@) == token_set(query@),
            out@ == matching(s@, query@, i as int),
            forall|k: int| 0 <= k < out@.len() ==> (#[trigger] out@[k]) < i,
        decreases s.len() - i,
    {
        if source_is_named(&words, &s[i], Ghost(query@)) {
            out.push(i);
        }
        i += 1;
    }
    out
}

fn filter_status(p: &Vec<Pick>, status: AuthorityStatus) -> (r: Vec<Pick>)
    ensures
        r@ == with_status(p@, status),
{
    let ghost keep = |x: Pick| x.status == status;
    let mut out: Vec<Pick> = Vec::new();
    let mut i: usize = 0;
    proof {
        reveal(Seq::filter);
        assert(p@.take(0) =~= Seq::<Pick>::empty());
        assert(out@ =~= p@.take(0).filter(keep));
    }
    while i < p.len()
        invariant
            i <= p@.len(),
            keep == (|x: Pick| x.status == status),
            out@ == p@.take(i as int).filter(keep),
        decreases p.len() - i,
    {
        proof {
            reveal(Seq::filter);
            assert(p@.take(i + 1).drop_last() =~= p@.take(i as int));
            assert(p@.take(i + 1).last() == p@[i as int]);
        }
        let x = p[i];
        if x.status == status {
            out.push(x);
        }
        i += 1;
    }
    proof {
        assert(p@.take(p@.len() as int) =~= p@);
        assert(with_status(p@, status) == p@.filter(keep));
    }
    out
}

fn rank_of(intent: QueryIntent, status: AuthorityStatus) -> (r: u8)
    ensures
        r == rank(intent, status),
{
    match (intent, status) {
        (QueryIntent::Current, AuthorityStatus::Current) => 0,
        (QueryIntent::Historical, AuthorityStatus::Historical) => 0,
        (QueryIntent::Current, AuthorityStatus::Unknown) => 1,
        (QueryIntent::Historical, AuthorityStatus::Current) => 1,
        _ => 2,
    }
}

fn current_before(a: &Pick, b: &Pick) -> (r: bool)
    ensures
        r == (rank(QueryIntent::Current, a.status) <= rank(QueryIntent::Current, b.status)),
{
    rank_of(QueryIntent::Current, a.status) <= rank_of(QueryIntent::Current, b.status)
}

fn historical_before(a: &Pick, b: &Pick) -> (r: bool)
    ensures
        r == (rank(QueryIntent::Historical, a.status) <= rank(QueryIntent::Historical, b.status)),
{
    rank_of(QueryIntent::Historical, a.status) <= rank_of(QueryIntent::Historical, b.status)
}

fn choose_sources(p: Vec<Pick>, intent: QueryIntent) -> (r: Vec<Pick>)
    ensures
        r@ == chosen(p@, intent),
{
    let ghost all = p@;
    let wanted = match intent {
        QueryIntent::Current => AuthorityStatus::Current,
        QueryIntent::Historical => AuthorityStatus::Historical,
    };
    let exact = filter_status(&p, wanted);
    let ordered = match intent {
        QueryIntent::Current => order::sort_stable(
            p,
            current_before,
            Ghost(pick_le(QueryIntent::Current)),
        ),
        QueryIntent::Historical => order::sort_stable(
            p,
            historical_before,
            Ghost(pick_le(QueryIntent::Historical)),
        ),
    };
    let mut kept = if exact.len() > 0 {
        filter_status(&ordered, wanted)
    } else {
        ordered
    };
    if kept.len() > MAX_SOURCES {
        kept.truncate(MAX_SOURCES);
    }
    kept
}

/// What was wrong with the registry, or with the entries that a query matches:
/// this is told where it settles the answer.
pub open spec fn registry_detail(registry: RegistryRead, query: Seq<char>, for_agent: bool) -> Option<
    Seq<char>,
> {
    match registry {
        RegistryRead::Parsed(reg) => {
            let s = reg.sources@;
            let matched = matching(s, query, s.len() as int);
            if reg.version != 1 {
                None
            } else if s.len() > MAX_ENTRIES {
                Some("registry entry limit"@)
            } else if !sound_sources(s) {
                Some("invalid registry"@)
            } else if matched.len() == 0 || matched.len() > MAX_MATCHES {
                None
            } else {
                match eligible(s, matched, for_agent) {
                    Err(e) => Some(e),
                    Ok(_) => None,
                }
            }
        },
        _ => None,
    }
}

fn settled(r: Resolution) -> (s: Selection)
    ensures
        s == Selection::Settled(r, None),
{
    Selection::Settled(r, None)
}

/// Decides from the registry and the query alone: either the answer is
/// settled, or it names the entries whose sources are read.
pub fn select(registry: &RegistryRead, query: &str, for_agent: bool) -> (r: Selection)
    ensures
        match selected(*registry, query@, for_agent) {
            Selected::Settled(kind, notice) => r matches Selection::Settled(x, detail) && x.is_simple(
                kind,
                intent_of(query@),
                notice,
            ) && crate::json::opt_text(detail) == registry_detail(*registry, query@, for_agent),
            Selected::Read(p) => r matches Selection::Read(v) && v@ == p,
        },
{
    let intent = query_intent(query);
    let reg = match registry {
        RegistryRead::Absent => {
            return settled(Resolution::simple(ResolutionKind::Absent, intent, None));
        },
        RegistryRead::Unreadable => {
            return settled(
                Resolution::simple(
                    ResolutionKind::Invalid,
                    intent,
                    Some("Authority degraded: invalid registry".to_owned()),
                ),
            );
        },
        RegistryRead::Parsed(reg) => reg,
    };
    if reg.version != 1 {
        return settled(
            Resolution::simple(
                ResolutionKind::Unsupported,
                intent,
                Some("Authority degraded: unsupported registry version".to_owned()),
            ),
        );
    }
    if let Err(detail) = validate_registry(reg) {
        let mut notice = "Authority degraded: ".to_owned();
        notice.append(detail.as_str());
        proof {
            reveal_strlit("Authority degraded: ");
            reveal_strlit("registry entry limit");
            reveal_strlit("invalid registry");
            reveal_strlit("Authority degraded: registry entry limit");
            reveal_strlit("Authority degraded: invalid registry");
            assert("Authority degraded: "@ + "registry entry limit"@
                =~= "Authority degraded: registry entry limit"@);
            assert("Authority degraded: "@ + "invalid registry"@
                =~= "Authority degraded: invalid registry"@);
        }
        return Selection::Settled(
            Resolution::simple(ResolutionKind::Invalid, intent, Some(notice)),
            Some(detail),
        );
    }
    let matched = matching_sources(&reg.sources, query);
    if matched.len() == 0 {
        return settled(Resolution::simple(ResolutionKind::Unmatched, intent, None));
    }
    if matched.len() > MAX_MATCHES {
        return settled(
            Resolution::simple(
                ResolutionKind::Conflict,
                intent,
                Some("Authority conflict: matching source limit exceeded".to_owned()),
            ),
        );
    }
    let picks = match effective_sources(reg, &matched, for_agent) {
        Ok(p) => p,
        Err(detail) => {
            let mut notice = "Authority degraded: ".to_owned();
            notice.append(detail.as_str());
            return Selection::Settled(
                Resolution::simple(ResolutionKind::Invalid, intent, Some(notice)),
                Some(detail),
            );
        },
    };
    if picks.len() == 0 {
        return settled(
            Resolution::simple(
                ResolutionKind::PrivateOnly,
                intent,
                Some("Authority source excluded: private".to_owned()),
            ),
        );
    }
    let current = filter_status(&picks, AuthorityStatus::Current);
    if current.len() > 1 {
        proof {
            lemma_eligible_bounds(reg.sources@, matched@, for_agent);
            lemma_with_status_bounds(picks@, AuthorityStatus::Current, reg.sources@.len() as int);
        }
        let ids = ids_of(&reg.sources, &current);
        let mut notice = "Authority conflict: ".to_owned();
        notice.append(text::join_strings(&ids, ", ").as_str());
        return settled(
            Resolution::simple(ResolutionKind::Conflict, intent, Some(notice)),
        );
    }
    Selection::Read(choose_sources(picks, intent))
}

proof fn lemma_eligible_bounds(s: Seq<RegistrySource>, matched: Seq<usize>, for_agent: bool)
    requires
        forall|k: int| 0 <= k < matched.len() ==> (#[trigger] matched[k]) < s.len(),
    ensures
        eligible(s, matched, for_agent) matches Ok(p) ==> forall|k: int|
            0 <= k < p.len() ==> (#[trigger] p[k]).index < s.len(),
    decreases matched.len(),
{
    if matched.len() > 0 {
        let front = matched.drop_last();
        assert forall|k: int| 0 <= k < front.len() implies (#[trigger] front[k]) < s.len() by {
            assert(front[k] == matched[k]);
        }
        lemma_eligible_bounds(s, front, for_agent);
        assert(matched[matched.len() - 1] < s.len());
    }
}

proof fn lemma_with_status_bounds(p: Seq<Pick>, status: AuthorityStatus, n: int)
    requires
        forall|k: int| 0 <= k < p.len() ==> (#[trigger] p[k]).index < n,
    ensures
        forall|k: int|
            0 <= k < with_status(p, status).len() ==> (#[trigger] with_status(p, status)[k]).index
                < n,
    decreases p.len(),
{
    reveal(Seq::filter);
    if p.len() > 0 {
        let front = p.drop_last();
        assert forall|k: int| 0 <= k < front.len() implies (#[trigger] front[k]).index < n by {
            assert(front[k] == p[k]);
        }
        lemma_with_status_bounds(front, status, n);
        assert(p[p.len() - 1].index < n);
    }
}

fn ids_of(s: &Vec<RegistrySource>, p: &Vec<Pick>) -> (r: Vec<String>)
    requires
        forall|k: int| 0 <= k < p@.len() ==> (#[trigger] p@[k]).index < s@.len(),
    ensures
        text::texts(r@) == pick_ids(s@, p@),
{
    let mut out: Vec<String> = Vec::new();
    let ghost all = pick_ids(s@, p@);
    let mut k: usize = 0;
    proof {
        assert(text::texts(out@) =~= all.take(0));
    }
    while k < p.len()
        invariant
            k <= p@.len(),
            all == pick_ids(s@, p@),
            forall|k: int| 0 <= k < p@.len() ==> (#[trigger] p@[k]).index < s@.len(),
            text::texts(out@) == all.take(k as int),
        decreases p.len() - k,
    {
        let id = s[p[k].index].id.clone();
        proof {
            text::lemma_texts_push(out@, id);
            assert(all[k as int] == id@);
            assert(all.take(k + 1) =~= all.take(k as int).push(id@));
        }
        out.push(id);
        k += 1;
    }
    proof {
        assert(all.take(all.len() as int) =~= all);
    }
    out
}

// ── Excerpts ─────────────────────────────────────────────────────────────────
/// The level and title of a markdown heading of level 1 to 6, which may be
/// indented.
pub open spec fn heading_of(line: Seq<char>) -> Option<(nat, Seq<char>)> {
    let t = text::trim_start(line);
    let level = text::leading(t, '#');
    if level == 0 || level > 6 || level == t.len() || t[level as int] != ' ' {
        None
    } else {
        Some((level, text::trim(t.skip(level as int + 1))))
    }
}

/// The first line at or behind `i` that is a heading with this title.
pub open spec fn titled_line(lines: Seq<Seq<char>>, title: Seq<char>, i: int) -> Option<int>
    decreases lines.len() - i,
{
    if i < 0 || i >= lines.len() {
        None
    } else if heading_of(lines[i]) is Some && (heading_of(lines[i])->0).1 == title {
        Some(i)
    } else {
        titled_line(lines, title, i + 1)
    }
}

/// The first line at or behind `i` that closes a section of this level, or the
/// end.
pub open spec fn section_end(lines: Seq<Seq<char>>, level: nat, i: int) -> int
    decreases lines.len() - i,
{
    if i < 0 || i >= lines.len() {
        i
    } else if heading_of(lines[i]) is Some && (heading_of(lines[i])->0).0 <= level {
        i
    } else {
        section_end(lines, level, i + 1)
    }
}

/// The text under a heading, up to the next heading of its level or above.
pub open spec fn section(t: Seq<char>, title: Seq<char>) -> Option<Seq<char>> {
    let lines = text::lines(t);
    match titled_line(lines, title, 0) {
        None => None,
        Some(i) => {
            let end = section_end(lines, (heading_of(lines[i])->0).0, i + 1);
            Some(text::trim(text::join(lines.subrange(i + 1, end), "\n"@)))
        },
    }
}

/// The part of a source that is shown: the section under the heading, or all
/// of it, cut to [`MAX_EXCERPT_CHARS`].
pub open spec fn excerpt(t: Seq<char>, heading: Option<Seq<char>>) -> Option<Seq<char>> {
    let part = match heading {
        None => Some(text::trim(t)),
        Some(h) => section(t, h),
    };
    match part {
        Some(s) => Some(text::trim(text::first_chars(s, MAX_EXCERPT_CHARS as nat))),
        None => None,
    }
}

fn trim_start_chars(s: &[char]) -> (r: &[char])
    ensures
        r@ == text::trim_start(s@),
{
    let n: usize = s.len();
    let mut i: usize = 0;
    proof {
        assert(s@.skip(0) =~= s@);
    }
    while i < n && text::char_is_space(s[i])
        invariant
            i <= n == s@.len(),
            text::trim_start(s@) == text::trim_start(s@.skip(i as int)),
        decreases n - i,
    {
        proof {
            assert(s@.skip(i as int)[0] == s@[i as int]);
            assert(s@.skip(i as int).drop_first() =~= s@.skip(i + 1));
        }
        i += 1;
    }
    proof {
        assert(i < n ==> s@.skip(i as int)[0] == s@[i as int]);
        assert(s@.skip(i as int) =~= s@.subrange(i as int, n as int));
    }
    vstd::slice::slice_subrange(s, i, n)
}

/// The level and title of a markdown heading (h1 to h6).
pub fn markdown_heading(line: &str) -> (r: Option<(usize, String)>)
    ensures
        match r {
            Some((level, title)) => heading_of(line@) == Some((level as nat, title@)),
            None => heading_of(line@) is None,
        },
{
    let v = to_chars(line);
    let t = trim_start_chars(v.as_slice());
    let level: usize = text::count_leading(t, '#');
    if level == 0 || level > 6 || level == t.len() || t[level] != ' ' {
        return None;
    }
    let rest = vstd::slice::slice_subrange(t, level + 1, t.len());
    proof {
        assert(rest@ =~= t@.skip(level + 1));
    }
    Some((level, text::from_chars(text::trim_chars(rest))))
}

/// The part of a source that is shown, or nothing if the heading is missing.
pub fn extract_excerpt(t: &str, heading: Option<&str>) -> (r: Option<String>)
    ensures
        crate::json::is_text(r, excerpt(t@, crate::memory::provider::opt_str(heading))),
{
    let part = match heading {
        None => trim_str(t),
        Some(wanted) => {
            let lines = split_lines(t);
            let ghost all = text::texts(lines@);
            let mut i: usize = 0;
            let mut level: usize = 0;
            let mut found: bool = false;
            while i < lines.len()
                invariant_except_break
                    !found,
                invariant
                    i <= lines@.len(),
                    all == text::texts(lines@),
                    titled_line(all, wanted@, 0) == titled_line(all, wanted@, i as int),
                ensures
                    found ==> i < lines@.len() && titled_line(all, wanted@, 0) == Some(i as int)
                        && heading_of(all[i as int]) is Some && (heading_of(all[i as int])->0).0
                        == level,
                    !found ==> titled_line(all, wanted@, 0) is None,
                decreases lines.len() - i,
            {
                proof {
                    assert(all[i as int] == lines@[i as int]@);
                }
                if let Some((n, title)) = markdown_heading(lines[i].as_str()) {
                    if str_eq(title.as_str(), wanted) {
                        level = n;
                        found = true;
                        break;
                    }
                }
                i += 1;
            }
            if !found {
                return None;
            }
            let start: usize = i + 1;
            let mut end: usize = start;
            while end < lines.len()
                invariant
                    start <= end <= lines@.len(),
                    all == text::texts(lines@),
                    section_end(all, level as nat, start as int) == section_end(
                        all,
                        level as nat,
                        end as int,
                    ),
                ensures
                    start <= end <= lines@.len(),
                    end == section_end(all, level as nat, start as int),
                decreases lines.len() - end,
            {
                proof {
                    assert(all[end as int] == lines@[end as int]@);
                }
                if let Some((n, title)) = markdown_heading(lines[end].as_str()) {
                    if n <= level {
                        break;
                    }
                }
                end += 1;
            }
            crate::memory::index::trimmed_block(&lines, start, end)
        },
    };
    let cut = text::take_chars(part.as_str(), MAX_EXCERPT_CHARS);
    Some(trim_str(cut.as_str()))
}

// ── Resolution ───────────────────────────────────────────────────────────────
/// What reading a source gave.
#[derive(Debug, Clone)]
pub enum SourceRead {
    Unavailable,
    Body(Vec<u8>),
}

pub open spec fn about_source(id: Seq<char>, what: Seq<char>) -> Seq<char> {
    "Authority degraded: source "@ + id + what
}

/// The bytes read so far after one source more.
pub open spec fn bytes_after(total: int, read: SourceRead) -> int {
    match read {
        SourceRead::Unavailable => total,
        SourceRead::Body(b) => total + b@.len(),
    }
}

/// The excerpt of a source, or the notice that settles the answer.
pub open spec fn source_outcome(s: RegistrySource, read: SourceRead, total: int) -> Result<
    Seq<char>,
    Seq<char>,
> {
    match read {
        SourceRead::Unavailable => Err(about_source(s.id@, " unavailable"@)),
        SourceRead::Body(b) => if total + b@.len() > SOURCE_AGGREGATE_LIMIT {
            Err("Authority degraded: aggregate source limit"@)
        } else if !vstd::utf8::valid_utf8(b@) {
            Err(about_source(s.id@, " is invalid"@))
        } else {
            let t = vstd::utf8::decode_utf8(b@);
            match excerpt(t, crate::llm_config::opt_text(s.heading)) {
                Some(e) => if e.len() > 0 {
                    Ok(e)
                } else {
                    Err(about_source(s.id@, " heading unavailable"@))
                },
                None => Err(about_source(s.id@, " heading unavailable"@)),
            }
        },
    }
}

pub open spec fn is_resolved(
    r: ResolvedSource,
    s: RegistrySource,
    status: AuthorityStatus,
    excerpt: Seq<char>,
) -> bool {
    &&& r.id@ == s.id@
    &&& r.path@ == s.path@
    &&& r.status == status
    &&& crate::llm_config::opt_text(r.effective_date) == crate::llm_config::opt_text(
        s.effective_date,
    )
    &&& crate::llm_config::opt_text(r.superseded_by) == crate::llm_config::opt_text(s.superseded_by)
    &&& r.excerpt@ == excerpt
}

fn copy_text(s: &Option<String>) -> (r: Option<String>)
    ensures
        crate::llm_config::opt_text(r) == crate::llm_config::opt_text(*s),
{
    match s {
        Some(x) => Some(x.clone()),
        None => None,
    }
}

fn source_notice(id: &str, what: &str) -> (r: String)
    ensures
        r@ == about_source(id@, what@),
{
    let mut m = "Authority degraded: source ".to_owned();
    m.append(id);
    m.append(what);
    m
}

/// Takes in one source that was read after `total` bytes of others. An error
/// is the notice that settles the answer as invalid.
pub fn take_source(
    s: &RegistrySource,
    status: AuthorityStatus,
    read: &SourceRead,
    total: u64,
) -> (r: Result<ResolvedSource, String>)
    requires
        total <= SOURCE_AGGREGATE_LIMIT,
    ensures
        match r {
            Ok(x) => source_outcome(*s, *read, total as int) is Ok && is_resolved(
                x,
                *s,
                status,
                source_outcome(*s, *read, total as int)->Ok_0,
            ),
            Err(e) => source_outcome(*s, *read, total as int) == Err::<Seq<char>, Seq<char>>(e@),
        },
{
    match read {
        SourceRead::Unavailable => Err(source_notice(s.id.as_str(), " unavailable")),
        SourceRead::Body(b) => {
            if b.len() as u64 > SOURCE_AGGREGATE_LIMIT - total {
                return Err("Authority degraded: aggregate source limit".to_owned());
            }
            let t = match text::from_utf8(b) {
                Ok(t) => t,
                Err(_) => {
                    return Err(source_notice(s.id.as_str(), " is invalid"));
                },
            };
            let heading = match &s.heading {
                Some(h) => Some(h.as_str()),
                None => None,
            };
            match extract_excerpt(t.as_str(), heading) {
                Some(e) => {
                    if e.as_str().is_empty() {
                        return Err(source_notice(s.id.as_str(), " heading unavailable"));
                    }
                    Ok(
                        ResolvedSource {
                            id: s.id.clone(),
                            path: s.path.clone(),
                            status,
                            effective_date: copy_text(&s.effective_date),
                            superseded_by: copy_text(&s.superseded_by),
                            excerpt: e,
                        },
                    )
                },
                None => Err(source_notice(s.id.as_str(), " heading unavailable")),
            }
        },
    }
}

/// The bytes of the first `n` sources.
pub open spec fn bytes_of(reads: Seq<SourceRead>, n: int) -> int
    decreases n,
{
    if n <= 0 {
        0
    } else {
        bytes_after(bytes_of(reads, n - 1), reads[n - 1])
    }
}

/// The first notice among the sources from number `i` on.
pub open spec fn first_notice(
    s: Seq<RegistrySource>,
    picks: Seq<Pick>,
    reads: Seq<SourceRead>,
    i: int,
) -> Option<Seq<char>>
    decreases picks.len() - i,
{
    if i < 0 || i >= picks.len() {
        None
    } else {
        match source_outcome(s[picks[i].index as int], reads[i], bytes_of(reads, i)) {
            Err(e) => Some(e),
            Ok(_) => first_notice(s, picks, reads, i + 1),
        }
    }
}

/// The answer after the selected sources were read.
pub open spec fn is_answer(
    r: Resolution,
    s: Seq<RegistrySource>,
    picks: Seq<Pick>,
    reads: Seq<SourceRead>,
    intent: QueryIntent,
) -> bool {
    match first_notice(s, picks, reads, 0) {
        Some(n) => r.is_simple(ResolutionKind::Invalid, intent, Some(n)),
        None => {
            &&& r.kind == ResolutionKind::Matched
            &&& r.intent == intent
            &&& r.notice is None
            &&& r.sources@.len() == picks.len()
            &&& forall|k: int|
                0 <= k < picks.len() ==> is_resolved(
                    #[trigger] r.sources@[k],
                    s[picks[k].index as int],
                    picks[k].status,
                    source_outcome(
                        s[picks[k].index as int],
                        reads[k],
                        bytes_of(reads, k),
                    )->Ok_0,
                )
        },
    }
}

/// The answer after the selected sources were read, in order.
pub fn finish(
    registry: &Registry,
    picks: &Vec<Pick>,
    reads: &Vec<SourceRead>,
    intent: QueryIntent,
) -> (r: Resolution)
    requires
        picks@.len() == reads@.len(),
        forall|k: int| 0 <= k < picks@.len() ==> (#[trigger] picks@[k]).index
            < registry.sources@.len(),
    ensures
        is_answer(r, registry.sources@, picks@, reads@, intent),
{
    let s = &registry.sources;
    let mut out: Vec<ResolvedSource> = Vec::new();
    let mut total: u64 = 0;
    let mut i: usize = 0;
    while i < picks.len()
        invariant
            s == registry.sources,
            i <= picks@.len() == reads@.len(),
            forall|k: int| 0 <= k < picks@.len() ==> (#[trigger] picks@[k]).index < s@.len(),
            total == bytes_of(reads@, i as int),
            total <= SOURCE_AGGREGATE_LIMIT,
            out@.len() == i,
            first_notice(s@, picks@, reads@, 0) == first_notice(s@, picks@, reads@, i as int),
            forall|k: int|
                0 <= k < i ==> is_resolved(
                    #[trigger] out@[k],
                    s@[picks@[k].index as int],
                    picks@[k].status,
                    source_outcome(
                        s@[picks@[k].index as int],
                        reads@[k],
                        bytes_of(reads@, k),
                    )->Ok_0,
                ),
        decreases picks.len() - i,
    {
        let p = picks[i];
        match take_source(&s[p.index], p.status, &reads[i], total) {
            Ok(x) => {
                out.push(x);
            },
            Err(notice) => {
                return Resolution::simple(ResolutionKind::Invalid, intent, Some(notice));
            },
        }
        match &reads[i] {
            SourceRead::Body(b) => {
                total = total + b.len() as u64;
            },
            SourceRead::Unavailable => {},
        }
        i += 1;
    }
    Resolution { kind: ResolutionKind::Matched, intent, sources: out, notice: None }
}

// ── Laws ─────────────────────────────────────────────────────────────────────
proof fn lemma_eligible_visible(s: Seq<RegistrySource>, matched: Seq<usize>, for_agent: bool)
    requires
        forall|k: int| 0 <= k < matched.len() ==> (#[trigger] matched[k]) < s.len(),
    ensures
        eligible(s, matched, for_agent) matches Ok(p) ==> forall|k: int|
            0 <= k < p.len() ==> (#[trigger] p[k]).index < s.len() && !hidden(
                s[p[k].index as int],
                for_agent,
            ) && effective_status(s, p[k].index as int, for_agent) == Ok::<
                AuthorityStatus,
                Seq<char>,
            >(p[k].status),
    decreases matched.len(),
{
    if matched.len() > 0 {
        let front = matched.drop_last();
        assert forall|k: int| 0 <= k < front.len() implies (#[trigger] front[k]) < s.len() by {
            assert(front[k] == matched[k]);
        }
        lemma_eligible_visible(s, front, for_agent);
        assert(matched[matched.len() - 1] < s.len());
    }
}

proof fn lemma_matching_bounds(s: Seq<RegistrySource>, query: Seq<char>, n: int)
    requires
        0 <= n <= s.len() <= MAX_ENTRIES,
    ensures
        forall|k: int| 0 <= k < matching(s, query, n).len() ==> (#[trigger] matching(s, query, n)[k])
            < n,
    decreases n,
{
    if n > 0 {
        lemma_matching_bounds(s, query, n - 1);
        let front = matching(s, query, n - 1);
        let all = matching(s, query, n);
        assert forall|k: int| 0 <= k < all.len() implies (#[trigger] all[k]) < n by {
            if k < front.len() {
                assert(all[k] == front[k]);
            }
        }
    }
}

proof fn lemma_filter_sub(p: Seq<Pick>, status: AuthorityStatus)
    ensures
        forall|k: int|
            0 <= k < with_status(p, status).len() ==> p.contains(
                #[trigger] with_status(p, status)[k],
            ) && with_status(p, status)[k].status == status,
    decreases p.len(),
{
    reveal(Seq::filter);
    if p.len() > 0 {
        let front = p.drop_last();
        lemma_filter_sub(front, status);
        let r = with_status(p, status);
        let f = with_status(front, status);
        assert forall|k: int| 0 <= k < r.len() implies p.contains(#[trigger] r[k]) && r[k].status
            == status by {
            if k < f.len() {
                assert(r[k] == f[k]);
                let m = choose|m: int| 0 <= m < front.len() && front[m] == f[k];
                assert(p[m] == r[k]);
            } else {
                assert(p[p.len() - 1] == r[k]);
            }
        }
    }
}

proof fn lemma_chosen_sub(p: Seq<Pick>, intent: QueryIntent)
    ensures
        chosen(p, intent).len() <= MAX_SOURCES,
        p.len() > 0 ==> chosen(p, intent).len() > 0,
        forall|k: int| 0 <= k < chosen(p, intent).len() ==> p.contains(#[trigger] chosen(p, intent)[k]),
{
    broadcast use vstd::seq_lib::group_to_multiset_ensures;

    let le = pick_le(intent);
    assert(order::total(le));
    order::lemma_sorted(p, le);
    let ordered = order::sorted(p, le);
    let wanted = match intent {
        QueryIntent::Current => AuthorityStatus::Current,
        QueryIntent::Historical => AuthorityStatus::Historical,
    };
    lemma_filter_sub(ordered, wanted);
    if with_status(p, wanted).len() > 0 {
        let x = with_status(p, wanted)[0];
        lemma_filter_sub(p, wanted);
        assert(p.to_multiset().count(x) > 0);
        assert(ordered.to_multiset().count(x) > 0);
        let i = choose|i: int| 0 <= i < ordered.len() && ordered[i] == x;
        ordered.lemma_filter_contains(|y: Pick| y.status == wanted, i);
    }
    assert forall|k: int| 0 <= k < chosen(p, intent).len() implies p.contains(
        #[trigger] chosen(p, intent)[k],
    ) by {
        let x = chosen(p, intent)[k];
        assert(ordered.contains(x));
        assert(ordered.to_multiset().count(x) > 0);
        assert(p.to_multiset().count(x) > 0);
    }
}

/// An agent is never shown a source that is not marked as public, and a query
/// that opens sources opens one or two.
pub proof fn law_private_sources_stay_closed(
    registry: Registry,
    query: Seq<char>,
    for_agent: bool,
)
    ensures
        selected(RegistryRead::Parsed(registry), query, for_agent) matches Selected::Read(p)
            ==> 0 < p.len() <= MAX_SOURCES && forall|k: int|
            0 <= k < p.len() ==> (#[trigger] p[k]).index < registry.sources@.len() && !hidden(
                registry.sources@[p[k].index as int],
                for_agent,
            ),
{
    let s = registry.sources@;
    let matched = matching(s, query, s.len() as int);
    if let Selected::Read(p) = selected(RegistryRead::Parsed(registry), query, for_agent) {
        lemma_matching_bounds(s, query, s.len() as int);
        lemma_eligible_visible(s, matched, for_agent);
        let all = eligible(s, matched, for_agent)->Ok_0;
        lemma_chosen_sub(all, intent_of(query));
        assert forall|k: int| 0 <= k < p.len() implies (#[trigger] p[k]).index < s.len() && !hidden(
            s[p[k].index as int],
            for_agent,
        ) by {
            let m = choose|m: int| 0 <= m < all.len() && all[m] == p[k];
            assert(all[m].index < s.len());
        }
    }
}

/// Two current sources for one query are a conflict: no source is opened.
pub proof fn law_conflict_opens_nothing(registry: Registry, query: Seq<char>, for_agent: bool)
    requires
        registry.version == 1,
        registry.sources@.len() <= MAX_ENTRIES,
        sound_sources(registry.sources@),
        0 < matching(registry.sources@, query, registry.sources@.len() as int).len() <= MAX_MATCHES,
        eligible(
            registry.sources@,
            matching(registry.sources@, query, registry.sources@.len() as int),
            for_agent,
        ) is Ok,
        with_status(
            eligible(
                registry.sources@,
                matching(registry.sources@, query, registry.sources@.len() as int),
                for_agent,
            )->Ok_0,
            AuthorityStatus::Current,
        ).len() > 1,
    ensures
        selected(RegistryRead::Parsed(registry), query, for_agent) matches Selected::Settled(
            ResolutionKind::Conflict,
            Some(_),
        ),
{
    let p = eligible(
        registry.sources@,
        matching(registry.sources@, query, registry.sources@.len() as int),
        for_agent,
    )->Ok_0;
    lemma_filter_sub(p, AuthorityStatus::Current);
    assert(p.contains(with_status(p, AuthorityStatus::Current)[0]));
}

/// What is shown of a source is never longer than [`MAX_EXCERPT_CHARS`].
pub proof fn law_excerpt_is_bounded(t: Seq<char>, heading: Option<Seq<char>>)
    ensures
        excerpt(t, heading) matches Some(s) ==> s.len() <= MAX_EXCERPT_CHARS,
{
    let part = match heading {
        None => Some(text::trim(t)),
        Some(h) => section(t, h),
    };
    if part is Some {
        text::lemma_trim_is_no_longer(text::first_chars(part->0, MAX_EXCERPT_CHARS as nat));
    }
}

proof fn lemma_insert_keeps_status(s: Seq<Pick>, x: Pick, intent: QueryIntent, st: AuthorityStatus)
    ensures
        with_status(order::insert_last(s, x, pick_le(intent)), st) == if x.status == st {
            with_status(s, st).push(x)
        } else {
            with_status(s, st)
        },
    decreases s.len(),
{
    reveal(Seq::filter);
    let le = pick_le(intent);
    let r = order::insert_last(s, x, le);
    if s.len() == 0 || le(s.last(), x) {
        assert(r.drop_last() =~= s);
    } else {
        lemma_insert_keeps_status(s.drop_last(), x, intent, st);
        assert(r.drop_last() =~= order::insert_last(s.drop_last(), x, le));
    }
}

proof fn lemma_sorted_keeps_status(p: Seq<Pick>, intent: QueryIntent, st: AuthorityStatus)
    ensures
        with_status(order::sorted(p, pick_le(intent)), st) == with_status(p, st),
    decreases p.len(),
{
    reveal(Seq::filter);
    if p.len() > 0 {
        let front = p.drop_last();
        lemma_sorted_keeps_status(front, intent, st);
        lemma_insert_keeps_status(
            order::sorted(front, pick_le(intent)),
            p.last(),
            intent,
            st,
        );
    }
}

/// Whether some entry that may answer has a status.
pub open spec fn some_have(p: Seq<Pick>, status: AuthorityStatus) -> bool {
    exists|m: int| 0 <= m < p.len() && (#[trigger] p[m]).status == status
}

/// Whether `c` holds the first of the entries of one status, as many as two.
pub open spec fn first_two_of(c: Seq<Pick>, p: Seq<Pick>, status: AuthorityStatus) -> bool {
    exists|at: Seq<int>| #[trigger]
        crate::lists::stands_at(c, p, at) && c.len() <= 2 && forall|i: int|
            0 <= i < p.len() && (#[trigger] p[i]).status == status ==> at.contains(i) || (c.len()
                == 2 && i > at[1])
}

/// What is read fits what the query asks for. Where an entry of the very kind
/// that is asked for may answer, all that is read is of that kind, and it is the
/// first two of them. Where there is none, a query for what holds now is answered
/// by entries of unknown standing before old ones, and one for what held before
/// by the current entry before those of unknown standing: what fits less is read
/// only where all that fits better is read too.
pub proof fn law_sources_fit_the_intent(p: Seq<Pick>, intent: QueryIntent)
    ensures
        intent is Historical && some_have(p, AuthorityStatus::Historical) ==> first_two_of(
            chosen(p, intent),
            p,
            AuthorityStatus::Historical,
        ) && forall|k: int|
            0 <= k < chosen(p, intent).len() ==> (#[trigger] chosen(p, intent)[k]).status
                == AuthorityStatus::Historical,
        intent is Current && some_have(p, AuthorityStatus::Current) ==> first_two_of(
            chosen(p, intent),
            p,
            AuthorityStatus::Current,
        ) && forall|k: int|
            0 <= k < chosen(p, intent).len() ==> (#[trigger] chosen(p, intent)[k]).status
                == AuthorityStatus::Current,
        intent is Current && !some_have(p, AuthorityStatus::Current) && some_have(
            chosen(p, intent),
            AuthorityStatus::Historical,
        ) ==> forall|m: int|
            0 <= m < p.len() && (#[trigger] p[m]).status == AuthorityStatus::Unknown
                ==> chosen(p, intent).contains(p[m]),
        intent is Historical && !some_have(p, AuthorityStatus::Historical) && some_have(
            chosen(p, intent),
            AuthorityStatus::Unknown,
        ) ==> forall|m: int|
            0 <= m < p.len() && (#[trigger] p[m]).status == AuthorityStatus::Current
                ==> chosen(p, intent).contains(p[m]),
        p.len() > 0 ==> chosen(p, intent).len() > 0,
        p.len() > 1 && !some_have(p, AuthorityStatus::Historical) && !some_have(
            p,
            AuthorityStatus::Current,
        ) ==> chosen(p, intent).len() == 2,
        chosen(p, intent).len() <= 2,
{
    broadcast use vstd::seq_lib::group_to_multiset_ensures;

    let le = pick_le(intent);
    let c = chosen(p, intent);
    let ordered = order::sorted(p, le);
    assert(order::total(le));
    order::lemma_sorted(p, le);
    lemma_chosen_sub(p, intent);
    let asked = if intent is Historical {
        AuthorityStatus::Historical
    } else {
        AuthorityStatus::Current
    };
    lemma_sorted_keeps_status(p, intent, asked);
    lemma_filter_sub(p, asked);
    let keep = |x: Pick| x.status == asked;
    let exact = with_status(p, asked);
    let at = crate::lists::lemma_filter_places(p, keep);
    assert(exact == p.filter(keep));
    if some_have(p, asked) {
        let m = choose|m: int| 0 <= m < p.len() && (#[trigger] p[m]).status == asked;
        assert(at.contains(m));
        assert(exact.len() > 0);
        let cut = if at.len() <= 2 {
            at
        } else {
            at.take(2)
        };
        assert(crate::lists::stands_at(c, p, cut));
        assert forall|i: int| 0 <= i < p.len() && (#[trigger] p[i]).status == asked implies cut.contains(
            i,
        ) || (c.len() == 2 && i > cut[1]) by {
            assert(at.contains(i));
            let k = choose|k: int| 0 <= k < at.len() && at[k] == i;
            if k < cut.len() {
                assert(cut[k] == i);
            } else {
                assert(at[1] < at[k]);
            }
        }
    } else {
        assert(exact.len() == 0) by {
            if exact.len() > 0 {
                assert(p[at[0]].status == asked);
            }
        }
        let kept = ordered;
        assert(c == if kept.len() <= 2 {
            kept
        } else {
            kept.take(2)
        });
        let better = if intent is Historical {
            AuthorityStatus::Current
        } else {
            AuthorityStatus::Unknown
        };
        let worse = if intent is Historical {
            AuthorityStatus::Unknown
        } else {
            AuthorityStatus::Historical
        };
        if some_have(c, worse) {
            let w = choose|w: int| 0 <= w < c.len() && (#[trigger] c[w]).status == worse;
            assert forall|m: int| 0 <= m < p.len() && (#[trigger] p[m]).status
                == better implies c.contains(p[m]) by {
                assert(p.to_multiset().count(p[m]) > 0);
                assert(ordered.to_multiset().count(p[m]) > 0);
                let j = choose|j: int| 0 <= j < ordered.len() && ordered[j] == p[m];
                if j >= c.len() {
                    assert(ordered[w] == c[w]);
                    assert(le(ordered[w], ordered[j]));
                }
                assert(c[j] == p[m]);
            }
        }
    }
}

proof fn lemma_uniq(s: Seq<Seq<char>>)
    ensures
        forall|w: Seq<char>| #[trigger] uniq(s).contains(w) == s.contains(w),
        uniq(s).no_duplicates(),
    decreases s.len(),
{
    if s.len() > 0 {
        let front = s.drop_last();
        let last = s.last();
        lemma_uniq(front);
        let u = uniq(front);
        assert forall|w: Seq<char>| #[trigger] uniq(s).contains(w) == s.contains(w) by {
            assert(u.contains(w) == front.contains(w));
            if s.contains(w) {
                let i = choose|i: int| 0 <= i < s.len() && s[i] == w;
                if i < front.len() {
                    assert(front[i] == w);
                    let k = choose|k: int| 0 <= k < u.len() && u[k] == w;
                    assert(uniq(s)[k] == w);
                } else if !u.contains(last) {
                    assert(uniq(s)[u.len() as int] == w);
                }
            }
            if uniq(s).contains(w) {
                let k = choose|k: int| 0 <= k < uniq(s).len() && uniq(s)[k] == w;
                if k < u.len() {
                    assert(u[k] == w);
                    let i = choose|i: int| 0 <= i < front.len() && front[i] == w;
                    assert(s[i] == w);
                } else {
                    assert(s[s.len() - 1] == w);
                }
            }
        }
    }
}

/// Whether letters and digits stand in `s` from `from` up to `to`, and none next
/// to them.
pub open spec fn is_word_at(s: Seq<char>, from: int, to: int) -> bool {
    &&& 0 <= from < to <= s.len()
    &&& forall|k: int| from <= k < to ==> text::alphanumeric(#[trigger] s[k])
    &&& from == 0 || !text::alphanumeric(s[from - 1])
    &&& to == s.len() || !text::alphanumeric(s[to])
}

/// The words of a text are the longest runs of letters and digits in its lower
/// case, each of them once.
pub proof fn law_tokens(t: Seq<char>, w: Seq<char>)
    ensures
        token_set(t).contains(w) == exists|from: int, to: int| #[trigger]
            is_word_at(text::lowercase(t), from, to) && text::lowercase(t).subrange(from, to) == w,
        token_set(t).no_duplicates(),
{
    let low = text::lowercase(t);
    lemma_uniq(text::non_empty(text::split_by(low, not_alphanumeric())));
    text::lemma_non_empty_runs(low, not_alphanumeric(), w);
    assert forall|from: int, to: int| from < to implies #[trigger] is_word_at(low, from, to)
        == #[trigger] text::is_run(low, not_alphanumeric(), from, to) by {
        let r = low.subrange(from, to);
        if is_word_at(low, from, to) {
            assert forall|k: int| 0 <= k < r.len() implies !not_alphanumeric()(#[trigger] r[k]) by {
                assert(text::alphanumeric(low[from + k]));
            }
        }
        if text::is_run(low, not_alphanumeric(), from, to) {
            assert forall|k: int| from <= k < to implies text::alphanumeric(#[trigger] low[k]) by {
                assert(!not_alphanumeric()(r[k - from]));
            }
        }
    }
    if token_set(t).contains(w) {
        let (from, to) = choose|from: int, to: int| #[trigger]
            text::is_run(low, not_alphanumeric(), from, to) && low.subrange(from, to) == w;
        assert(is_word_at(low, from, to));
    }
    if exists|from: int, to: int| #[trigger]
        is_word_at(low, from, to) && low.subrange(from, to) == w {
        let (from, to) = choose|from: int, to: int| #[trigger]
            is_word_at(low, from, to) && low.subrange(from, to) == w;
        assert(text::is_run(low, not_alphanumeric(), from, to));
    }
}

/// A query asks for what held before if and only if one of its words says so.
pub proof fn law_history_words(query: Seq<char>)
    ensures
        (intent_of(query) is Historical) == exists|w: Seq<char>| #[trigger]
            token_set(query).contains(w) && (w == "history"@ || w == "historical"@ || w
                == "previous"@ || w == "former"@ || w == "superseded"@ || w == "before"@),
{
}

/// Whether each word of a topic is in the query or tells nothing.
pub open spec fn has_telling_words(query: Seq<char>, topic: Seq<char>) -> bool {
    forall|w: Seq<char>|
        token_set(topic).contains(w) && !generic_tokens().contains(w)
            ==> #[trigger] token_set(query).contains(w)
}

/// Whether a topic has two different words that tell something.
pub open spec fn has_two_telling_words(topic: Seq<char>) -> bool {
    exists|a: Seq<char>, b: Seq<char>|
        a != b && #[trigger] token_set(topic).contains(a) && #[trigger] token_set(topic).contains(b)
            && !generic_tokens().contains(a) && !generic_tokens().contains(b)
}

/// A query names a source if and only if it holds every telling word of one of
/// its topics: each word of the topic is in the query or tells nothing.
pub proof fn law_a_source_is_named_by_its_topic(
    s: Seq<RegistrySource>,
    query: Seq<char>,
    n: int,
    i: int,
)
    requires
        0 <= i < n <= s.len() <= usize::MAX,
        forall|k: int| 0 <= k < s[i].topics@.len() ==> usable_topic((#[trigger] s[i].topics@[k])@),
    ensures
        matching(s, query, n).contains(i as usize) == exists|k: int|
            0 <= k < s[i].topics@.len() && has_telling_words(query, (#[trigger] s[i].topics@[k])@),
    decreases n,
{
    let m = matching(s, query, n);
    let front = matching(s, query, n - 1);
    if i < n - 1 {
        law_a_source_is_named_by_its_topic(s, query, n - 1, i);
        if m.contains(i as usize) {
            let k = choose|k: int| 0 <= k < m.len() && m[k] == i as usize;
            if k == front.len() {
                assert(m[k] == (n - 1) as usize);
            }
            assert(front[k] == i as usize);
        }
        if front.contains(i as usize) {
            let k = choose|k: int| 0 <= k < front.len() && front[k] == i as usize;
            assert(m[k] == i as usize);
        }
    } else {
        if names_source(query, s[i]) {
            assert(m[front.len() as int] == i as usize);
        } else if m.contains(i as usize) {
            lemma_matching_below(s, query, n - 1);
            let k = choose|k: int| 0 <= k < front.len() && front[k] == i as usize;
            assert(front[k] < n - 1);
        }
        let topics = s[i].topics@;
        assert forall|k: int| 0 <= k < topics.len() implies names_topic(query, (#[trigger] topics[k])@)
            == has_telling_words(query, topics[k]@) by {
            lemma_significant(topics[k]@);
            let need = significant(topics[k]@);
            let have = token_set(query);
            if all_in(need, have) {
                assert forall|w: Seq<char>|
                    token_set(topics[k]@).contains(w) && !generic_tokens().contains(
                        w,
                    ) implies #[trigger] token_set(query).contains(w) by {
                    assert(need.contains(w));
                    let j = choose|j: int| 0 <= j < need.len() && need[j] == w;
                    assert(have.contains(need[j]));
                }
            } else {
                let j = choose|j: int| 0 <= j < need.len() && !have.contains(#[trigger] need[j]);
                assert(need.contains(need[j]));
                assert(!token_set(query).contains(need[j]));
            }
        }
    }
}

proof fn lemma_matching_below(s: Seq<RegistrySource>, query: Seq<char>, n: int)
    requires
        0 <= n <= s.len() <= usize::MAX,
    ensures
        forall|k: int| 0 <= k < matching(s, query, n).len() ==> (#[trigger] matching(s, query, n)[k])
            < n,
    decreases n,
{
    if n > 0 {
        lemma_matching_below(s, query, n - 1);
        let front = matching(s, query, n - 1);
        let all = matching(s, query, n);
        assert forall|k: int| 0 <= k < all.len() implies (#[trigger] all[k]) < n by {
            if k < front.len() {
                assert(all[k] == front[k]);
            }
        }
    }
}

proof fn lemma_significant(topic: Seq<char>)
    ensures
        forall|w: Seq<char>| #[trigger]
            significant(topic).contains(w) == (token_set(topic).contains(w)
                && !generic_tokens().contains(w)),
{
    let all = token_set(topic);
    let keep = |t: Seq<char>| !generic_tokens().contains(t);
    let at = crate::lists::lemma_filter_places(all, keep);
    let r = all.filter(keep);
    assert(r == significant(topic));
    assert forall|w: Seq<char>| #[trigger]
        significant(topic).contains(w) == (all.contains(w) && !generic_tokens().contains(w)) by {
        if r.contains(w) {
            let k = choose|k: int| 0 <= k < r.len() && r[k] == w;
            assert(at.contains(at[k]));
            assert(all[at[k]] == w);
        }
        if all.contains(w) && keep(w) {
            let i = choose|i: int| 0 <= i < all.len() && all[i] == w;
            assert(at.contains(i));
            let k = choose|k: int| 0 <= k < at.len() && at[k] == i;
            assert(r[k] == w);
        }
    }
}

/// A topic must have two telling words: one with fewer makes its registry
/// invalid, and so does a path that is absolute or climbs, an empty name, a
/// status that is none, or a name that stands twice.
pub proof fn law_a_registry_is_sound(s: Seq<RegistrySource>)
    requires
        sound_sources(s),
    ensures
        forall|i: int, k: int|
            0 <= i < s.len() && 0 <= k < s[i].topics@.len() ==> has_two_telling_words(
                (#[trigger] s[i].topics@[k])@,
            ),
        forall|i: int|
            0 <= i < s.len() ==> (#[trigger] s[i]).topics@.len() > 0 && s[i].id@.len() > 0
                && s[i].path@.len() > 0 && s[i].path@[0] != '/' && !text::split(
                s[i].path@,
                '/',
            ).contains(".."@) && (s[i].authority_status is None || s[i].authority_status->0@
                == "current"@ || s[i].authority_status->0@ == "historical"@
                || s[i].authority_status->0@ == "unknown"@),
        forall|i: int, j: int|
            0 <= i < s.len() && 0 <= j < s.len() && (#[trigger] s[i]).id@ == (#[trigger] s[j]).id@
                ==> i == j,
{
    assert forall|i: int, k: int|
        0 <= i < s.len() && 0 <= k < s[i].topics@.len() implies has_two_telling_words(
        (#[trigger] s[i].topics@[k])@,
    ) by {
        let topic = s[i].topics@[k]@;
        assert(sound_source(s[i]));
        lemma_significant(topic);
        lemma_uniq(
            text::non_empty(text::split_by(text::lowercase(topic), not_alphanumeric())),
        );
        let need = significant(topic);
        let keep = |t: Seq<char>| !generic_tokens().contains(t);
        let at = crate::lists::lemma_filter_places(token_set(topic), keep);
        assert(need == token_set(topic).filter(keep));
        let (a, b) = (need[0], need[1]);
        assert(need.contains(a) && need.contains(b));
        assert(at[0] < at[1]);
        assert(a != b);
        assert(token_set(topic).contains(a) && token_set(topic).contains(b));
    }
    assert forall|i: int| 0 <= i < s.len() implies (#[trigger] s[i]).id@.len() > 0 by {
        assert(sound_source(s[i]));
        text::lemma_trim_is_no_longer(s[i].id@);
    }
    assert forall|i: int| 0 <= i < s.len() implies (#[trigger] s[i]).topics@.len() > 0
        && s[i].path@.len() > 0 && s[i].path@[0] != '/' && !text::split(s[i].path@, '/').contains(
        ".."@,
    ) && (s[i].authority_status is None || s[i].authority_status->0@ == "current"@
        || s[i].authority_status->0@ == "historical"@ || s[i].authority_status->0@
        == "unknown"@) by {
        assert(sound_source(s[i]));
    }
}

/// The standing of an entry: one that names a successor is historical, and its
/// successor is another entry that is current, has no successor itself and may be
/// seen; one that names none has the standing that it is registered with, unknown
/// where it has none.
pub proof fn law_standing(s: Seq<RegistrySource>, i: int, for_agent: bool)
    requires
        0 <= i < s.len(),
        effective_status(s, i, for_agent) is Ok,
    ensures
        s[i].superseded_by is Some && s[i].superseded_by->0@.len() > 0 ==> effective_status(
            s,
            i,
            for_agent,
        )->Ok_0 is Historical && exists|t: int|
            0 <= t < s.len() && t != i && (#[trigger] s[t]).id@ == s[i].superseded_by->0@
                && s[t].authority_status is Some && s[t].authority_status->0@ == "current"@ && (
            s[t].superseded_by is None || s[t].superseded_by->0@.len() == 0) && (for_agent
                ==> s[t].private == Some(false)),
        s[i].superseded_by is None || s[i].superseded_by->0@.len() == 0 ==> match effective_status(
            s,
            i,
            for_agent,
        )->Ok_0 {
            AuthorityStatus::Current => s[i].authority_status is Some
                && s[i].authority_status->0@ == "current"@,
            AuthorityStatus::Historical => s[i].authority_status is Some
                && s[i].authority_status->0@ == "historical"@,
            AuthorityStatus::Unknown => s[i].authority_status is None
                || s[i].authority_status->0@ == "unknown"@,
        },
{
    if let Some(id) = successor(s[i].superseded_by) {
        lemma_id_index(s, id, s.len() as int);
        let t = id_index(s, id, s.len() as int)->0;
        assert(s[t].id@ == id);
    }
}

proof fn lemma_id_index(s: Seq<RegistrySource>, id: Seq<char>, n: int)
    requires
        0 <= n <= s.len(),
    ensures
        match id_index(s, id, n) {
            Some(t) => 0 <= t < n && s[t].id@ == id,
            None => forall|t: int| 0 <= t < n ==> (#[trigger] s[t]).id@ != id,
        },
    decreases n,
{
    if n > 0 {
        lemma_id_index(s, id, n - 1);
    }
}

/// Whether entries are those of `matched` at ascending places, each with its
/// standing; an agent's are all that are marked as not private, anyone else's
/// simply all.
pub open spec fn come_from(
    p: Seq<Pick>,
    s: Seq<RegistrySource>,
    matched: Seq<usize>,
    for_agent: bool,
    at: Seq<int>,
) -> bool {
    &&& at.len() == p.len()
    &&& forall|k: int|
        0 <= k < at.len() ==> 0 <= #[trigger] at[k] < matched.len() && p[k].index == matched[at[k]]
            && effective_status(s, p[k].index as int, for_agent) == Ok::<
            AuthorityStatus,
            Seq<char>,
        >(p[k].status)
    &&& forall|j: int, k: int| 0 <= j < k < at.len() ==> #[trigger] at[j] < #[trigger] at[k]
    &&& forall|m: int|
        0 <= m < matched.len() ==> #[trigger] at.contains(m) == (!for_agent
            || s[matched[m] as int].private == Some(false))
}

/// Of what a query names, an agent may be answered only from what is marked as
/// not private, and anyone else from all of it: every such entry may answer, with
/// its standing, in the order of the registry.
pub proof fn law_eligible(s: Seq<RegistrySource>, matched: Seq<usize>, for_agent: bool)
    requires
        eligible(s, matched, for_agent) is Ok,
    ensures
        exists|at: Seq<int>|
            come_from(eligible(s, matched, for_agent)->Ok_0, s, matched, for_agent, at),
    decreases matched.len(),
{
    let p = eligible(s, matched, for_agent)->Ok_0;
    if matched.len() == 0 {
        assert(come_from(p, s, matched, for_agent, Seq::<int>::empty()));
    } else {
        let front = matched.drop_last();
        law_eligible(s, front, for_agent);
        let q = eligible(s, front, for_agent)->Ok_0;
        let n = front.len() as int;
        let before = choose|at: Seq<int>| come_from(q, s, front, for_agent, at);
        let at = if hidden(s[matched.last() as int], for_agent) {
            before
        } else {
            before.push(n)
        };
        assert forall|k: int| 0 <= k < at.len() implies 0 <= #[trigger] at[k] < matched.len()
            && p[k].index == matched[at[k]] && effective_status(s, p[k].index as int, for_agent)
            == Ok::<AuthorityStatus, Seq<char>>(p[k].status) by {
            if k < before.len() {
                assert(before[k] == at[k]);
                assert(front[before[k]] == matched[at[k]]);
            }
        }
        assert forall|j: int, k: int| 0 <= j < k < at.len() implies #[trigger] at[j]
            < #[trigger] at[k] by {
            assert(before[j] == at[j]);
            if k < before.len() {
                assert(before[k] == at[k]);
            }
        }
        assert forall|m: int| 0 <= m < matched.len() implies #[trigger] at.contains(m) == (!for_agent
            || s[matched[m] as int].private == Some(false)) by {
            if m < n {
                assert(front[m] == matched[m]);
                if before.contains(m) {
                    let k = choose|k: int| 0 <= k < before.len() && before[k] == m;
                    assert(at[k] == m);
                } else if at.contains(m) {
                    let k = choose|k: int| 0 <= k < at.len() && at[k] == m;
                    assert(before[k] == m);
                }
            } else if hidden(s[matched.last() as int], for_agent) {
                if at.contains(m) {
                    let k = choose|k: int| 0 <= k < at.len() && at[k] == m;
                    assert(before[k] < n);
                }
            } else {
                assert(at[before.len() as int] == m);
            }
        }
        assert(come_from(p, s, matched, for_agent, at));
    }
}

pub open spec fn is_settled(r: Selected, kind: ResolutionKind) -> bool {
    match r {
        Selected::Settled(k, _) => k == kind,
        Selected::Read(_) => false,
    }
}

/// What settles an answer before any source is read: a registry that is not
/// there or names nothing leaves generic recall as it is, more than one current
/// entry is a conflict, as are more than eight entries, and where every entry is
/// private nothing is shown.
pub proof fn law_what_settles_an_answer(registry: Registry, query: Seq<char>, for_agent: bool)
    requires
        registry.version == 1,
        registry.sources@.len() <= 64,
        sound_sources(registry.sources@),
    ensures
        ({
            let s = registry.sources@;
            let m = matching(s, query, s.len() as int);
            let r = selected(RegistryRead::Parsed(registry), query, for_agent);
            &&& m.len() == 0 <==> is_settled(r, ResolutionKind::Unmatched)
            &&& m.len() > 8 ==> is_settled(r, ResolutionKind::Conflict)
            &&& 0 < m.len() <= 8 && eligible(s, m, for_agent) is Err ==> is_settled(r, ResolutionKind::Invalid)
            &&& 0 < m.len() <= 8 && eligible(s, m, for_agent) is Ok ==> {
                let p = eligible(s, m, for_agent)->Ok_0;
                &&& p.len() == 0 ==> is_settled(r, ResolutionKind::PrivateOnly)
                &&& (exists|i: int, j: int|
                    0 <= i < j < p.len() && (#[trigger] p[i]).status is Current && (
                    #[trigger] p[j]).status is Current) ==> is_settled(r, ResolutionKind::Conflict)
                &&& p.len() > 0 && !(exists|i: int, j: int|
                    0 <= i < j < p.len() && (#[trigger] p[i]).status is Current && (
                    #[trigger] p[j]).status is Current) ==> r == Selected::Read(
                    chosen(p, intent_of(query)),
                )
            }
        }),
{
    let s = registry.sources@;
    let m = matching(s, query, s.len() as int);
    if 0 < m.len() <= 8 && eligible(s, m, for_agent) is Ok {
        let p = eligible(s, m, for_agent)->Ok_0;
        let keep = |x: Pick| x.status == AuthorityStatus::Current;
        let at = crate::lists::lemma_filter_places(p, keep);
        let c = with_status(p, AuthorityStatus::Current);
        assert(c == p.filter(keep));
        if c.len() > 1 {
            assert(at.contains(at[0]) && at.contains(at[1]));
            assert(at[0] < at[1]);
            assert(p[at[0]].status is Current && p[at[1]].status is Current);
        }
        if exists|i: int, j: int|
            0 <= i < j < p.len() && (#[trigger] p[i]).status is Current && (#[trigger] p[j]).status is Current {
            let (i, j) = choose|i: int, j: int|
                0 <= i < j < p.len() && (#[trigger] p[i]).status is Current && (
                #[trigger] p[j]).status is Current;
            assert(at.contains(i) && at.contains(j));
            let a = choose|a: int| 0 <= a < at.len() && at[a] == i;
            let b = choose|b: int| 0 <= b < at.len() && at[b] == j;
            assert(a != b);
        }
    }
}

/// Small words tell nothing of a topic, and no long one is among them.
pub proof fn law_small_words_tell_nothing()
    ensures
        generic_tokens().contains("the"@),
        generic_tokens().contains("of"@),
        generic_tokens().contains("and"@),
        generic_tokens().contains("to"@),
        generic_tokens().contains("what"@),
        generic_tokens().contains("how"@),
        generic_tokens().contains("is"@),
        forall|w: Seq<char>| #[trigger] generic_tokens().contains(w) ==> 0 < w.len() <= 5,
{
    let g = generic_tokens();
    assert(g[18] == "the"@ && g[14] == "of"@ && g[2] == "and"@ && g[20] == "to"@ && g[21]
        == "what"@ && g[10] == "how"@ && g[12] == "is"@);
    reveal_strlit("a");
    reveal_strlit("an");
    reveal_strlit("and");
    reveal_strlit("are");
    reveal_strlit("as");
    reveal_strlit("at");
    reveal_strlit("be");
    reveal_strlit("by");
    reveal_strlit("for");
    reveal_strlit("from");
    reveal_strlit("how");
    reveal_strlit("in");
    reveal_strlit("is");
    reveal_strlit("it");
    reveal_strlit("of");
    reveal_strlit("on");
    reveal_strlit("or");
    reveal_strlit("that");
    reveal_strlit("the");
    reveal_strlit("this");
    reveal_strlit("to");
    reveal_strlit("what");
    reveal_strlit("when");
    reveal_strlit("where");
    reveal_strlit("which");
    reveal_strlit("who");
    reveal_strlit("why");
    reveal_strlit("with");
}

/// Whether `e` is the front of a text, all of it where that has at most 900
/// characters, else its first 900 but for white space at their end.
pub open spec fn is_front(e: Seq<char>, all: Seq<char>) -> bool {
    &&& e.len() <= all.len() && e == all.take(e.len() as int)
    &&& all.len() <= 900 ==> e == all
    &&& all.len() > 900 ==> e.len() <= 900 && forall|k: int|
        e.len() <= k < 900 ==> text::is_space(#[trigger] all[k])
}

proof fn lemma_front(s: Seq<char>)
    ensures
        is_front(
            text::trim(text::first_chars(text::trim(s), MAX_EXCERPT_CHARS as nat)),
            text::trim(s),
        ),
{
    let all = text::trim(s);
    text::law_trim(s);
    let (i, j) = choose|i: int, j: int| #[trigger]
        text::is_inner(s, i, j) && text::trim(s) == s.subrange(i, j);
    assert(all.len() > 0 ==> all[0] == s[i] && all.last() == s[j - 1]);
    let cut = text::first_chars(all, 900);
    let e = text::trim(cut);
    assert(all.len() <= 900 ==> cut =~= all);
    assert(cut.len() > 0 ==> cut[0] == all[0]);
    text::law_trim(cut);
    let (a, b) = choose|a: int, b: int| #[trigger]
        text::is_inner(cut, a, b) && text::trim(cut) == cut.subrange(a, b);
    if cut.len() > 0 {
        assert(a == 0) by {
            if a > 0 {
                assert(text::is_space(cut[0]));
            }
        }
        if all.len() <= 900 && b < cut.len() {
            assert(text::is_space(cut[cut.len() - 1]));
        }
    }
    assert(e =~= all.take(e.len() as int));
    assert forall|k: int| e.len() <= k < 900 && all.len() > 900 implies text::is_space(
        #[trigger] all[k],
    ) by {
        assert(cut[k] == all[k]);
    }
}

/// Whether the lines from `i + 1` up to `j` are the section under the heading in
/// line `i`: it is the first with that title, and the section goes on to the next
/// heading that is no deeper, or to the end.
pub open spec fn is_section(lines: Seq<Seq<char>>, title: Seq<char>, i: int, j: int) -> bool {
    &&& 0 <= i < j <= lines.len()
    &&& heading_of(lines[i]) matches Some(h) && h.1 == title
    &&& forall|k: int| 0 <= k < i ==> !(heading_of(#[trigger] lines[k]) is Some && (heading_of(lines[k])->0).1 == title)
    &&& forall|k: int|
        i < k < j ==> !(heading_of(#[trigger] lines[k]) is Some && (heading_of(lines[k])->0).0 <= (heading_of(lines[i])->0).0)
    &&& j < lines.len() ==> heading_of(lines[j]) is Some && (heading_of(lines[j])->0).0 <= (
    heading_of(lines[i])->0).0
}

proof fn lemma_titled_line(lines: Seq<Seq<char>>, title: Seq<char>, i: int)
    requires
        0 <= i,
    ensures
        match titled_line(lines, title, i) {
            Some(k) => i <= k < lines.len() && heading_of(lines[k]) is Some && (heading_of(
                lines[k],
            )->0).1 == title && forall|m: int|
                i <= m < k ==> !(heading_of(#[trigger] lines[m]) is Some && (heading_of(
                    lines[m],
                )->0).1 == title),
            None => forall|m: int|
                i <= m < lines.len() ==> !(heading_of(#[trigger] lines[m]) is Some && (heading_of(
                    lines[m],
                )->0).1 == title),
        },
    decreases lines.len() - i,
{
    if i < lines.len() && !(heading_of(lines[i]) is Some && (heading_of(lines[i])->0).1 == title) {
        lemma_titled_line(lines, title, i + 1);
    }
}

proof fn lemma_section_end(lines: Seq<Seq<char>>, level: nat, i: int)
    requires
        0 <= i <= lines.len(),
    ensures
        ({
            let e = section_end(lines, level, i);
            &&& i <= e <= lines.len()
            &&& forall|k: int|
                i <= k < e ==> !(heading_of(#[trigger] lines[k]) is Some && (heading_of(
                    lines[k],
                )->0).0 <= level)
            &&& e < lines.len() ==> heading_of(lines[e]) is Some && (heading_of(lines[e])->0).0
                <= level
        }),
    decreases lines.len() - i,
{
    if i < lines.len() && !(heading_of(lines[i]) is Some && (heading_of(lines[i])->0).0 <= level) {
        lemma_section_end(lines, level, i + 1);
    }
}

/// What is shown of a source is the front of it; where its entry names a heading,
/// the front of the section under that heading, and nothing where there is none.
pub proof fn law_excerpt(t: Seq<char>, title: Seq<char>)
    ensures
        excerpt(t, None) is Some,
        is_front(excerpt(t, None)->0, text::trim(t)),
        match excerpt(t, Some(title)) {
            Some(e) => exists|i: int, j: int| #[trigger]
                is_section(text::lines(t), title, i, j) && is_front(
                    e,
                    text::trim(text::join(text::lines(t).subrange(i + 1, j), "\n"@)),
                ),
            None => forall|i: int, j: int| !#[trigger] is_section(text::lines(t), title, i, j),
        },
{
    let lines = text::lines(t);
    lemma_front(t);
    lemma_titled_line(lines, title, 0);
    if let Some(i) = titled_line(lines, title, 0) {
        let level = (heading_of(lines[i])->0).0;
        lemma_section_end(lines, level, i + 1);
        let j = section_end(lines, level, i + 1);
        lemma_front(text::join(lines.subrange(i + 1, j), "\n"@));
        text::lemma_trim_twice(text::join(lines.subrange(i + 1, j), "\n"@));
        assert(is_section(lines, title, i, j));
    } else {
        assert forall|i: int, j: int| !#[trigger] is_section(lines, title, i, j) by {}
    }
}

proof fn lemma_leading(n: nat, rest: Seq<char>)
    requires
        rest.len() > 0 ==> rest[0] != '#',
    ensures
        text::leading(Seq::new(n, |i: int| '#') + rest, '#') == n,
    decreases n,
{
    let s = Seq::new(n, |i: int| '#') + rest;
    if n > 0 {
        assert(s.drop_first() =~= Seq::new((n - 1) as nat, |i: int| '#') + rest);
        lemma_leading((n - 1) as nat, rest);
    }
}

/// A heading is one to six number signs, a space and its title; more of them, or
/// none, make no heading.
pub proof fn law_heading(n: nat, title: Seq<char>)
    ensures
        1 <= n <= 6 ==> heading_of(Seq::new(n, |i: int| '#') + seq![' '] + title) == Some(
            (n, text::trim(title)),
        ),
        n > 6 ==> heading_of(Seq::new(n, |i: int| '#') + seq![' '] + title) is None,
        heading_of(Seq::new(n, |i: int| '#')) is None,
{
    let hashes = Seq::new(n, |i: int| '#');
    let rest = seq![' '] + title;
    let s = hashes + seq![' '] + title;
    assert(s =~= hashes + rest);
    lemma_leading(n, rest);
    lemma_leading(n, Seq::empty());
    assert(hashes + Seq::<char>::empty() =~= hashes);
    if n > 0 {
        assert(s[0] == '#' && hashes[0] == '#');
        assert(s[n as int] == ' ');
        assert(s.skip(n as int + 1) =~= title);
    }
}

/// An agent is kept from every source that is not marked as not private; its owner sees
/// all.
pub proof fn law_who_may_see_a_source(s: RegistrySource)
    ensures
        !hidden(s, false),
        s.private is None ==> hidden(s, true),
        s.private == Some(true) ==> hidden(s, true),
        s.private == Some(false) ==> !hidden(s, true),
{
}

/// A source is used if and only if it could be read, stays within the 262,144 bytes of
/// all sources together, is a text, and has the part that is asked for; what is shown is
/// that part of its own text.
pub proof fn law_usable_sources(s: RegistrySource, body: Vec<u8>, total: int)
    ensures
        source_outcome(s, SourceRead::Unavailable, total) is Err,
        total + body@.len() > 262_144 ==> source_outcome(s, SourceRead::Body(body), total) is Err,
        !vstd::utf8::valid_utf8(body@) ==> source_outcome(s, SourceRead::Body(body), total) is Err,
        source_outcome(s, SourceRead::Body(body), total) is Ok ==> Some(
            source_outcome(s, SourceRead::Body(body), total)->Ok_0,
        ) == excerpt(vstd::utf8::decode_utf8(body@), crate::llm_config::opt_text(s.heading))
            && source_outcome(s, SourceRead::Body(body), total)->Ok_0.len() > 0,
        total + body@.len() <= 262_144 && vstd::utf8::valid_utf8(body@) && excerpt(
            vstd::utf8::decode_utf8(body@),
            crate::llm_config::opt_text(s.heading),
        ) is Some && excerpt(
            vstd::utf8::decode_utf8(body@),
            crate::llm_config::opt_text(s.heading),
        )->0.len() > 0 ==> source_outcome(s, SourceRead::Body(body), total) is Ok,
{
}

/// An answer matches if and only if all its sources could be used: then it shows each of
/// them, in order, with the identifier, the path, the status, the date and the successor
/// of its entry. Else it shows none and says why.
pub proof fn law_an_answer_shows_its_sources(
    r: Resolution,
    s: Seq<RegistrySource>,
    picks: Seq<Pick>,
    reads: Seq<SourceRead>,
    intent: QueryIntent,
)
    requires
        is_answer(r, s, picks, reads, intent),
    ensures
        r.intent == intent,
        (r.kind is Matched) == (forall|k: int|
            0 <= k < picks.len() ==> source_outcome(
                s[(#[trigger] picks[k]).index as int],
                reads[k],
                bytes_of(reads, k),
            ) is Ok),
        r.kind is Matched ==> r.sources@.len() == picks.len() && forall|k: int|
            0 <= k < picks.len() ==> shows_entry(
                #[trigger] r.sources@[k],
                s[picks[k].index as int],
                picks[k].status,
            ),
        !(r.kind is Matched) ==> r.kind is Invalid && r.sources@.len() == 0 && r.notice is Some,
{
    lemma_first_notice(s, picks, reads, 0);
}

/// Whether what is shown is of an entry.
pub open spec fn shows_entry(
    r: ResolvedSource,
    s: RegistrySource,
    status: AuthorityStatus,
) -> bool {
    &&& r.id@ == s.id@ && r.path@ == s.path@ && r.status == status
    &&& (r.effective_date is Some) == (s.effective_date is Some)
    &&& s.effective_date is Some ==> r.effective_date->0@ == s.effective_date->0@
    &&& (r.superseded_by is Some) == (s.superseded_by is Some)
    &&& s.superseded_by is Some ==> r.superseded_by->0@ == s.superseded_by->0@
}

proof fn lemma_first_notice(
    s: Seq<RegistrySource>,
    picks: Seq<Pick>,
    reads: Seq<SourceRead>,
    i: int,
)
    requires
        0 <= i <= picks.len(),
    ensures
        (first_notice(s, picks, reads, i) is None) == (forall|k: int|
            i <= k < picks.len() ==> source_outcome(
                s[(#[trigger] picks[k]).index as int],
                reads[k],
                bytes_of(reads, k),
            ) is Ok),
    decreases picks.len() - i,
{
    if i < picks.len() {
        lemma_first_notice(s, picks, reads, i + 1);
        assert(picks[i].index == picks[i].index);
    }
}

/// The bytes of sources are added up; one that could not be read adds none.
pub proof fn law_bytes_add_up(reads: Seq<SourceRead>, body: Vec<u8>, n: int)
    requires
        0 < n <= reads.len(),
    ensures
        bytes_of(reads, 0) == 0,
        reads[n - 1] is Unavailable ==> bytes_of(reads, n) == bytes_of(reads, n - 1),
        reads[n - 1] is Body ==> bytes_of(reads, n) == bytes_of(reads, n - 1)
            + reads[n - 1]->Body_0@.len(),
{
}

/// The names of the standings are read as what they name; where none is given it is
/// unknown, and another name is none.
pub proof fn law_standing_names(raw: String)
    ensures
        raw@ == "current"@ ==> AuthorityStatus::registered(Some(raw)) == Some(
            AuthorityStatus::Current,
        ),
        raw@ == "historical"@ ==> AuthorityStatus::registered(Some(raw)) == Some(
            AuthorityStatus::Historical,
        ),
        raw@ == "unknown"@ ==> AuthorityStatus::registered(Some(raw)) == Some(
            AuthorityStatus::Unknown,
        ),
        AuthorityStatus::registered(None) == Some(AuthorityStatus::Unknown),
        raw@ != "current"@ && raw@ != "historical"@ && raw@ != "unknown"@
            ==> AuthorityStatus::registered(Some(raw)) is None,
{
    reveal_strlit("current");
    reveal_strlit("historical");
    reveal_strlit("unknown");
    assert("current"@.len() == 7 && "historical"@.len() == 10 && "unknown"@.len() == 7);
    assert("current"@[0] == 'c' && "unknown"@[0] == 'u');
}

/// A path of one to sixteen plain names is a bounded one; a path from the root, one that
/// climbs anywhere, an empty one and one that starts with a step that stays are not.
pub proof fn law_bounded_paths(names: Seq<Seq<char>>, path: Seq<char>, from: int)
    ensures
        (0 < names.len() <= 16 && forall|i: int|
            0 <= i < names.len() ==> (#[trigger] names[i]).len() > 0 && names[i] != "."@
                && names[i] != ".."@ && !names[i].contains('/')) ==> bounded_path(
            text::join(names, "/"@),
        ),
        path.len() > 0 && path[0] == '/' ==> !bounded_path(path),
        path.len() == 0 ==> !bounded_path(path),
        text::is_run(path, text::is_char('/'), from, from + 2) && path.subrange(from, from + 2)
            == ".."@ ==> !bounded_path(path),
        bounded_path(path) ==> names_of(path).len() <= 16,
{
    reveal_strlit("/");
    reveal_strlit(".");
    reveal_strlit("..");
    let cut = text::is_char('/');
    if text::is_run(path, cut, from, from + 2) && path.subrange(from, from + 2) == ".."@ {
        text::law_pieces_are_the_runs(path, cut, ".."@);
    }
    if 0 < names.len() <= 16 && forall|i: int|
        0 <= i < names.len() ==> (#[trigger] names[i]).len() > 0 && names[i] != "."@ && names[i]
            != ".."@ && !names[i].contains('/') {
        let p = text::join(names, "/"@);
        assert forall|i: int| 0 <= i < names.len() implies text::free_of(
            #[trigger] names[i],
            cut,
        ) by {
            assert forall|j: int| 0 <= j < names[i].len() implies !cut(#[trigger] names[i][j]) by {
                assert(names[i].contains(names[i][j]));
            }
        }
        text::lemma_split_join(names, "/"@, cut);
        assert(text::split(p, '/') == names);
        lemma_join_starts(names, "/"@);
        assert(!names[0].contains('/'));
        assert(names[0].contains(names[0][0]));
        assert(!names.contains(".."@));
        names.lemma_filter_len(|p: Seq<char>| is_name(p));
    }
}

proof fn lemma_join_starts(parts: Seq<Seq<char>>, sep: Seq<char>)
    requires
        parts.len() > 0,
        parts[0].len() > 0,
    ensures
        text::join(parts, sep).len() > 0,
        text::join(parts, sep)[0] == parts[0][0],
    decreases parts.len(),
{
    if parts.len() > 1 {
        lemma_join_starts(parts.drop_last(), sep);
    }
}

/// A topic can be asked for if at least two different words of it tell something.
pub proof fn law_usable_topic(topic: Seq<char>, a: Seq<char>, b: Seq<char>)
    ensures
        significant(topic).contains(a) && significant(topic).contains(b) && a != b
            ==> usable_topic(topic),
        usable_topic(topic) ==> significant(topic).len() > 1,
{
    let s = significant(topic);
    if s.contains(a) && s.contains(b) && a != b {
        let i = choose|i: int| 0 <= i < s.len() && s[i] == a;
        let j = choose|j: int| 0 <= j < s.len() && s[j] == b;
        assert(i != j);
    }
}

/// What makes a source sound: a name that is not blank, a bounded path, a heading that is
/// not blank where there is one, topics that can all be asked for, one at least, and one of
/// the three standings, or none.
pub proof fn law_a_sound_source(s: RegistrySource)
    ensures
        sound_source(s) == (text::trim(s.id@).len() != 0 && bounded_path(s.path@) && (s.heading
            is None || text::trim(s.heading->0@).len() != 0) && s.topics@.len() != 0 && (
        forall|k: int| 0 <= k < s.topics@.len() ==> usable_topic((#[trigger] s.topics@[k])@)) && (
        s.authority_status is None || s.authority_status->0@ == "current"@
            || s.authority_status->0@ == "historical"@ || s.authority_status->0@ == "unknown"@)),
{
}

/// A registry of another version is not supported; one of more than 64 entries, one with
/// an entry that is not sound or whose name stands twice, and one that cannot be read are
/// invalid; where there is none, nothing is said.
pub proof fn law_registries_that_do_not_answer(
    registry: Registry,
    query: Seq<char>,
    for_agent: bool,
    i: int,
    j: int,
)
    ensures
        ({
            let s = registry.sources@;
            let r = selected(RegistryRead::Parsed(registry), query, for_agent);
            &&& (registry.version != 1) == is_settled(r, ResolutionKind::Unsupported)
            &&& registry.version == 1 && s.len() > 64 ==> r == Selected::Settled(
                ResolutionKind::Invalid,
                Some("Authority degraded: registry entry limit"@),
            )
            &&& registry.version == 1 && 0 <= i < s.len() <= 64 && !sound_source(s[i]) ==> r
                == Selected::Settled(
                ResolutionKind::Invalid,
                Some("Authority degraded: invalid registry"@),
            )
            &&& registry.version == 1 && 0 <= i < j < s.len() <= 64 && s[i].id@ == s[j].id@ ==> r
                == Selected::Settled(
                ResolutionKind::Invalid,
                Some("Authority degraded: invalid registry"@),
            )
        }),
        selected(RegistryRead::Absent, query, for_agent) == Selected::Settled(
            ResolutionKind::Absent,
            None,
        ),
        selected(RegistryRead::Unreadable, query, for_agent) == Selected::Settled(
            ResolutionKind::Invalid,
            Some("Authority degraded: invalid registry"@),
        ),
        registry.version != 1 ==> registry_detail(
            RegistryRead::Parsed(registry),
            query,
            for_agent,
        ) is None,
        registry.version == 1 && registry.sources@.len() > 64 ==> registry_detail(
            RegistryRead::Parsed(registry),
            query,
            for_agent,
        ) == Some("registry entry limit"@),
        registry.version == 1 && 0 <= i < registry.sources@.len() <= 64 && !sound_source(
            registry.sources@[i],
        ) ==> registry_detail(RegistryRead::Parsed(registry), query, for_agent) == Some(
            "invalid registry"@,
        ),
{
}

} // verus!
