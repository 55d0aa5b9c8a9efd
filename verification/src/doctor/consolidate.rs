//! The nightly consolidation of a workspace: what it looks at, and its report.
use crate::assistant::Assistant;
use crate::json;
use crate::lists;
use crate::paths;
use crate::text::{self, str_eq};
use vstd::prelude::*;

verus! {

// ── Links in a document ──────────────────────────────────────────────────────
/// Where the bracket that was opened `depth` times in front of `i` closes, or
/// the end of the text.
pub open spec fn closing(s: Seq<char>, i: int, depth: int) -> int
    decreases s.len() - i,
{
    if i < 0 || i >= s.len() {
        i
    } else if s[i] == ')' && depth <= 1 {
        i
    } else {
        closing(
            s,
            i + 1,
            if s[i] == '(' {
                depth + 1
            } else if s[i] == ')' {
                depth - 1
            } else {
                depth
            },
        )
    }
}

/// The path in what stands in the brackets of a link: without its anchor and
/// without the space around it.
pub open spec fn link_path(inside: Seq<char>) -> Seq<char> {
    text::trim(text::split(inside, '#')[0])
}

pub open spec fn has_space(s: Seq<char>) -> bool {
    exists|i: int| 0 <= i < s.len() && text::is_space(#[trigger] s[i])
}

/// A path to a document or a script of this workspace.
pub open spec fn is_relative_link(p: Seq<char>) -> bool {
    &&& p.len() > 0
    &&& !has_space(p)
    &&& !text::starts_with(p, "http://"@)
    &&& !text::starts_with(p, "https://"@)
    &&& !text::starts_with(p, "#"@)
    &&& !text::starts_with(p, "mailto:"@)
    &&& text::ends_with(p, ".md"@) || text::ends_with(p, ".yaml"@) || text::ends_with(p, ".sh"@)
        || text::ends_with(p, ".py"@) || text::ends_with(p, ".rs"@)
}

/// The paths of the links from position `i` on: what stands in brackets right
/// behind a `]`.
pub open spec fn links_from(s: Seq<char>, i: int) -> Seq<Seq<char>>
    decreases s.len() - i,
{
    if i < 0 || i >= s.len() {
        Seq::empty()
    } else if i > 0 && s[i] == '(' && s[i - 1] == ']' {
        let end = closing(s, i + 1, 1);
        if end <= i || end >= s.len() {
            Seq::empty()
        } else {
            let path = link_path(s.subrange(i + 1, end));
            (if end > i + 1 && is_relative_link(path) {
                seq![path]
            } else {
                Seq::empty()
            }) + links_from(s, end + 1)
        }
    } else {
        links_from(s, i + 1)
    }
}

proof fn lemma_closing(s: Seq<char>, i: int, depth: int)
    requires
        0 <= i <= s.len(),
    ensures
        i <= closing(s, i, depth) <= s.len(),
        closing(s, i, depth) < s.len() ==> s[closing(s, i, depth)] == ')',
    decreases s.len() - i,
{
    if i < s.len() && !(s[i] == ')' && depth <= 1) {
        lemma_closing(
            s,
            i + 1,
            if s[i] == '(' {
                depth + 1
            } else if s[i] == ')' {
                depth - 1
            } else {
                depth
            },
        );
    }
}

fn find_closing(s: &Vec<char>, start: usize) -> (end: usize)
    requires
        1 <= start <= s@.len(),
    ensures
        end == closing(s@, start as int, 1),
        start <= end <= s@.len(),
{
    let mut depth: usize = 1;
    let mut i: usize = start;
    while i < s.len()
        invariant
            1 <= start <= i <= s@.len(),
            1 <= depth <= i - start + 1,
            closing(s@, start as int, 1) == closing(s@, i as int, depth as int),
        decreases s.len() - i,
    {
        let c = s[i];
        if c == ')' {
            if depth == 1 {
                return i;
            }
            depth -= 1;
        } else if c == '(' {
            depth += 1;
        }
        i += 1;
    }
    i
}

fn contains_space(s: &str) -> (b: bool)
    ensures
        b == has_space(s@),
{
    let v = text::to_chars(s);
    let mut i: usize = 0;
    while i < v.len()
        invariant
            i <= v@.len(),
            v@ == s@,
            forall|k: int| 0 <= k < i ==> !text::is_space(#[trigger] s@[k]),
        decreases v.len() - i,
    {
        if text::char_is_space(v[i]) {
            proof {
                assert(text::is_space(s@[i as int]));
            }
            return true;
        }
        i += 1;
    }
    false
}

fn accepts_link(p: &str) -> (b: bool)
    ensures
        b == is_relative_link(p@),
{
    if p.is_empty() || contains_space(p) || text::starts_with_str(p, "http://")
        || text::starts_with_str(p, "https://") || text::starts_with_str(p, "#")
        || text::starts_with_str(p, "mailto:") {
        return false;
    }
    text::ends_with_str(p, ".md") || text::ends_with_str(p, ".yaml") || text::ends_with_str(
        p,
        ".sh",
    ) || text::ends_with_str(p, ".py") || text::ends_with_str(p, ".rs")
}

fn path_inside(inside: &str) -> (r: String)
    ensures
        r@ == link_path(inside@),
{
    let parts = text::split_char(inside, '#');
    proof {
        text::lemma_split_nonempty(inside@, '#');
        assert(text::texts(parts@).len() == parts@.len());
        assert(text::texts(parts@)[0] == parts@[0]@);
    }
    text::trim_str(parts[0].as_str())
}

/// The paths that a document links to.
pub fn extract_relative_links(content: &str) -> (r: Vec<String>)
    ensures
        text::texts(r@) == links_from(content@, 0),
{
    let s = text::to_chars(content);
    let mut out: Vec<String> = Vec::new();
    let mut i: usize = 0;
    proof {
        assert(text::texts(out@) + links_from(content@, 0) =~= links_from(content@, 0));
    }
    while i < s.len()
        invariant
            s@ == content@,
            i <= s@.len(),
            text::texts(out@) + links_from(content@, i as int) == links_from(content@, 0),
        decreases s.len() - i,
    {
        if i > 0 && s[i] == '(' && s[i - 1] == ']' {
            let end = find_closing(&s, i + 1);
            if end == s.len() {
                proof {
                    assert(text::texts(out@) + links_from(content@, i as int)
                        =~= text::texts(out@));
                }
                return out;
            }
            let ghost front = text::texts(out@);
            let inside = text::substring(s.as_slice(), i + 1, end);
            let p = path_inside(inside.as_str());
            let ghost path = p@;
            let ghost found = if end > i + 1 && is_relative_link(path) {
                seq![path]
            } else {
                Seq::empty()
            };
            if end > i + 1 && accepts_link(p.as_str()) {
                proof {
                    text::lemma_texts_push(out@, p);
                }
                out.push(p);
            }
            proof {
                assert(text::texts(out@) =~= front + found);
                assert(links_from(content@, i as int) == found + links_from(content@, end + 1));
                assert(text::texts(out@) + links_from(content@, end + 1) =~= front + links_from(
                    content@,
                    i as int,
                ));
            }
            i = end + 1;
        } else {
            i += 1;
        }
    }
    proof {
        assert(links_from(content@, i as int) =~= Seq::<Seq<char>>::empty());
        assert(text::texts(out@) + links_from(content@, i as int) =~= text::texts(out@));
    }
    out
}

/// Whether a path is that of the link whose bracket opens at `at`, right behind
/// a `]`, and closes within the text.
pub open spec fn linked_at(s: Seq<char>, at: int, path: Seq<char>) -> bool {
    let end = closing(s, at + 1, 1);
    &&& 0 < at < s.len()
    &&& s[at - 1] == ']'
    &&& s[at] == '('
    &&& at + 1 < end < s.len()
    &&& s[end] == ')'
    &&& path == link_path(s.subrange(at + 1, end))
}

proof fn lemma_link_place(s: Seq<char>, i: int, k: int) -> (at: int)
    requires
        0 <= k < links_from(s, i).len(),
    ensures
        i <= at,
        linked_at(s, at, links_from(s, i)[k]),
        is_relative_link(links_from(s, i)[k]),
    decreases s.len() - i,
{
    if i > 0 && s[i] == '(' && s[i - 1] == ']' {
        let end = closing(s, i + 1, 1);
        lemma_closing(s, i + 1, 1);
        let path = link_path(s.subrange(i + 1, end));
        let here: int = if end > i + 1 && is_relative_link(path) {
            1
        } else {
            0
        };
        if k >= here {
            let at = lemma_link_place(s, end + 1, k - here);
            assert(links_from(s, i)[k] == links_from(s, end + 1)[k - here]);
            at
        } else {
            i
        }
    } else {
        lemma_link_place(s, i + 1, k)
    }
}

/// Every path that is found stands in brackets right behind a `]`, is not
/// empty, has no space in it and is no address of another place.
pub proof fn law_links_are_relative(s: Seq<char>, i: int, k: int)
    requires
        0 <= k < links_from(s, i).len(),
    ensures
        is_relative_link(links_from(s, i)[k]),
        exists|at: int| i <= at && #[trigger] linked_at(s, at, links_from(s, i)[k]),
{
    let at = lemma_link_place(s, i, k);
    assert(linked_at(s, at, links_from(s, i)[k]));
}

// ── Paths ────────────────────────────────────────────────────────────────────
/// The components of a path; the root is one of its own.
pub open spec fn components(path: Seq<char>) -> Seq<Seq<char>> {
    (if text::starts_with(path, "/"@) {
        seq!["/"@]
    } else {
        Seq::empty()
    }) + text::non_empty(text::split(path, '/'))
}

/// Components with `..` resolved and `.` left out, among the first `n`.
pub open spec fn resolved(c: Seq<Seq<char>>, n: int) -> Seq<Seq<char>>
    decreases n,
{
    if n <= 0 {
        Seq::empty()
    } else {
        let front = resolved(c, n - 1);
        let x = c[n - 1];
        if x == ".."@ {
            if front.len() == 0 {
                front
            } else {
                front.drop_last()
            }
        } else if x == "."@ {
            front
        } else {
            front.push(x)
        }
    }
}

/// Components put together as a path, the first `n`.
pub open spec fn assembled(c: Seq<Seq<char>>, n: int) -> Seq<char>
    decreases n,
{
    if n <= 0 {
        Seq::empty()
    } else {
        paths::joined(assembled(c, n - 1), c[n - 1])
    }
}

/// A path with `..` and `.` resolved, without a look at the disk.
pub open spec fn normal(path: Seq<char>) -> Seq<char> {
    let c = components(path);
    let r = resolved(c, c.len() as int);
    assembled(r, r.len() as int)
}

pub(crate) fn path_components(path: &str) -> (r: Vec<String>)
    ensures
        text::texts(r@) == components(path@),
{
    let mut out: Vec<String> = Vec::new();
    proof {
        assert(text::texts(out@) =~= Seq::<Seq<char>>::empty());
    }
    if text::starts_with_str(path, "/") {
        out.push("/".to_owned());
        proof {
            assert(text::texts(out@) =~= seq!["/"@]);
        }
    }
    let ghost head = text::texts(out@);
    let parts = text::split_char(path, '/');
    let ghost all = text::texts(parts@);
    let mut i: usize = 0;
    proof {
        reveal(Seq::filter);
        assert(all.take(0) =~= Seq::<Seq<char>>::empty());
        assert(text::texts(out@) =~= head + text::non_empty(all.take(0)));
    }
    while i < parts.len()
        invariant
            i <= parts@.len(),
            all == text::texts(parts@),
            text::texts(out@) == head + text::non_empty(all.take(i as int)),
        decreases parts.len() - i,
    {
        proof {
            text::lemma_non_empty_push(all.take(i as int), parts@[i as int]@);
            assert(all.take(i + 1) =~= all.take(i as int).push(parts@[i as int]@));
        }
        if !parts[i].as_str().is_empty() {
            let s = parts[i].as_str().to_owned();
            proof {
                text::lemma_texts_push(out@, s);
            }
            out.push(s);
        }
        proof {
            assert(text::texts(out@) =~= head + text::non_empty(all.take(i + 1)));
        }
        i += 1;
    }
    proof {
        assert(all.take(all.len() as int) =~= all);
    }
    out
}

/// A path with `..` and `.` resolved, without a look at the disk.
pub fn normalize_path(path: &str) -> (r: String)
    ensures
        r@ == normal(path@),
{
    let c = path_components(path);
    let ghost all = text::texts(c@);
    let mut stack: Vec<String> = Vec::new();
    let mut i: usize = 0;
    proof {
        assert(text::texts(stack@) =~= Seq::<Seq<char>>::empty());
    }
    while i < c.len()
        invariant
            i <= c@.len(),
            all == text::texts(c@),
            text::texts(stack@) == resolved(all, i as int),
        decreases c.len() - i,
    {
        let ghost before = stack@;
        proof {
            assert(all[i as int] == c@[i as int]@);
            assert(text::texts(before).len() == before.len());
        }
        if str_eq(c[i].as_str(), "..") {
            let last = stack.pop();
            proof {
                if before.len() > 0 {
                    assert(text::texts(stack@) =~= text::texts(before).drop_last());
                }
            }
        } else if !str_eq(c[i].as_str(), ".") {
            let s = c[i].as_str().to_owned();
            proof {
                text::lemma_texts_push(stack@, s);
            }
            stack.push(s);
        }
        i += 1;
    }
    let ghost kept = text::texts(stack@);
    let mut r = String::new();
    let mut j: usize = 0;
    proof {
        assert(r@ =~= Seq::<char>::empty());
        assert(all.len() == c@.len());
        assert(kept.len() == stack@.len());
    }
    while j < stack.len()
        invariant
            j <= stack@.len(),
            kept == text::texts(stack@),
            r@ == assembled(kept, j as int),
        decreases stack.len() - j,
    {
        proof {
            assert(kept[j as int] == stack@[j as int]@);
        }
        r = paths::join(r.as_str(), stack[j].as_str());
        j += 1;
    }
    r
}

/// Where a link of a document leads.
pub open spec fn target(file: Seq<char>, hex_dir: Seq<char>, link: Seq<char>) -> Seq<char> {
    normal(
        paths::joined(
            match paths::parent_of(file) {
                Some(d) => d,
                None => hex_dir,
            },
            link,
        ),
    )
}

/// Where a link of a document leads.
pub fn link_target(file: &str, hex_dir: &str, link: &str) -> (r: String)
    ensures
        r@ == target(file@, hex_dir@, link@),
{
    let full = match paths::parent(file) {
        Some(d) => paths::join(d.as_str(), link),
        None => paths::join(hex_dir, link),
    };
    normalize_path(full.as_str())
}

/// What is said of a link that leads nowhere.
pub fn broken_link(rel_file: &str, link: &str) -> (r: String)
    ensures
        r@ == broken_note(rel_file@, link@),
{
    let mut r = rel_file.to_owned();
    r.append(": broken link to '");
    r.append(link);
    r.append("'");
    r
}

/// A link of a document: where it leads, and what is said where that is
/// nowhere.
#[derive(Debug, Clone)]
pub struct Link {
    pub target: String,
    pub note: String,
}

pub open spec fn broken_note(rel_file: Seq<char>, link: Seq<char>) -> Seq<char> {
    rel_file + ": broken link to '"@ + link + "'"@
}

/// The links of a document, in order.
pub fn links_of(hex_dir: &str, file: &str, rel_file: &str, content: &str) -> (r: Vec<Link>)
    ensures
        r@.len() == links_from(content@, 0).len(),
        forall|i: int|
            0 <= i < r@.len() ==> (#[trigger] r@[i]).target@ == target(
                file@,
                hex_dir@,
                links_from(content@, 0)[i],
            ) && r@[i].note@ == broken_note(rel_file@, links_from(content@, 0)[i]),
{
    let found = extract_relative_links(content);
    let ghost all = links_from(content@, 0);
    let mut out: Vec<Link> = Vec::new();
    let mut i: usize = 0;
    proof {
        assert(text::texts(found@).len() == found@.len());
    }
    while i < found.len()
        invariant
            i <= found@.len(),
            all == links_from(content@, 0),
            text::texts(found@) == all,
            out@.len() == i,
            forall|k: int|
                0 <= k < i ==> (#[trigger] out@[k]).target@ == target(file@, hex_dir@, all[k])
                    && out@[k].note@ == broken_note(rel_file@, all[k]),
        decreases found.len() - i,
    {
        proof {
            assert(all[i as int] == found@[i as int]@);
        }
        out.push(
            Link {
                target: link_target(file, hex_dir, found[i].as_str()),
                note: broken_link(rel_file, found[i].as_str()),
            },
        );
        i += 1;
    }
    out
}

/// What is said of the first `n` links that lead nowhere.
pub open spec fn stale_notes(links: Seq<Link>, there: Seq<bool>, n: int) -> Seq<Seq<char>>
    decreases n,
{
    if n <= 0 {
        Seq::empty()
    } else if there[n - 1] {
        stale_notes(links, there, n - 1)
    } else {
        stale_notes(links, there, n - 1).push(links[n - 1].note@)
    }
}

/// What is said of the links that lead nowhere, given for each link whether
/// there is something where it leads.
pub fn find_stale_refs(links: &Vec<Link>, there: &Vec<bool>) -> (r: Vec<String>)
    requires
        there@.len() == links@.len(),
    ensures
        text::texts(r@) == stale_notes(links@, there@, links@.len() as int),
{
    let mut out: Vec<String> = Vec::new();
    let mut i: usize = 0;
    proof {
        assert(text::texts(out@) =~= Seq::<Seq<char>>::empty());
    }
    while i < links.len()
        invariant
            i <= links@.len(),
            there@.len() == links@.len(),
            text::texts(out@) == stale_notes(links@, there@, i as int),
        decreases links.len() - i,
    {
        if !there[i] {
            let note = links[i].note.as_str().to_owned();
            proof {
                text::lemma_texts_push(out@, note);
            }
            out.push(note);
        }
        i += 1;
    }
    out
}

/// The documents that are looked at besides those below `docs`.
pub fn stale_ref_scan_targets(assistant: &Assistant, hex_dir: &str) -> (r: Vec<String>)
    ensures
        text::texts(r@) == seq![
            paths::joined(hex_dir@, assistant.notes@),
            paths::joined(hex_dir@, "AGENTS.md"@),
            paths::joined(hex_dir@, "templates/AGENTS.md"@),
        ],
{
    let mut r: Vec<String> = Vec::new();
    r.push(paths::join(hex_dir, assistant.notes.as_str()));
    r.push(paths::join(hex_dir, "AGENTS.md"));
    r.push(paths::join(hex_dir, "templates/AGENTS.md"));
    proof {
        assert(text::texts(r@) =~= seq![
            paths::joined(hex_dir@, assistant.notes@),
            paths::joined(hex_dir@, "AGENTS.md"@),
            paths::joined(hex_dir@, "templates/AGENTS.md"@),
        ]);
    }
    r
}

// ── Projects ─────────────────────────────────────────────────────────────────
/// What stands in the directory of the projects.
#[derive(Debug, Clone)]
pub struct ProjectEntry {
    pub name: String,
    pub is_dir: bool,
    pub has_context: bool,
}

#[derive(Debug, Clone)]
pub enum ProjectsDir {
    Missing,
    Unreadable(String),
    Entries(Vec<ProjectEntry>),
}

/// A project without the file that every project has.
pub open spec fn is_orphan(e: ProjectEntry) -> bool {
    e.is_dir && e.name@ != "_archive"@ && !e.has_context
}

pub open spec fn orphan_note(e: ProjectEntry) -> Seq<char> {
    "ORPHAN: projects/"@ + e.name@ + " missing context.md"@
}

pub open spec fn orphan_notes(v: Seq<ProjectEntry>) -> Seq<Seq<char>>
    decreases v.len(),
{
    if v.len() == 0 {
        Seq::empty()
    } else if is_orphan(v.last()) {
        orphan_notes(v.drop_last()).push(orphan_note(v.last()))
    } else {
        orphan_notes(v.drop_last())
    }
}

/// What is wrong with the projects.
pub fn orphan_project_issues(dir: &ProjectsDir) -> (r: Vec<String>)
    ensures
        text::texts(r@) == match dir {
            ProjectsDir::Missing => seq!["ISSUE: projects/ directory does not exist"@],
            ProjectsDir::Unreadable(e) => seq!["ISSUE: cannot read projects/ dir: "@ + e@],
            ProjectsDir::Entries(v) => orphan_notes(v@),
        },
{
    let mut out: Vec<String> = Vec::new();
    match dir {
        ProjectsDir::Missing => {
            out.push("ISSUE: projects/ directory does not exist".to_owned());
            proof {
                assert(text::texts(out@) =~= seq!["ISSUE: projects/ directory does not exist"@]);
            }
        },
        ProjectsDir::Unreadable(e) => {
            let mut m = "ISSUE: cannot read projects/ dir: ".to_owned();
            m.append(e.as_str());
            out.push(m);
            proof {
                assert(text::texts(out@) =~= seq!["ISSUE: cannot read projects/ dir: "@ + e@]);
            }
        },
        ProjectsDir::Entries(v) => {
            let mut i: usize = 0;
            proof {
                assert(v@.take(0) =~= Seq::<ProjectEntry>::empty());
                assert(text::texts(out@) =~= Seq::<Seq<char>>::empty());
            }
            while i < v.len()
                invariant
                    i <= v@.len(),
                    text::texts(out@) == orphan_notes(v@.take(i as int)),
                decreases v.len() - i,
            {
                proof {
                    assert(v@.take(i + 1).drop_last() =~= v@.take(i as int));
                    assert(v@.take(i + 1).last() == v@[i as int]);
                }
                let e = &v[i];
                if e.is_dir && !str_eq(e.name.as_str(), "_archive") && !e.has_context {
                    let mut m = "ORPHAN: projects/".to_owned();
                    m.append(e.name.as_str());
                    m.append(" missing context.md");
                    proof {
                        text::lemma_texts_push(out@, m);
                    }
                    out.push(m);
                }
                i += 1;
            }
            proof {
                assert(v@.take(v@.len() as int) =~= v@);
            }
        },
    }
    out
}

// ── The audit ────────────────────────────────────────────────────────────────
/// How old the latest audit may be, in seconds.
pub const FRESH_WINDOW_SECS: u64 = 172_800;

/// A file of the directory of the audits, with its time of modification where
/// that could be told.
#[derive(Debug, Clone)]
pub struct AuditFile {
    pub name: String,
    pub modified: Option<u64>,
}

pub open spec fn is_audit(f: AuditFile) -> bool {
    text::starts_with(f.name@, "consolidation-audit-"@) && text::ends_with(f.name@, ".md"@)
        && f.modified is Some
}

/// Whether an audit was written within the window.
pub open spec fn is_fresh(files: Seq<AuditFile>, now: u64) -> bool {
    exists|i: int|
        0 <= i < files.len() && is_audit(#[trigger] files[i]) && now - files[i].modified->0
            <= FRESH_WINDOW_SECS
}

/// Whether the latest audit is fresh; there are no files where there is no
/// directory.
pub fn check_audit_freshness(files: &Vec<AuditFile>, now: u64) -> (r: Result<String, String>)
    ensures
        match r {
            Ok(m) => is_fresh(files@, now) && m@ == "OK: LLM consolidation audit is fresh"@,
            Err(m) => !is_fresh(files@, now) && m@
                == "LLM consolidation stale — run hex memory consolidate full"@,
        },
{
    let mut newest: Option<u64> = None;
    let mut i: usize = 0;
    while i < files.len()
        invariant
            i <= files@.len(),
            match newest {
                None => forall|k: int| 0 <= k < i ==> !is_audit(#[trigger] files@[k]),
                Some(m) => {
                    &&& forall|k: int|
                        0 <= k < i && is_audit(#[trigger] files@[k]) ==> files@[k].modified->0 <= m
                    &&& exists|k: int|
                        0 <= k < i && is_audit(#[trigger] files@[k]) && files@[k].modified
                            == Some(m)
                },
            },
        decreases files.len() - i,
    {
        let f = &files[i];
        if text::starts_with_str(f.name.as_str(), "consolidation-audit-") && text::ends_with_str(
            f.name.as_str(),
            ".md",
        ) {
            if let Some(t) = f.modified {
                proof {
                    assert(is_audit(files@[i as int]));
                }
                match newest {
                    Some(m) => {
                        if t >= m {
                            newest = Some(t);
                        }
                    },
                    None => {
                        newest = Some(t);
                    },
                }
            }
        }
        i += 1;
    }
    let fresh = match newest {
        None => false,
        Some(m) => m >= now || now - m <= FRESH_WINDOW_SECS,
    };
    if fresh {
        Ok("OK: LLM consolidation audit is fresh".to_owned())
    } else {
        Err("LLM consolidation stale — run hex memory consolidate full".to_owned())
    }
}

// ── The report ───────────────────────────────────────────────────────────────
/// What the consolidation found.
#[derive(Debug)]
pub struct Findings {
    /// Whether the index was rebuilt.
    pub indexed: bool,
    /// The links that lead nowhere.
    pub stale_refs: Vec<String>,
    /// Whether the three files of the evolution are there: the observations,
    /// the suggestions and the log of changes.
    pub observations: bool,
    pub suggestions: bool,
    pub changelog: bool,
    /// What is wrong with the projects.
    pub projects: Vec<String>,
    pub audit: Result<String, String>,
}

/// One line of the report, and whether it is an issue.
pub struct LineText {
    pub line: Seq<char>,
    pub issue: bool,
}

pub open spec fn fine(line: Seq<char>) -> LineText {
    LineText { line, issue: false }
}

pub open spec fn wrong(line: Seq<char>) -> LineText {
    LineText { line, issue: true }
}

pub open spec fn index_line(indexed: bool) -> LineText {
    if indexed {
        fine("OK: memory index rebuilt"@)
    } else {
        fine("memory reindex: skipped (no native entry point)"@)
    }
}

pub open spec fn stale_lines(refs: Seq<Seq<char>>) -> Seq<LineText> {
    if refs.len() == 0 {
        seq![fine("OK: no stale file references found"@)]
    } else {
        refs.map_values(|r: Seq<char>| wrong("STALE: "@ + r))
    }
}

pub open spec fn evolution_line(file: Seq<char>, there: bool) -> LineText {
    if there {
        fine("OK: evolution/"@ + file + " exists"@)
    } else {
        wrong("ISSUE: missing evolution/"@ + file)
    }
}

pub open spec fn audit_line(audit: Result<String, String>) -> LineText {
    match audit {
        Ok(m) => fine(m@),
        Err(m) => wrong(m@),
    }
}

pub open spec fn all_wrong(v: Seq<Seq<char>>) -> Seq<LineText> {
    v.map_values(|p: Seq<char>| wrong(p))
}

pub open spec fn report_lines(f: Findings) -> Seq<LineText> {
    seq![index_line(f.indexed)] + stale_lines(text::texts(f.stale_refs@)) + seq![
        evolution_line("observations.md"@, f.observations),
        evolution_line("suggestions.md"@, f.suggestions),
        evolution_line("changelog.md"@, f.changelog),
    ] + all_wrong(text::texts(f.projects@)) + seq![audit_line(f.audit)]
}

/// The number of issues in lines.
pub open spec fn issue_count(v: Seq<LineText>) -> nat
    decreases v.len(),
{
    if v.len() == 0 {
        0
    } else {
        issue_count(v.drop_last()) + if v.last().issue {
            1nat
        } else {
            0
        }
    }
}

pub open spec fn line_texts(v: Seq<LineText>) -> Seq<Seq<char>> {
    v.map_values(|l: LineText| l.line)
}

/// The report: its text and the exit code.
pub open spec fn report_text(f: Findings, now: Seq<char>) -> Seq<char> {
    let v = report_lines(f);
    text::join(
        seq!["=== Consolidation Report — "@ + now + " ==="@] + line_texts(v) + seq![
            Seq::empty(),
            "Issues found: "@ + text::numeral(issue_count(v)),
        ],
        "\n"@,
    )
}

#[derive(Debug, Clone)]
pub struct ConsolidationReport {
    pub text: String,
    pub issues: usize,
    pub exit_code: i32,
}

struct Lines {
    lines: Vec<String>,
    issues: usize,
}

impl Lines {
    /// Whether it holds the header and these lines.
    closed spec fn holds(self, header: Seq<char>, v: Seq<LineText>) -> bool {
        &&& text::texts(self.lines@) == seq![header] + line_texts(v)
        &&& self.issues == issue_count(v)
        &&& self.issues <= v.len()
    }

    fn push(
        &mut self,
        line: String,
        issue: bool,
        Ghost(header): Ghost<Seq<char>>,
        Ghost(v): Ghost<Seq<LineText>>,
    )
        requires
            old(self).holds(header, v),
        ensures
            final(self).holds(header, v.push(LineText { line: line@, issue })),
    {
        let held: usize = self.lines.len();
        let ghost next = v.push(LineText { line: line@, issue });
        proof {
            text::lemma_texts_push(self.lines@, line);
            assert(next.drop_last() =~= v);
            assert(text::texts(self.lines@).len() == held);
            assert((seq![header] + line_texts(v)).len() == 1 + v.len());
        }
        if issue {
            self.issues = self.issues + 1;
        }
        self.lines.push(line);
        proof {
            assert(text::texts(self.lines@) =~= seq![header] + line_texts(next));
        }
    }

    fn push_stale(
        &mut self,
        refs: &Vec<String>,
        Ghost(header): Ghost<Seq<char>>,
        Ghost(v): Ghost<Seq<LineText>>,
    )
        requires
            old(self).holds(header, v),
        ensures
            final(self).holds(header, v + stale_lines(text::texts(refs@))),
    {
        let ghost texts = text::texts(refs@);
        let ghost all = stale_lines(texts);
        if refs.len() == 0 {
            self.push(
                "OK: no stale file references found".to_owned(),
                false,
                Ghost(header),
                Ghost(v),
            );
            proof {
                assert(v.push(fine("OK: no stale file references found"@)) =~= v + all);
            }
            return;
        }
        let mut i: usize = 0;
        proof {
            assert(texts.len() == refs@.len());
            assert(v =~= v + all.take(0));
        }
        while i < refs.len()
            invariant
                i <= refs@.len(),
                texts == text::texts(refs@),
                texts.len() > 0,
                all == stale_lines(texts),
                self.holds(header, v + all.take(i as int)),
            decreases refs.len() - i,
        {
            let mut m = "STALE: ".to_owned();
            m.append(refs[i].as_str());
            let ghost line = wrong(m@);
            self.push(m, true, Ghost(header), Ghost(v + all.take(i as int)));
            proof {
                assert((v + all.take(i as int)).push(line) =~= v + all.take(i + 1));
            }
            i += 1;
        }
        proof {
            assert(all.take(all.len() as int) =~= all);
        }
    }

    fn push_issues(
        &mut self,
        issues: &Vec<String>,
        Ghost(header): Ghost<Seq<char>>,
        Ghost(v): Ghost<Seq<LineText>>,
    )
        requires
            old(self).holds(header, v),
        ensures
            final(self).holds(header, v + all_wrong(text::texts(issues@))),
    {
        let ghost all = all_wrong(text::texts(issues@));
        let mut i: usize = 0;
        proof {
            assert(v =~= v + all.take(0));
        }
        while i < issues.len()
            invariant
                i <= issues@.len(),
                all == all_wrong(text::texts(issues@)),
                self.holds(header, v + all.take(i as int)),
            decreases issues.len() - i,
        {
            let m = issues[i].as_str().to_owned();
            let ghost line = wrong(m@);
            self.push(m, true, Ghost(header), Ghost(v + all.take(i as int)));
            proof {
                assert((v + all.take(i as int)).push(line) =~= v + all.take(i + 1));
            }
            i += 1;
        }
        proof {
            assert(all.take(all.len() as int) =~= all);
        }
    }

    fn push_file(
        &mut self,
        file: &str,
        there: bool,
        Ghost(header): Ghost<Seq<char>>,
        Ghost(v): Ghost<Seq<LineText>>,
    )
        requires
            old(self).holds(header, v),
        ensures
            final(self).holds(header, v.push(evolution_line(file@, there))),
    {
        self.push(evolution(file, there), !there, Ghost(header), Ghost(v));
    }
}

fn evolution(file: &str, there: bool) -> (r: String)
    ensures
        r@ == evolution_line(file@, there).line,
{
    if there {
        let mut r = "OK: evolution/".to_owned();
        r.append(file);
        r.append(" exists");
        r
    } else {
        let mut r = "ISSUE: missing evolution/".to_owned();
        r.append(file);
        r
    }
}

/// The report on what the consolidation found.
pub fn report(f: &Findings, now: &str) -> (r: ConsolidationReport)
    ensures
        r.text@ == report_text(*f, now@),
        r.issues == issue_count(report_lines(*f)),
        r.exit_code == if r.issues == 0 {
            0int
        } else {
            1
        },
{
    let mut header = "=== Consolidation Report — ".to_owned();
    header.append(now);
    header.append(" ===");
    let ghost h = header@;
    let mut first: Vec<String> = Vec::new();
    first.push(header);
    let mut l = Lines { lines: first, issues: 0 };
    let ghost mut v: Seq<LineText> = Seq::empty();
    proof {
        assert(text::texts(l.lines@) =~= seq![h] + line_texts(v));
    }
    let index = if f.indexed {
        "OK: memory index rebuilt".to_owned()
    } else {
        "memory reindex: skipped (no native entry point)".to_owned()
    };
    l.push(index, false, Ghost(h), Ghost(v));
    proof {
        v = v.push(index_line(f.indexed));
    }
    l.push_stale(&f.stale_refs, Ghost(h), Ghost(v));
    proof {
        v = v + stale_lines(text::texts(f.stale_refs@));
    }
    l.push_file("observations.md", f.observations, Ghost(h), Ghost(v));
    proof {
        v = v.push(evolution_line("observations.md"@, f.observations));
    }
    l.push_file("suggestions.md", f.suggestions, Ghost(h), Ghost(v));
    proof {
        v = v.push(evolution_line("suggestions.md"@, f.suggestions));
    }
    l.push_file("changelog.md", f.changelog, Ghost(h), Ghost(v));
    proof {
        v = v.push(evolution_line("changelog.md"@, f.changelog));
    }
    l.push_issues(&f.projects, Ghost(h), Ghost(v));
    proof {
        v = v + all_wrong(text::texts(f.projects@));
    }
    match &f.audit {
        Ok(m) => {
            l.push(m.as_str().to_owned(), false, Ghost(h), Ghost(v));
        },
        Err(m) => {
            l.push(m.as_str().to_owned(), true, Ghost(h), Ghost(v));
        },
    }
    proof {
        v = v.push(audit_line(f.audit));
        assert(v =~= report_lines(*f));
    }
    let issues: usize = l.issues;
    let mut lines = l.lines;
    let ghost body = text::texts(lines@);
    let blank = String::new();
    proof {
        assert(blank@ =~= Seq::<char>::empty());
        text::lemma_texts_push(lines@, blank);
    }
    lines.push(blank);
    let mut last = "Issues found: ".to_owned();
    let n = text::decimal(issues as u64);
    last.append(n.as_str());
    proof {
        text::lemma_texts_push(lines@, last);
    }
    lines.push(last);
    proof {
        assert(text::texts(lines@) =~= body + seq![
            Seq::empty(),
            "Issues found: "@ + text::numeral(issue_count(v)),
        ]);
    }
    let all = text::join_strings(&lines, "\n");
    ConsolidationReport {
        text: all,
        issues,
        exit_code: if issues == 0 {
            0
        } else {
            1
        },
    }
}

// ── Laws ─────────────────────────────────────────────────────────────────────
/// A resolved path has no `.` and no `..` left, and no more components than the
/// path that it came from.
pub proof fn law_resolved_path_is_plain(c: Seq<Seq<char>>, n: int)
    requires
        0 <= n <= c.len(),
    ensures
        !resolved(c, n).contains("."@),
        !resolved(c, n).contains(".."@),
        resolved(c, n).len() <= n,
    decreases n,
{
    if n > 0 {
        law_resolved_path_is_plain(c, n - 1);
        let front = resolved(c, n - 1);
        let all = resolved(c, n);
        assert forall|i: int| 0 <= i < all.len() implies #[trigger] all[i] != "."@ && all[i]
            != ".."@ by {
            if i < front.len() {
                assert(all[i] == front[i]);
                assert(front.contains(front[i]));
            }
        }
    }
}

/// A link in a text is found: where nothing before it is a link, it is the first, and
/// the others are those of the rest.
pub proof fn law_a_link_is_found(before: Seq<char>, path: Seq<char>, rest: Seq<char>)
    requires
        forall|i: int|
            0 < i < before.len() ==> !(#[trigger] before[i] == '(' && before[i - 1] == ']'),
        path.len() > 0,
        forall|i: int|
            0 <= i < path.len() ==> #[trigger] path[i] != '(' && path[i] != ')' && path[i] != '#',
        text::trim(path) == path,
        is_relative_link(path),
    ensures
        links_from(before + seq![']', '('] + path + seq![')'] + rest, 0) == seq![path] + links_from(
            before + seq![']', '('] + path + seq![')'] + rest,
            (before.len() + 3 + path.len()) as int,
        ),
{
    let s = before + seq![']', '('] + path + seq![')'] + rest;
    let at = before.len() as int + 1;
    assert forall|i: int| 0 < i < at implies !(#[trigger] s[i] == '(' && s[i - 1] == ']') by {
        if i < before.len() {
            assert(s[i] == before[i] && s[i - 1] == before[i - 1]);
        }
    }
    lemma_no_link_before(s, 0, at);
    let end = at + 1 + path.len();
    assert forall|i: int| at + 1 <= i < end implies #[trigger] s[i] != '(' && s[i] != ')' by {
        assert(s[i] == path[i - at - 1]);
    }
    lemma_closing_plain(s, at + 1, end);
    assert(s.subrange(at + 1, end) =~= path);
    let cut = text::is_char('#');
    assert forall|i: int| 0 <= i < path.len() implies !cut(#[trigger] path[i]) by {}
    text::lemma_split_whole(path, cut);
    assert(link_path(path) == path);
    assert(s[at] == '(' && s[at - 1] == ']');
}

proof fn lemma_no_link_before(s: Seq<char>, i: int, n: int)
    requires
        0 <= i <= n <= s.len(),
        forall|k: int| 0 < k < n ==> !(#[trigger] s[k] == '(' && s[k - 1] == ']'),
    ensures
        links_from(s, i) == links_from(s, n),
    decreases n - i,
{
    if i < n {
        lemma_no_link_before(s, i + 1, n);
    }
}

proof fn lemma_closing_plain(s: Seq<char>, i: int, end: int)
    requires
        0 <= i <= end < s.len(),
        s[end] == ')',
        forall|k: int| i <= k < end ==> #[trigger] s[k] != '(' && s[k] != ')',
    ensures
        closing(s, i, 1) == end,
    decreases end - i,
{
    if i < end {
        lemma_closing_plain(s, i + 1, end);
    }
}

/// A document or script of this workspace is a relative link; an address, an anchor and
/// anything with white space in it is none.
pub proof fn law_relative_links(p: Seq<char>)
    ensures
        text::starts_with(p, "http://"@) || text::starts_with(p, "https://"@) || text::starts_with(
            p,
            "mailto:"@,
        ) || text::starts_with(p, "#"@) ==> !is_relative_link(p),
        (exists|i: int| 0 <= i < p.len() && text::is_space(#[trigger] p[i])) ==> !is_relative_link(p),
        !text::ends_with(p, ".md"@) && !text::ends_with(p, ".yaml"@) && !text::ends_with(p, ".sh"@)
            && !text::ends_with(p, ".py"@) && !text::ends_with(p, ".rs"@) ==> !is_relative_link(p),
        p.len() > 0 && (forall|i: int| 0 <= i < p.len() ==> !text::is_space(#[trigger] p[i]))
            && !text::starts_with(p, "http"@) && !text::starts_with(p, "#"@) && !text::starts_with(
            p,
            "mailto:"@,
        ) && (text::ends_with(p, ".md"@) || text::ends_with(p, ".yaml"@) || text::ends_with(
            p,
            ".sh"@,
        ) || text::ends_with(p, ".py"@) || text::ends_with(p, ".rs"@)) ==> is_relative_link(p),
{
    reveal_strlit("http");
    reveal_strlit("http://");
    reveal_strlit("https://");
    if text::starts_with(p, "http://"@) {
        assert(p.subrange(0, 4) =~= p.subrange(0, 7).subrange(0, 4));
        assert("http://"@.subrange(0, 4) =~= "http"@);
    }
    if text::starts_with(p, "https://"@) {
        assert(p.subrange(0, 4) =~= p.subrange(0, 8).subrange(0, 4));
        assert("https://"@.subrange(0, 4) =~= "http"@);
    }
}

/// A step down and one up cancel each other, and a step to the same place is none; a
/// step up at the start stays there.
pub proof fn law_steps_cancel(c: Seq<Seq<char>>, x: Seq<char>)
    requires
        x != "."@,
        x != ".."@,
    ensures
        resolved(c.push(x).push(".."@), (c.len() + 2) as int) == resolved(c, c.len() as int),
        resolved(c.push("."@), (c.len() + 1) as int) == resolved(c, c.len() as int),
        resolved(c.push(x), (c.len() + 1) as int) == resolved(c, c.len() as int).push(x),
        resolved(seq![".."@], 1).len() == 0,
{
    let n = c.len() as int;
    reveal_strlit(".");
    reveal_strlit("..");
    assert("."@.len() == 1 && ".."@.len() == 2);
    let down = c.push(x);
    let up = down.push(".."@);
    lemma_resolved_front(c, x, n);
    lemma_resolved_front(down, ".."@, n + 1);
    lemma_resolved_front(c, "."@, n);
    assert(up[n + 1] == ".."@ && down[n] == x);
    assert(resolved(down, n + 1) == resolved(c, n).push(x));
    assert(resolved(up, n + 2) == resolved(down, n + 1).drop_last());
    assert(resolved(c, n).push(x).drop_last() =~= resolved(c, n));
    assert(resolved(seq![".."@], 0).len() == 0);
}

proof fn lemma_resolved_front(c: Seq<Seq<char>>, x: Seq<char>, n: int)
    requires
        0 <= n <= c.len(),
    ensures
        resolved(c.push(x), n) == resolved(c, n),
    decreases n,
{
    if n > 0 {
        lemma_resolved_front(c, x, n - 1);
    }
}

/// There is a note for each link that leads nowhere, in order, and for no other.
pub proof fn law_stale_notes(links: Seq<Link>, there: Seq<bool>, n: int)
    requires
        0 <= n <= links.len(),
        there.len() == links.len(),
    ensures
        forall|i: int|
            0 <= i < n && !(#[trigger] there[i]) ==> stale_notes(links, there, n).contains(
                links[i].note@,
            ),
        forall|k: int|
            0 <= k < stale_notes(links, there, n).len() ==> is_note_of(
                #[trigger] stale_notes(links, there, n)[k],
                links,
                there,
                n,
            ),
        (forall|i: int| 0 <= i < n ==> #[trigger] there[i]) ==> stale_notes(links, there, n).len()
            == 0,
        (forall|i: int| 0 <= i < n ==> !(#[trigger] there[i])) ==> stale_notes(
            links,
            there,
            n,
        ).len() == n,
    decreases n,
{
    if n > 0 {
        law_stale_notes(links, there, n - 1);
        let front = stale_notes(links, there, n - 1);
        let all = stale_notes(links, there, n);
        assert forall|i: int| 0 <= i < n && !(#[trigger] there[i]) implies all.contains(
            links[i].note@,
        ) by {
            if i < n - 1 {
                let k = choose|k: int| 0 <= k < front.len() && front[k] == links[i].note@;
                assert(all[k] == links[i].note@);
            } else {
                assert(all[front.len() as int] == links[i].note@);
            }
        }
        assert forall|k: int| 0 <= k < all.len() implies is_note_of(
            #[trigger] all[k],
            links,
            there,
            n,
        ) by {
            if k < front.len() {
                assert(is_note_of(front[k], links, there, n - 1));
            } else {
                assert(!there[n - 1] && links[n - 1].note@ == all[k]);
            }
        }
        if forall|i: int| 0 <= i < n ==> #[trigger] there[i] {
            assert(there[n - 1]);
        }
        if forall|i: int| 0 <= i < n ==> !(#[trigger] there[i]) {
            assert(!there[n - 1]);
        }
    }
}

/// Whether a note is that of a link that leads nowhere.
pub open spec fn is_note_of(note: Seq<char>, links: Seq<Link>, there: Seq<bool>, n: int) -> bool {
    exists|i: int| 0 <= i < n && !(#[trigger] there[i]) && links[i].note@ == note
}

/// A project is an orphan if it is a directory without a context, the archive aside; the
/// notes are those of the orphans, in order.
pub proof fn law_orphans(v: Seq<ProjectEntry>)
    ensures
        orphan_notes(v) == v.filter(
            |e: ProjectEntry| e.is_dir && !e.has_context && e.name@ != "_archive"@,
        ).map_values(
            |e: ProjectEntry| "ORPHAN: projects/"@ + e.name@ + " missing context.md"@,
        ),
    decreases v.len(),
{
    reveal(Seq::filter);
    let keep = |e: ProjectEntry| e.is_dir && !e.has_context && e.name@ != "_archive"@;
    let f = |e: ProjectEntry| "ORPHAN: projects/"@ + e.name@ + " missing context.md"@;
    if v.len() > 0 {
        law_orphans(v.drop_last());
        let front = v.drop_last().filter(keep);
        assert(front.push(v.last()).map_values(f) =~= front.map_values(f).push(f(v.last())));
    } else {
        assert(v.filter(keep).map_values(f) =~= Seq::<Seq<char>>::empty());
    }
}

/// The audit is fresh if and only if one of its files was written in the last two days.
pub proof fn law_fresh_audit(files: Seq<AuditFile>, now: u64)
    ensures
        is_fresh(files, now) == exists|i: int|
            0 <= i < files.len() && (#[trigger] files[i]).modified is Some && text::starts_with(
                files[i].name@,
                "consolidation-audit-"@,
            ) && text::ends_with(files[i].name@, ".md"@) && now - files[i].modified->0 <= 172_800,
{
}

proof fn lemma_issue_count_add(a: Seq<LineText>, b: Seq<LineText>)
    ensures
        issue_count(a + b) == issue_count(a) + issue_count(b),
    decreases b.len(),
{
    if b.len() == 0 {
        assert(a + b =~= a);
    } else {
        lemma_issue_count_add(a, b.drop_last());
        assert((a + b).drop_last() =~= a + b.drop_last());
    }
}

proof fn lemma_one_line(l: LineText)
    ensures
        issue_count(seq![l]) == if l.issue {
            1nat
        } else {
            0
        },
{
    assert(seq![l].drop_last() =~= Seq::<LineText>::empty());
    assert(issue_count(Seq::<LineText>::empty()) == 0);
}

proof fn lemma_all_wrong(v: Seq<LineText>)
    requires
        forall|i: int| 0 <= i < v.len() ==> (#[trigger] v[i]).issue,
    ensures
        issue_count(v) == v.len(),
    decreases v.len(),
{
    if v.len() > 0 {
        let front = v.drop_last();
        assert forall|i: int| 0 <= i < front.len() implies (#[trigger] front[i]).issue by {
            assert(v[i].issue);
        }
        lemma_all_wrong(front);
        assert(v[v.len() - 1].issue);
    }
}

/// The issues are the stale references, the files of the evolution that are missing, what
/// is wrong with the projects, and a stale audit; a workspace without any of these has
/// none.
pub proof fn law_issues_add_up(f: Findings)
    ensures
        issue_count(report_lines(f)) == f.stale_refs@.len() + f.projects@.len() + (if f.observations {
            0int
        } else {
            1
        }) + (if f.suggestions {
            0int
        } else {
            1
        }) + (if f.changelog {
            0int
        } else {
            1
        }) + (if f.audit is Ok {
            0int
        } else {
            1
        }),
{
    let refs = text::texts(f.stale_refs@);
    let projects = text::texts(f.projects@);
    let a = seq![index_line(f.indexed)];
    let b = stale_lines(refs);
    let c = seq![
        evolution_line("observations.md"@, f.observations),
        evolution_line("suggestions.md"@, f.suggestions),
        evolution_line("changelog.md"@, f.changelog),
    ];
    let d = all_wrong(projects);
    let e = seq![audit_line(f.audit)];
    lemma_issue_count_add(a + b + c + d, e);
    lemma_issue_count_add(a + b + c, d);
    lemma_issue_count_add(a + b, c);
    lemma_issue_count_add(a, b);
    lemma_one_line(index_line(f.indexed));
    lemma_one_line(audit_line(f.audit));
    lemma_one_line(c[0]);
    lemma_one_line(c[1]);
    lemma_one_line(c[2]);
    lemma_issue_count_add(seq![c[0]], seq![c[1]]);
    lemma_issue_count_add(seq![c[0]] + seq![c[1]], seq![c[2]]);
    assert(c =~= seq![c[0]] + seq![c[1]] + seq![c[2]]);
    if refs.len() > 0 {
        lemma_all_wrong(b);
    } else {
        lemma_one_line(b[0]);
        assert(b =~= seq![b[0]]);
    }
    lemma_all_wrong(d);
}

/// A report has a line for the index, one for each stale reference or one that there is
/// none, one for each of the three files of evolution, one for each thing wrong with the
/// projects and one for the audit; an issue is what is stale, missing or wrong.
pub proof fn law_report_lines(f: Findings, k: int)
    ensures
        ({
            let v = report_lines(f);
            let n = if f.stale_refs@.len() == 0 {
                1
            } else {
                f.stale_refs@.len() as int
            };
            &&& v.len() == n + f.projects@.len() + 5
            &&& !v[0].issue && v[0].line == if f.indexed {
                "OK: memory index rebuilt"@
            } else {
                "memory reindex: skipped (no native entry point)"@
            }
            &&& f.stale_refs@.len() == 0 ==> !v[1].issue && v[1].line
                == "OK: no stale file references found"@
            &&& 0 <= k < f.stale_refs@.len() ==> v[1 + k].issue && v[1 + k].line == "STALE: "@
                + f.stale_refs@[k]@
            &&& v[n + 1].issue == !f.observations
            &&& v[n + 2].issue == !f.suggestions
            &&& v[n + 3].issue == !f.changelog
            &&& !f.observations ==> v[n + 1].line == "ISSUE: missing evolution/"@
                + "observations.md"@
            &&& !f.suggestions ==> v[n + 2].line == "ISSUE: missing evolution/"@
                + "suggestions.md"@
            &&& !f.changelog ==> v[n + 3].line == "ISSUE: missing evolution/"@ + "changelog.md"@
            &&& f.observations ==> v[n + 1].line == "OK: evolution/"@ + "observations.md"@
                + " exists"@
            &&& 0 <= k < f.projects@.len() ==> v[n + 4 + k].issue && v[n + 4 + k].line
                == f.projects@[k]@
            &&& v.last().issue == (f.audit is Err)
            &&& v.last().line == match f.audit {
                Ok(m) => m@,
                Err(m) => m@,
            }
        }),
{
    let r = text::texts(f.stale_refs@);
    let p = text::texts(f.projects@);
    if 0 <= k < f.stale_refs@.len() {
        assert(r[k] == f.stale_refs@[k]@);
    }
    if 0 <= k < f.projects@.len() {
        assert(p[k] == f.projects@[k]@);
    }
    assert(stale_lines(r).len() == if r.len() == 0 {
        1
    } else {
        r.len() as int
    });
}

/// A report opens with its time, and closes with an empty line and the number of its
/// issues.
pub proof fn law_report_text(f: Findings, now: Seq<char>)
    ensures
        text::starts_with(report_text(f, now), "=== Consolidation Report — "@ + now + " ==="@),
        text::ends_with(
            report_text(f, now),
            "Issues found: "@ + text::numeral(issue_count(report_lines(f))),
        ),
{
    let v = report_lines(f);
    let head = "=== Consolidation Report — "@ + now + " ==="@;
    let tail = "Issues found: "@ + text::numeral(issue_count(v));
    let parts = seq![head] + line_texts(v) + seq![Seq::empty(), tail];
    lemma_join_ends(parts, "\n"@);
    let s = report_text(f, now);
    assert(s.subrange(0, head.len() as int) =~= head);
    assert(s.subrange(s.len() - tail.len(), s.len() as int) =~= tail);
}

proof fn lemma_join_ends(parts: Seq<Seq<char>>, sep: Seq<char>)
    requires
        parts.len() > 0,
    ensures
        ({
            let s = text::join(parts, sep);
            &&& s.len() >= parts[0].len() && s.take(parts[0].len() as int) == parts[0]
            &&& s.len() >= parts.last().len() && s.skip(s.len() - parts.last().len())
                == parts.last()
        }),
    decreases parts.len(),
{
    let s = text::join(parts, sep);
    if parts.len() == 1 {
        assert(s.take(parts[0].len() as int) =~= parts[0]);
        assert(s.skip(s.len() - parts.last().len()) =~= parts.last());
    } else {
        let front = parts.drop_last();
        lemma_join_ends(front, sep);
        let t = text::join(front, sep);
        assert(s.take(parts[0].len() as int) =~= t.take(parts[0].len() as int));
        assert(s.skip(s.len() - parts.last().len()) =~= parts.last());
    }
}

/// Where a link leads does not depend on steps that cancel out: a name that is left again
/// and a step that stays count for nothing, and plain names are put together in order.
pub proof fn law_normal_paths(p: Seq<char>, q: Seq<char>, x: Seq<char>, y: Seq<char>)
    requires
        x != "."@,
        x != ".."@,
        y != "."@,
        y != ".."@,
    ensures
        components(p) == components(q).push(x).push(".."@) ==> normal(p) == normal(q),
        components(p) == components(q).push("."@) ==> normal(p) == normal(q),
        components(p) == components(q).push(x) ==> normal(p) == paths::joined(normal(q), x),
        components(p) == seq![x] ==> normal(p) == x,
        components(p) == seq![x, y] ==> normal(p) == paths::joined(x, y),
{
    let c = components(q);
    law_steps_cancel(c, x);
    let r = resolved(c, c.len() as int);
    if components(p) == c.push(x) {
        let s = r.push(x);
        lemma_assembled_front(s, r, r.len() as int);
    }
    let none = Seq::<Seq<char>>::empty();
    law_steps_cancel(none, x);
    law_steps_cancel(seq![x], y);
    assert(none.push(x) =~= seq![x]);
    assert(seq![x].push(y) =~= seq![x, y]);
    assert(resolved(none, 0) =~= none);
    assert(resolved(seq![x], 1) =~= seq![x]);
    assert(resolved(seq![x, y], 2) =~= seq![x, y]);
    reveal_with_fuel(assembled, 3);
}

proof fn lemma_assembled_front(a: Seq<Seq<char>>, b: Seq<Seq<char>>, n: int)
    requires
        n <= a.len(),
        n <= b.len(),
        forall|i: int| 0 <= i < n ==> a[i] == b[i],
    ensures
        assembled(a, n) == assembled(b, n),
    decreases n,
{
    if n > 0 {
        lemma_assembled_front(a, b, n - 1);
    }
}

/// A link is looked for from the directory of its document, and from the workspace where
/// the document has none; a note on a broken one names the document and the link.
pub proof fn law_link_target(file: Seq<char>, hex_dir: Seq<char>, link: Seq<char>)
    ensures
        paths::parent_of(file) is Some ==> target(file, hex_dir, link) == normal(
            paths::joined(paths::parent_of(file)->0, link),
        ),
        paths::parent_of(file) is None ==> target(file, hex_dir, link) == normal(
            paths::joined(hex_dir, link),
        ),
        text::starts_with(broken_note(file, link), file),
        text::contains(broken_note(file, link), "'"@ + link + "'"@),
{
    let s = broken_note(file, link);
    let q = "'"@ + link + "'"@;
    reveal_strlit(": broken link to '");
    reveal_strlit("'");
    assert(s.subrange(0, file.len() as int) =~= file);
    let i = (file.len() + 17) as int;
    assert(": broken link to '"@.len() == 18 && ": broken link to '"@[17] == '\'');
    assert(s.subrange(i, i + q.len()) =~= q);
    assert(text::occurs_at(s, q, i));
}

} // verus!
