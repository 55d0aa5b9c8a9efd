//! Whether a configured directory takes part in discovery: it is reached
//! component by component, and a link on the way leaves it out.
use crate::doctor::consolidate;
use crate::paths;
use crate::text;
use vstd::prelude::*;

verus! {

/// What stands at a path, links not followed.
#[derive(Debug, Clone, Copy, PartialEq, Eq, Structural)]
pub enum NodeKind {
    Missing,
    Symlink,
    Directory,
    Other,
}

/// What comes next: a look at a path, or where the directory lies, nothing
/// where it takes no part.
#[derive(Debug)]
pub enum RootMove {
    Look(String),
    Settled(Result<Option<String>, String>),
}

pub enum RootMoveText {
    Look(Seq<char>),
    There(Seq<char>),
    Absent,
    Failed(Seq<char>),
}

impl View for RootMove {
    type V = RootMoveText;

    open spec fn view(&self) -> RootMoveText {
        match self {
            RootMove::Look(p) => RootMoveText::Look(p@),
            RootMove::Settled(r) => match r {
                Ok(Some(p)) => RootMoveText::There(p@),
                Ok(None) => RootMoveText::Absent,
                Err(e) => RootMoveText::Failed(e@),
            },
        }
    }
}

/// A walk on its way: the path that it has come to, and the component behind
/// it.
#[derive(Debug)]
pub struct RootWalk {
    relative: String,
    parts: Vec<String>,
    current: String,
    next: usize,
}

pub struct WalkText {
    pub relative: Seq<char>,
    pub parts: Seq<Seq<char>>,
    pub current: Seq<char>,
    pub next: int,
}

impl View for RootWalk {
    type V = WalkText;

    closed spec fn view(&self) -> WalkText {
        WalkText {
            relative: self.relative@,
            parts: text::texts(self.parts@),
            current: self.current@,
            next: self.next as int,
        }
    }
}

impl WalkText {
    pub open spec fn wf(self) -> bool {
        0 <= self.next <= self.parts.len()
    }
}

// ── What a walk does ─────────────────────────────────────────────────────────
/// Whether a component is none that a walk may take: it leads up, to the root,
/// or nowhere.
pub open spec fn refused(part: Seq<char>, i: int) -> bool {
    part == ".."@ || part == "/"@ || part == "."@ && i == 0
}

/// The next component that is not `.`, from number `i` on.
pub open spec fn next_part(parts: Seq<Seq<char>>, i: int) -> int
    decreases parts.len() - i,
{
    if 0 <= i < parts.len() && parts[i] == "."@ && i > 0 {
        next_part(parts, i + 1)
    } else {
        i
    }
}

/// The step to the next component.
pub open spec fn onward(w: WalkText) -> (WalkText, RootMoveText) {
    let i = next_part(w.parts, w.next);
    if i >= w.parts.len() {
        (WalkText { next: i, ..w }, RootMoveText::There(w.current))
    } else if refused(w.parts[i], i) {
        (
            WalkText { next: i, ..w },
            RootMoveText::Failed("invalid configured memory source root: "@ + w.relative),
        )
    } else {
        let p = paths::joined(w.current, w.parts[i]);
        (WalkText { next: i + 1, current: p, ..w }, RootMoveText::Look(p))
    }
}

/// The first step, with whether the workspace is a directory. The workspace
/// itself may be reached over a link.
pub open spec fn beginning(
    hex_root: Seq<char>,
    relative: Seq<char>,
    is_dir: Result<bool, String>,
) -> (WalkText, RootMoveText) {
    let w = WalkText {
        relative,
        parts: consolidate::components(relative),
        current: hex_root,
        next: 0,
    };
    match is_dir {
        Err(e) => (w, RootMoveText::Failed(e@)),
        Ok(b) => if !b {
            (w, RootMoveText::Failed("memory source root is not a directory: "@ + hex_root))
        } else if relative == "."@ {
            (w, RootMoveText::There(hex_root))
        } else {
            onward(w)
        },
    }
}

/// The step after a look. Nothing there, or a link, leaves the directory out;
/// anything else that is no directory is an error.
pub open spec fn after(w: WalkText, kind: Result<NodeKind, String>) -> (WalkText, RootMoveText) {
    match kind {
        Err(e) => (w, RootMoveText::Failed(e@)),
        Ok(k) => match k {
            NodeKind::Missing => (w, RootMoveText::Absent),
            NodeKind::Symlink => (w, RootMoveText::Absent),
            NodeKind::Directory => onward(w),
            NodeKind::Other => (
                w,
                RootMoveText::Failed(
                    "configured memory source component is not a directory: "@ + w.current,
                ),
            ),
        },
    }
}

// ── The steps ────────────────────────────────────────────────────────────────
fn failure(what: &str, path: &str) -> (m: RootMove)
    ensures
        m@ == RootMoveText::Failed(what@ + path@),
{
    let mut msg = what.to_owned();
    msg.append(path);
    RootMove::Settled(Err(msg))
}

/// Starts the walk to a directory below the workspace; `is_dir` tells whether
/// the workspace is a directory, links followed.
pub fn checked_source_root(hex_root: &str, relative: &str, is_dir: Result<bool, String>) -> (r: (
    RootWalk,
    RootMove,
))
    ensures
        r.0@.wf(),
        (r.0@, r.1@) == beginning(hex_root@, relative@, is_dir),
{
    let mut w = RootWalk {
        relative: relative.to_owned(),
        parts: consolidate::path_components(relative),
        current: hex_root.to_owned(),
        next: 0,
    };
    let m = match is_dir {
        Err(e) => RootMove::Settled(Err(e)),
        Ok(b) => if !b {
            failure("memory source root is not a directory: ", hex_root)
        } else if text::str_eq(relative, ".") {
            RootMove::Settled(Ok(Some(hex_root.to_owned())))
        } else {
            w.onward()
        },
    };
    (w, m)
}

impl RootWalk {
    fn onward(&mut self) -> (m: RootMove)
        requires
            old(self)@.wf(),
        ensures
            final(self)@.wf(),
            (final(self)@, m@) == onward(old(self)@),
    {
        let n: usize = self.parts.len();
        let mut i: usize = self.next;
        let ghost parts = text::texts(self.parts@);
        while i < n && i > 0 && text::str_eq(self.parts[i].as_str(), ".")
            invariant
                self.next <= i <= n == self.parts@.len(),
                parts == text::texts(self.parts@),
                next_part(parts, i as int) == next_part(parts, self.next as int),
            decreases n - i,
        {
            proof {
                assert(parts[i as int] == self.parts@[i as int]@);
            }
            i = i + 1;
        }
        proof {
            assert(i < n ==> parts[i as int] == self.parts@[i as int]@);
        }
        self.next = i;
        if i >= n {
            return RootMove::Settled(Ok(Some(self.current.as_str().to_owned())));
        }
        let part = self.parts[i].as_str();
        if text::str_eq(part, "..") || text::str_eq(part, "/") || text::str_eq(part, ".") && i == 0 {
            return failure("invalid configured memory source root: ", self.relative.as_str());
        }
        let p = paths::join(self.current.as_str(), part);
        let shown = p.as_str().to_owned();
        self.next = i + 1;
        self.current = p;
        RootMove::Look(shown)
    }

    /// Goes on with what stands at the path that was looked at.
    pub fn step(&mut self, kind: Result<NodeKind, String>) -> (m: RootMove)
        requires
            old(self)@.wf(),
        ensures
            final(self)@.wf(),
            (final(self)@, m@) == after(old(self)@, kind),
    {
        match kind {
            Err(e) => RootMove::Settled(Err(e)),
            Ok(k) => match k {
                NodeKind::Missing => RootMove::Settled(Ok(None)),
                NodeKind::Symlink => RootMove::Settled(Ok(None)),
                NodeKind::Directory => self.onward(),
                NodeKind::Other => failure(
                    "configured memory source component is not a directory: ",
                    self.current.as_str(),
                ),
            },
        }
    }
}

// ── Laws ─────────────────────────────────────────────────────────────────────
proof fn lemma_next_part(parts: Seq<Seq<char>>, i: int)
    requires
        0 <= i <= parts.len(),
    ensures
        i <= next_part(parts, i) <= parts.len(),
        forall|k: int| i <= k < next_part(parts, i) ==> #[trigger] parts[k] == "."@,
    decreases parts.len() - i,
{
    if i < parts.len() && parts[i] == "."@ && i > 0 {
        lemma_next_part(parts, i + 1);
    }
}

/// A directory takes part only once the last of its components has been seen to
/// be a directory; a link anywhere on the way leaves it out.
pub proof fn law_links_leave_a_root_out(w: WalkText, kind: Result<NodeKind, String>)
    requires
        w.wf(),
    ensures
        after(w, kind).1 is There ==> kind == Ok::<NodeKind, String>(NodeKind::Directory)
            && after(w, kind).1->There_0 == w.current,
        kind == Ok::<NodeKind, String>(NodeKind::Symlink) ==> after(w, kind).1 is Absent,
{
}

/// No component on the way leads up or to the root of the disk.
pub proof fn law_no_walk_leads_out(w: WalkText, kind: Result<NodeKind, String>)
    requires
        w.wf(),
        after(w, kind).1 is Look,
    ensures
        ({
            let v = after(w, kind).0;
            &&& 0 < v.next <= w.parts.len()
            &&& w.parts[v.next - 1] != ".."@ && w.parts[v.next - 1] != "/"@
            &&& after(w, kind).1->Look_0 == paths::joined(w.current, w.parts[v.next - 1])
        }),
{
    lemma_next_part(w.parts, w.next);
}

/// Every walk ends: each look leaves fewer components.
pub proof fn law_every_walk_ends(w: WalkText, kind: Result<NodeKind, String>)
    requires
        w.wf(),
        after(w, kind).1 is Look,
    ensures
        0 <= w.parts.len() - after(w, kind).0.next < w.parts.len() - w.next,
{
    lemma_next_part(w.parts, w.next);
}

/// A walk begins at the workspace, which must be a directory; the workspace itself is
/// reached without a look.
pub proof fn law_beginning(hex_root: Seq<char>, relative: Seq<char>, e: String)
    ensures
        beginning(hex_root, relative, Err(e)).1 == RootMoveText::Failed(e@),
        beginning(hex_root, relative, Ok(false)).1 is Failed,
        beginning(hex_root, "."@, Ok(true)).1 == RootMoveText::There(hex_root),
        beginning(hex_root, relative, Ok(true)).0.parts == consolidate::components(relative),
{
}

/// A walk that comes to a component that leads up or to the root of the disk fails; one
/// that comes to the end is there; nothing at a path leaves the directory out, and what
/// is neither a directory nor a link is an error.
pub proof fn law_steps(w: WalkText)
    requires
        w.wf(),
    ensures
        w.next < w.parts.len() && (w.parts[w.next] == ".."@ || w.parts[w.next] == "/"@) ==> after(
            w,
            Ok(NodeKind::Directory),
        ).1 is Failed,
        w.next == w.parts.len() ==> after(w, Ok(NodeKind::Directory)).1 == RootMoveText::There(
            w.current,
        ),
        w.next < w.parts.len() && w.parts[w.next] != ".."@ && w.parts[w.next] != "/"@
            && w.parts[w.next] != "."@ ==> after(w, Ok(NodeKind::Directory)).1
            == RootMoveText::Look(paths::joined(w.current, w.parts[w.next])),
        after(w, Ok(NodeKind::Missing)).1 is Absent,
        after(w, Ok(NodeKind::Other)).1 is Failed,
{
    reveal_strlit("..");
    reveal_strlit("/");
    reveal_strlit(".");
    assert("."@.len() == 1 && ".."@.len() == 2 && "/"@[0] != "."@[0]);
}

/// What is in the way of a source is told with its path.
pub proof fn law_what_is_in_the_way(w: WalkText)
    ensures
        after(w, Ok(NodeKind::Other)).1 == RootMoveText::Failed(
            "configured memory source component is not a directory: "@ + w.current,
        ),
        after(w, Ok(NodeKind::Missing)).1 is Absent,
        after(w, Ok(NodeKind::Symlink)).1 is Absent,
{
}

} // verus!
