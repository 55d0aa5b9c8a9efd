//! Reading a file below a root step by step. Nothing on the way to it may be an
//! alias, the file itself may have no other name, and nothing of this may
//! change while it is read.
use crate::memory::authority::{self, valid_relative_path};
use crate::paths;
use crate::text::{self, split_char, str_eq};
use vstd::prelude::*;

verus! {

/// What tells two files apart.
#[derive(Debug, Clone, Copy, PartialEq, Eq, Structural)]
pub struct FileIdentity {
    pub device: u64,
    pub inode: u64,
}

/// What stands at a path, links not followed.
#[derive(Debug, Clone, Copy, PartialEq, Eq, Structural)]
pub struct Node {
    pub is_file: bool,
    pub is_dir: bool,
    pub is_symlink: bool,
    pub links: u64,
    pub identity: FileIdentity,
}

impl Node {
    pub open spec fn real_dir(self) -> bool {
        self.is_dir && !self.is_symlink
    }

    /// A regular file that no other name leads to.
    pub open spec fn owned_file(self) -> bool {
        self.is_file && !self.is_symlink && self.links == 1
    }

    fn is_real_dir(&self) -> (b: bool)
        ensures
            b == self.real_dir(),
    {
        self.is_dir && !self.is_symlink
    }

    fn is_owned_file(&self) -> (b: bool)
        ensures
            b == self.owned_file(),
    {
        self.is_file && !self.is_symlink && self.links == 1
    }
}

/// Why a read failed; whether because there is nothing at the path.
#[derive(Debug)]
pub struct Fault {
    pub missing: bool,
    pub text: String,
}

pub struct FaultText {
    pub missing: bool,
    pub text: Seq<char>,
}

impl View for Fault {
    type V = FaultText;

    open spec fn view(&self) -> FaultText {
        FaultText { missing: self.missing, text: self.text@ }
    }
}

/// What the read waits for.
#[derive(Debug, Clone, Copy, PartialEq, Eq, Structural)]
pub enum Stage {
    /// A look at a directory on the way.
    Dirs,
    /// A look at the file.
    Before,
    Open,
    Bytes,
    /// A second look at the file.
    After,
    /// A second look at a directory.
    Again,
    Over,
}

/// What the read is told, in answer to its last action.
#[derive(Debug)]
pub enum Event {
    /// What stands at the path, or what was opened there.
    Node(Result<Node, Fault>),
    Bytes(Result<Vec<u8>, Fault>),
}

/// What is to be done next.
#[derive(Debug)]
pub enum Action {
    Look(String),
    /// Open the file at this path, no link followed, and look at what is open.
    Open(String),
    /// Read so many bytes of the open file at most.
    Read(u64),
    Finish(Result<Vec<u8>, Fault>),
}

pub enum ActionText {
    Look(Seq<char>),
    Open(Seq<char>),
    Read(u64),
    Done(Seq<u8>),
    Failed(FaultText),
}

impl View for Action {
    type V = ActionText;

    open spec fn view(&self) -> ActionText {
        match self {
            Action::Look(p) => ActionText::Look(p@),
            Action::Open(p) => ActionText::Open(p@),
            Action::Read(n) => ActionText::Read(*n),
            Action::Finish(r) => match r {
                Ok(b) => ActionText::Done(b@),
                Err(f) => ActionText::Failed(f@),
            },
        }
    }
}

/// A read on its way: the directories to the file, with the identities of those
/// that have been looked at, and that of the file.
#[derive(Debug)]
pub struct SafeRead {
    stage: Stage,
    path: String,
    dirs: Vec<String>,
    seen: Vec<FileIdentity>,
    file: FileIdentity,
    bytes: Vec<u8>,
    limit: u64,
    next: usize,
}

pub struct ReadText {
    pub stage: Stage,
    pub path: Seq<char>,
    pub dirs: Seq<Seq<char>>,
    pub seen: Seq<FileIdentity>,
    pub file: FileIdentity,
    pub bytes: Seq<u8>,
    pub limit: u64,
    pub next: int,
}

impl View for SafeRead {
    type V = ReadText;

    closed spec fn view(&self) -> ReadText {
        ReadText {
            stage: self.stage,
            path: self.path@,
            dirs: text::texts(self.dirs@),
            seen: self.seen@,
            file: self.file,
            bytes: self.bytes@,
            limit: self.limit,
            next: self.next as int,
        }
    }
}

impl ReadText {
    pub open spec fn wf(self) -> bool {
        &&& self.limit < u64::MAX
        &&& self.stage is Dirs ==> self.seen.len() == self.next
        &&& self.stage is Dirs || self.stage is Again ==> 0 <= self.next < self.dirs.len()
        &&& !(self.stage is Dirs || self.stage is Over) ==> self.seen.len() == self.dirs.len() > 0
        &&& self.stage is After || self.stage is Again ==> self.bytes.len() <= self.limit
    }
}

// ── What a read does ─────────────────────────────────────────────────────────
/// The root, then the directories to the file that the names lead to; the first
/// `n` of them.
pub open spec fn dirs_to(root: Seq<char>, names: Seq<Seq<char>>, n: int) -> Seq<Seq<char>>
    decreases n,
{
    if n <= 0 {
        Seq::empty()
    } else if n == 1 {
        seq![root]
    } else {
        let front = dirs_to(root, names, n - 1);
        front.push(paths::joined(front.last(), names[n - 2]))
    }
}

pub open spec fn go(r: ReadText, stage: Stage, action: ActionText) -> (ReadText, ActionText) {
    (ReadText { stage, ..r }, action)
}

pub open spec fn stopped(r: ReadText, fault: FaultText) -> (ReadText, ActionText) {
    go(r, Stage::Over, ActionText::Failed(fault))
}

/// The read is refused.
pub open spec fn refused(r: ReadText, why: Seq<char>) -> (ReadText, ActionText) {
    stopped(r, FaultText { missing: false, text: why })
}

pub open spec fn beginning(root: Seq<char>, relative: Seq<char>, limit: u64) -> (
    ReadText,
    ActionText,
) {
    let names = authority::names_of(relative);
    let r = ReadText {
        stage: Stage::Dirs,
        path: paths::joined(root, relative),
        dirs: dirs_to(root, names, names.len() as int),
        seen: Seq::empty(),
        file: FileIdentity { device: 0, inode: 0 },
        bytes: Seq::empty(),
        limit,
        next: 0,
    };
    if !authority::bounded_path(relative) {
        refused(r, "authority path is not a bounded relative path"@)
    } else {
        (r, ActionText::Look(root))
    }
}

/// The step after a look at a directory on the way.
pub open spec fn after_dir(r: ReadText, n: Node) -> (ReadText, ActionText) {
    if !n.real_dir() {
        refused(
            r,
            if r.next == 0 {
                "authority root is not a real directory"@
            } else {
                "authority path ancestry contains an alias"@
            },
        )
    } else {
        let s = ReadText { seen: r.seen.push(n.identity), next: r.next + 1, ..r };
        if s.next < s.dirs.len() {
            go(s, Stage::Dirs, ActionText::Look(s.dirs[s.next]))
        } else {
            go(s, Stage::Before, ActionText::Look(s.path))
        }
    }
}

/// The step after a second look at a directory.
pub open spec fn after_again(r: ReadText, n: Node) -> (ReadText, ActionText) {
    if !(n.real_dir() && n.identity == r.seen[r.next]) {
        refused(r, "authority source ancestry changed during read"@)
    } else if r.next + 1 < r.dirs.len() {
        go(
            ReadText { next: r.next + 1, ..r },
            Stage::Again,
            ActionText::Look(r.dirs[r.next + 1]),
        )
    } else {
        go(r, Stage::Over, ActionText::Done(r.bytes))
    }
}

pub open spec fn after_node(r: ReadText, n: Node) -> (ReadText, ActionText) {
    match r.stage {
        Stage::Dirs => after_dir(r, n),
        Stage::Before => if !n.owned_file() {
            refused(r, "authority source is not an owned regular file"@)
        } else {
            go(ReadText { file: n.identity, ..r }, Stage::Open, ActionText::Open(r.path))
        },
        Stage::Open => if !(n.is_file && n.links == 1 && n.identity == r.file) {
            refused(r, "authority source changed during open"@)
        } else {
            go(r, Stage::Bytes, ActionText::Read((r.limit + 1) as u64))
        },
        Stage::After => if !(n.owned_file() && n.identity == r.file) {
            refused(r, "authority source path changed during read"@)
        } else {
            go(ReadText { next: 0, ..r }, Stage::Again, ActionText::Look(r.dirs[0]))
        },
        _ => after_again(r, n),
    }
}

pub open spec fn after_bytes(r: ReadText, b: Seq<u8>) -> (ReadText, ActionText) {
    if b.len() > r.limit {
        refused(r, "authority file exceeds its byte limit"@)
    } else {
        go(ReadText { bytes: b, ..r }, Stage::After, ActionText::Look(r.path))
    }
}

/// Whether an event answers what a read waits for.
pub open spec fn answers(stage: Stage, e: Event) -> bool {
    match e {
        Event::Bytes(_) => stage is Bytes,
        Event::Node(_) => !(stage is Bytes || stage is Over),
    }
}

/// The step of a read when it is told of an event.
pub open spec fn after(r: ReadText, e: Event) -> (ReadText, ActionText) {
    match e {
        Event::Node(n) => match n {
            Ok(n) => after_node(r, n),
            Err(f) => stopped(r, f@),
        },
        Event::Bytes(b) => match b {
            Ok(b) => after_bytes(r, b@),
            Err(f) => stopped(r, f@),
        },
    }
}

// ── The steps ────────────────────────────────────────────────────────────────
proof fn lemma_dirs_to(root: Seq<char>, names: Seq<Seq<char>>, n: int)
    requires
        0 < n,
    ensures
        dirs_to(root, names, n).len() == n,
        dirs_to(root, names, n)[0] == root,
    decreases n,
{
    if n > 1 {
        lemma_dirs_to(root, names, n - 1);
    }
}

fn path_names(path: &str) -> (r: Vec<String>)
    ensures
        text::texts(r@) == authority::names_of(path@),
{
    let parts = split_char(path, '/');
    let ghost list = text::split(path@, '/');
    let ghost keep = |p: Seq<char>| authority::is_name(p);
    let mut r: Vec<String> = Vec::new();
    let mut i: usize = 0;
    proof {
        reveal(Seq::filter);
        assert(list.take(0) =~= Seq::<Seq<char>>::empty());
        assert(text::texts(r@) =~= list.take(0).filter(keep));
    }
    while i < parts.len()
        invariant
            i <= parts@.len(),
            list == text::texts(parts@),
            keep == (|p: Seq<char>| authority::is_name(p)),
            text::texts(r@) == list.take(i as int).filter(keep),
        decreases parts.len() - i,
    {
        proof {
            reveal(Seq::filter);
            assert(list.take(i + 1).drop_last() =~= list.take(i as int));
            assert(list.take(i + 1).last() == parts@[i as int]@);
        }
        if !parts[i].as_str().is_empty() && !str_eq(parts[i].as_str(), ".") {
            let s = parts[i].as_str().to_owned();
            proof {
                text::lemma_texts_push(r@, s);
            }
            r.push(s);
        }
        i = i + 1;
    }
    proof {
        assert(list.take(i as int) =~= list);
    }
    r
}

fn directories(root: &str, names: &Vec<String>) -> (r: Vec<String>)
    ensures
        text::texts(r@) == dirs_to(root@, text::texts(names@), names@.len() as int),
{
    let ghost list = text::texts(names@);
    let mut r: Vec<String> = Vec::new();
    if names.len() == 0 {
        proof {
            assert(text::texts(r@) =~= Seq::<Seq<char>>::empty());
        }
        return r;
    }
    r.push(root.to_owned());
    proof {
        assert(text::texts(r@) =~= seq![root@]);
    }
    let mut k: usize = 1;
    while k < names.len()
        invariant
            1 <= k <= names@.len(),
            list == text::texts(names@),
            r@.len() == k,
            text::texts(r@) == dirs_to(root@, list, k as int),
        decreases names.len() - k,
    {
        let d = paths::join(r[k - 1].as_str(), names[k - 1].as_str());
        proof {
            assert(text::texts(r@).last() == r@[k - 1]@);
            assert(list[k - 1] == names@[k - 1]@);
            text::lemma_texts_push(r@, d);
        }
        r.push(d);
        k = k + 1;
    }
    r
}

/// A bounded path names something: it has a component that is neither empty nor
/// `.`.
proof fn lemma_bounded_has_name(path: Seq<char>)
    requires
        authority::bounded_path(path),
    ensures
        authority::names_of(path).len() > 0,
{
    let parts = text::split(path, '/');
    let keep = |p: Seq<char>| authority::is_name(p);
    text::lemma_split_first(path, '/');
    assert(keep(parts[0]));
    parts.lemma_filter_contains(keep, 0);
}

fn refusal(why: &str) -> (a: Action)
    ensures
        a@ == ActionText::Failed(FaultText { missing: false, text: why@ }),
{
    Action::Finish(Err(Fault { missing: false, text: why.to_owned() }))
}

/// Starts to read a file below a root, so many bytes of it at most.
pub fn read_root_relative(root: &str, relative: &str, limit: u64) -> (r: (SafeRead, Action))
    requires
        limit < u64::MAX,
    ensures
        r.0@.wf(),
        (r.0@, r.1@) == beginning(root@, relative@, limit),
{
    let names = path_names(relative);
    let dirs = directories(root, &names);
    let mut s = SafeRead {
        stage: Stage::Dirs,
        path: paths::join(root, relative),
        dirs,
        seen: Vec::new(),
        file: FileIdentity { device: 0, inode: 0 },
        bytes: Vec::new(),
        limit,
        next: 0,
    };
    proof {
        assert(s@.seen =~= Seq::<FileIdentity>::empty());
        assert(s@.bytes =~= Seq::<u8>::empty());
    }
    if !valid_relative_path(relative) {
        s.stage = Stage::Over;
        return (s, refusal("authority path is not a bounded relative path"));
    }
    proof {
        lemma_bounded_has_name(relative@);
        lemma_dirs_to(root@, text::texts(names@), names@.len() as int);
    }
    (s, Action::Look(root.to_owned()))
}

fn same_file(a: FileIdentity, b: FileIdentity) -> (r: bool)
    ensures
        r == (a == b),
{
    a.device == b.device && a.inode == b.inode
}

impl SafeRead {
    fn refuse(&mut self, why: &str) -> (a: Action)
        ensures
            (final(self)@, a@) == refused(old(self)@, why@),
    {
        self.stage = Stage::Over;
        refusal(why)
    }

    fn stop(&mut self, fault: Fault) -> (a: Action)
        ensures
            (final(self)@, a@) == stopped(old(self)@, fault@),
    {
        self.stage = Stage::Over;
        Action::Finish(Err(fault))
    }

    fn look_at_file(&mut self, stage: Stage) -> (a: Action)
        ensures
            (final(self)@, a@) == go(old(self)@, stage, ActionText::Look(old(self)@.path)),
    {
        self.stage = stage;
        Action::Look(self.path.as_str().to_owned())
    }

    fn look_at_dir(&mut self, stage: Stage) -> (a: Action)
        requires
            old(self)@.next < old(self)@.dirs.len(),
        ensures
            (final(self)@, a@) == go(
                old(self)@,
                stage,
                ActionText::Look(old(self)@.dirs[old(self)@.next]),
            ),
    {
        self.stage = stage;
        Action::Look(self.dirs[self.next].as_str().to_owned())
    }

    fn take_dir(&mut self, n: Node) -> (a: Action)
        requires
            old(self)@.wf(),
            old(self)@.stage is Dirs,
        ensures
            final(self)@.wf(),
            (final(self)@, a@) == after_dir(old(self)@, n),
    {
        if !n.is_real_dir() {
            return if self.next == 0 {
                self.refuse("authority root is not a real directory")
            } else {
                self.refuse("authority path ancestry contains an alias")
            };
        }
        proof {
            assert(self.next < self.dirs.len());
        }
        self.seen.push(n.identity);
        self.next = self.next + 1;
        if self.next < self.dirs.len() {
            self.look_at_dir(Stage::Dirs)
        } else {
            self.look_at_file(Stage::Before)
        }
    }

    fn take_again(&mut self, n: Node) -> (a: Action)
        requires
            old(self)@.wf(),
            old(self)@.stage is Again,
        ensures
            final(self)@.wf(),
            (final(self)@, a@) == after_again(old(self)@, n),
    {
        proof {
            assert(self.next < self.dirs.len());
        }
        if !(n.is_real_dir() && same_file(n.identity, self.seen[self.next])) {
            return self.refuse("authority source ancestry changed during read");
        }
        if self.next + 1 < self.dirs.len() {
            self.next = self.next + 1;
            return self.look_at_dir(Stage::Again);
        }
        self.stage = Stage::Over;
        let mut bytes: Vec<u8> = Vec::new();
        let mut i: usize = 0;
        while i < self.bytes.len()
            invariant
                i <= self.bytes@.len(),
                bytes@ == self.bytes@.take(i as int),
            decreases self.bytes@.len() - i,
        {
            bytes.push(self.bytes[i]);
            i = i + 1;
            proof {
                assert(bytes@ =~= self.bytes@.take(i as int));
            }
        }
        proof {
            assert(self.bytes@.take(i as int) =~= self.bytes@);
        }
        Action::Finish(Ok(bytes))
    }

    fn take_node(&mut self, n: Node) -> (a: Action)
        requires
            old(self)@.wf(),
            !(old(self)@.stage is Bytes || old(self)@.stage is Over),
        ensures
            final(self)@.wf(),
            (final(self)@, a@) == after_node(old(self)@, n),
    {
        match self.stage {
            Stage::Dirs => self.take_dir(n),
            Stage::Before => {
                if !n.is_owned_file() {
                    return self.refuse("authority source is not an owned regular file");
                }
                self.file = n.identity;
                self.stage = Stage::Open;
                Action::Open(self.path.as_str().to_owned())
            },
            Stage::Open => {
                if !(n.is_file && n.links == 1 && same_file(n.identity, self.file)) {
                    return self.refuse("authority source changed during open");
                }
                self.stage = Stage::Bytes;
                Action::Read(self.limit + 1)
            },
            Stage::After => {
                if !(n.is_owned_file() && same_file(n.identity, self.file)) {
                    return self.refuse("authority source path changed during read");
                }
                self.next = 0;
                self.look_at_dir(Stage::Again)
            },
            _ => self.take_again(n),
        }
    }

    /// Goes on with what came of the last action.
    pub fn step(&mut self, e: Event) -> (a: Action)
        requires
            old(self)@.wf(),
            answers(old(self)@.stage, e),
        ensures
            final(self)@.wf(),
            (final(self)@, a@) == after(old(self)@, e),
    {
        match e {
            Event::Node(n) => match n {
                Ok(n) => self.take_node(n),
                Err(f) => self.stop(f),
            },
            Event::Bytes(b) => match b {
                Err(f) => self.stop(f),
                Ok(b) => {
                    if b.len() as u64 > self.limit {
                        return self.refuse("authority file exceeds its byte limit");
                    }
                    self.bytes = b;
                    self.look_at_file(Stage::After)
                },
            },
        }
    }
}

// ── Laws ─────────────────────────────────────────────────────────────────────
/// A file is opened only once it has been seen to be a regular file without
/// another name, and that is looked at only once every directory on the way has
/// been seen to be real.
pub proof fn law_only_checked_files_are_opened(r: ReadText, e: Event)
    requires
        r.wf(),
        answers(r.stage, e),
    ensures
        after(r, e).1 is Open ==> r.stage is Before && (e matches Event::Node(Ok(n))
            && n.owned_file()),
        after(r, e).0.stage is Before ==> r.stage is Dirs && r.next == r.dirs.len() - 1 && (
        e matches Event::Node(Ok(n)) && n.real_dir()),
{
}

/// A link on the way ends the read.
pub proof fn law_aliases_end_the_read(r: ReadText, n: Node)
    requires
        r.wf(),
        r.stage is Dirs || r.stage is Before || r.stage is After || r.stage is Again,
        n.is_symlink,
    ensures
        after(r, Event::Node(Ok(n))).1 is Failed,
{
}

/// Bytes are handed out only within the limit, and only once the last of the
/// directories has been seen again with the identity that it had before.
pub proof fn law_bytes_only_if_nothing_changed(r: ReadText, e: Event)
    requires
        r.wf(),
        answers(r.stage, e),
        after(r, e).1 is Done,
    ensures
        after(r, e).1->Done_0 == r.bytes,
        r.bytes.len() <= r.limit,
        r.stage is Again,
        r.next == r.dirs.len() - 1,
        e matches Event::Node(Ok(n)) && n.real_dir() && n.identity == r.seen[r.next],
{
}

/// A second look finds the file and each directory as they were, or the read
/// ends.
pub proof fn law_changes_end_the_read(r: ReadText, n: Node)
    requires
        r.wf(),
        r.stage is After && n.identity != r.file || r.stage is Again && n.identity
            != r.seen[r.next],
    ensures
        after(r, Event::Node(Ok(n))).1 is Failed,
{
}

/// How much a read has left to do.
pub open spec fn left(r: ReadText) -> int {
    let dirs = r.dirs.len() as int;
    match r.stage {
        Stage::Dirs => 2 * dirs - r.next + 4,
        Stage::Before => dirs + 4,
        Stage::Open => dirs + 3,
        Stage::Bytes => dirs + 2,
        Stage::After => dirs + 1,
        Stage::Again => dirs - r.next,
        Stage::Over => 0,
    }
}

/// Every read ends: each step leaves less to do, and what holds of
/// a read still holds.
pub proof fn law_every_read_ends(r: ReadText, e: Event)
    requires
        r.wf(),
        answers(r.stage, e),
    ensures
        after(r, e).0.wf(),
        0 <= left(after(r, e).0) < left(r),
{
}

/// What is read is a regular file that is no link and has no other name, reached over
/// directories that are no links, and the file that is open is the one that was looked
/// at; one byte more than the limit is asked for, so that a longer file is noticed.
pub proof fn law_what_is_read(r: ReadText, n: Node)
    requires
        r.wf(),
    ensures
        r.stage is Dirs && (!n.is_dir || n.is_symlink) ==> after(r, Event::Node(Ok(n))).1 is Failed,
        r.stage is Dirs && n.is_dir && !n.is_symlink && r.next + 1 < r.dirs.len() ==> after(
            r,
            Event::Node(Ok(n)),
        ).1 == ActionText::Look(r.dirs[r.next + 1]),
        r.stage is Dirs && n.is_dir && !n.is_symlink && r.next + 1 == r.dirs.len() ==> after(
            r,
            Event::Node(Ok(n)),
        ).1 == ActionText::Look(r.path),
        r.stage is Before ==> (after(r, Event::Node(Ok(n))).1 is Open) == (n.is_file
            && !n.is_symlink && n.links == 1),
        r.stage is Before && !(n.is_file && !n.is_symlink && n.links == 1) ==> after(
            r,
            Event::Node(Ok(n)),
        ).1 is Failed,
        r.stage is Open ==> (after(r, Event::Node(Ok(n))).1 == ActionText::Read((r.limit + 1) as u64))
            == (n.is_file && n.links == 1 && n.identity == r.file),
        r.stage is Open && !(n.is_file && n.links == 1 && n.identity == r.file) ==> after(
            r,
            Event::Node(Ok(n)),
        ).1 is Failed,
{
}

/// The bytes are handed out if and only if they are within the limit and a second look
/// finds the file and all directories as they were.
pub proof fn law_what_is_handed_out(r: ReadText, n: Node, b: Vec<u8>)
    requires
        r.wf(),
    ensures
        r.stage is Bytes && b@.len() > r.limit ==> after(r, Event::Bytes(Ok(b))).1 is Failed,
        r.stage is Bytes && b@.len() <= r.limit ==> after(r, Event::Bytes(Ok(b))).1
            == ActionText::Look(r.path) && after(r, Event::Bytes(Ok(b))).0.bytes == b@,
        r.stage is After && n.is_file && !n.is_symlink && n.links == 1 && n.identity == r.file
            ==> after(r, Event::Node(Ok(n))).1 == ActionText::Look(r.dirs[0]),
        r.stage is Again && n.is_dir && !n.is_symlink && n.identity == r.seen[r.next] && r.next + 1
            == r.dirs.len() ==> after(r, Event::Node(Ok(n))).1 == ActionText::Done(r.bytes),
        r.stage is Again && n.is_dir && !n.is_symlink && n.identity == r.seen[r.next] && r.next + 1
            < r.dirs.len() ==> after(r, Event::Node(Ok(n))).1 == ActionText::Look(
            r.dirs[r.next + 1],
        ),
{
}

/// A read looks at the root first, and then at each directory on the way to the file.
pub proof fn law_the_way_to_a_file(root: Seq<char>, names: Seq<Seq<char>>, n: int, k: int)
    requires
        0 < k < n <= names.len(),
    ensures
        dirs_to(root, names, n).len() == n,
        dirs_to(root, names, n)[0] == root,
        dirs_to(root, names, n)[k] == paths::joined(dirs_to(root, names, n)[k - 1], names[k - 1]),
    decreases n,
{
    lemma_dirs_to(root, names, n);
    lemma_dirs_to(root, names, n - 1);
    if k < n - 1 {
        law_the_way_to_a_file(root, names, n - 1, k);
    }
}

} // verus!
