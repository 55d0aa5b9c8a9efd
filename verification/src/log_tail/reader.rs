//! The new lines of a growing file.
use crate::lists;
use crate::paths;
use crate::text;
use vstd::prelude::*;

verus! {

/// The offset of a reader that starts at the end of the file.
pub const SEEK_EOF: u64 = u64::MAX;

/// Where in a file the lines that have been read end.
#[derive(Debug, Clone)]
pub struct TailReader {
    pub path: String,
    pub position: u64,
    /// The inode of the file that was last read.
    pub last_inode: Option<u64>,
}

/// A file as it is found: how long it is, which one it is where that can be
/// told, and its bytes from [`TailReader::start`] on.
#[derive(Debug, Clone)]
pub struct FileState {
    pub len: u64,
    pub inode: Option<u64>,
    pub tail: Vec<u8>,
}

pub open spec fn is_newline() -> spec_fn(u8) -> bool {
    |b: u8| b == 10
}

/// Bytes without line ends at the end.
pub open spec fn without_eol(b: Seq<u8>) -> Seq<u8>
    decreases b.len(),
{
    if b.len() > 0 && (b.last() == 10 || b.last() == 13) {
        without_eol(b.drop_last())
    } else {
        b
    }
}

/// The complete lines in bytes; what stands behind the last line end is none.
pub open spec fn complete(b: Seq<u8>) -> Seq<Seq<u8>>
    decreases b.len(),
{
    match lists::first_from(b, is_newline(), 0) {
        Some(j) => if 0 <= j < b.len() {
            seq![without_eol(b.take(j + 1))] + complete(b.skip(j + 1))
        } else {
            Seq::empty()
        },
        None => Seq::empty(),
    }
}

/// How many bytes the complete lines take.
pub open spec fn consumed(b: Seq<u8>) -> int
    decreases b.len(),
{
    match lists::first_from(b, is_newline(), 0) {
        Some(j) => if 0 <= j < b.len() {
            j + 1 + consumed(b.skip(j + 1))
        } else {
            0
        },
        None => 0,
    }
}

/// What the lossy reading of bytes as UTF-8 gives.
pub uninterp spec fn utf8_lossy(b: Seq<u8>) -> Seq<char>;

/// `String::from_utf8_lossy` depends on the bytes alone.
#[verifier::external_body]
pub(crate) fn read_lossy(b: &Vec<u8>) -> (r: String)
    ensures
        r@ == utf8_lossy(b@),
{
    String::from_utf8_lossy(b).into_owned()
}

pub open spec fn line_texts(b: Seq<u8>) -> Seq<Seq<char>> {
    complete(b).map_values(|l: Seq<u8>| utf8_lossy(l))
}

proof fn lemma_consumed(b: Seq<u8>)
    ensures
        0 <= consumed(b) <= b.len(),
    decreases b.len(),
{
    lists::lemma_first_from(b, is_newline(), 0);
    match lists::first_from(b, is_newline(), 0) {
        Some(j) => {
            lemma_consumed(b.skip(j + 1));
        },
        None => {},
    }
}

/// The first newline is known by what stands at it and before it.
proof fn lemma_newline_at(b: Seq<u8>, j: int)
    requires
        0 <= j < b.len(),
        b[j] == 10,
        forall|k: int| 0 <= k < j ==> b[k] != 10,
    ensures
        lists::first_from(b, is_newline(), 0) == Some(j),
{
    lists::lemma_first_from(b, is_newline(), 0);
    let p = is_newline();
    match lists::first_from(b, p, 0) {
        Some(k) => {
            if j < k {
                assert(!p(b[j]));
            }
        },
        None => {
            assert(!p(b[j]));
        },
    }
}

proof fn lemma_no_newline(b: Seq<u8>)
    requires
        forall|k: int| 0 <= k < b.len() ==> b[k] != 10,
    ensures
        complete(b) == Seq::<Seq<u8>>::empty(),
        consumed(b) == 0,
{
    lists::lemma_first_from(b, is_newline(), 0);
}

fn take_line(b: &Vec<u8>, i: usize, j: usize) -> (r: String)
    requires
        i <= j <= b@.len(),
    ensures
        r@ == utf8_lossy(without_eol(b@.subrange(i as int, j as int))),
{
    let mut n: usize = j;
    while n > i && (b[n - 1] == 10 || b[n - 1] == 13)
        invariant
            i <= n <= j <= b@.len(),
            without_eol(b@.subrange(i as int, j as int)) == without_eol(
                b@.subrange(i as int, n as int),
            ),
        decreases n,
    {
        proof {
            assert(b@.subrange(i as int, n as int).drop_last() =~= b@.subrange(i as int, n - 1));
        }
        n -= 1;
    }
    let mut line: Vec<u8> = Vec::new();
    let mut k: usize = i;
    while k < n
        invariant
            i <= k <= n <= b@.len(),
            line@ == b@.subrange(i as int, k as int),
        decreases n - k,
    {
        line.push(b[k]);
        proof {
            assert(line@ =~= b@.subrange(i as int, k + 1));
        }
        k += 1;
    }
    read_lossy(&line)
}

/// The complete lines in bytes, and how many bytes they take.
fn split_complete(b: &Vec<u8>) -> (r: (Vec<String>, usize))
    ensures
        text::texts(r.0@) == line_texts(b@),
        r.1 == consumed(b@),
        r.1 <= b@.len(),
{
    let mut lines: Vec<String> = Vec::new();
    let mut start: usize = 0;
    let mut i: usize = 0;
    proof {
        assert(b@.skip(0) =~= b@);
        assert(text::texts(lines@) + line_texts(b@.skip(0)) =~= line_texts(b@));
    }
    while i < b.len()
        invariant
            start <= i <= b@.len(),
            forall|k: int| start <= k < i ==> b@[k] != 10,
            text::texts(lines@) + line_texts(b@.skip(start as int)) == line_texts(b@),
            start + consumed(b@.skip(start as int)) == consumed(b@),
        decreases b.len() - i,
    {
        if b[i] == 10 {
            let ghost rest = b@.skip(start as int);
            let ghost j = i - start;
            let ghost front = text::texts(lines@);
            proof {
                assert(rest[j] == 10);
                assert forall|k: int| 0 <= k < j implies rest[k] != 10 by {
                    assert(b@[start + k] != 10);
                }
                lemma_newline_at(rest, j);
                assert(rest.take(j + 1) =~= b@.subrange(start as int, i + 1));
                assert(rest.skip(j + 1) =~= b@.skip(i + 1));
            }
            let line = take_line(b, start, i + 1);
            proof {
                text::lemma_texts_push(lines@, line);
                assert(line_texts(rest) =~= seq![line@] + line_texts(b@.skip(i + 1)));
            }
            lines.push(line);
            proof {
                assert(text::texts(lines@) + line_texts(b@.skip(i + 1)) =~= front + line_texts(
                    rest,
                ));
            }
            start = i + 1;
        }
        i += 1;
    }
    proof {
        let rest = b@.skip(start as int);
        assert forall|k: int| 0 <= k < rest.len() implies rest[k] != 10 by {
            assert(b@[start + k] != 10);
        }
        lemma_no_newline(rest);
        assert(line_texts(rest) =~= Seq::<Seq<char>>::empty());
        assert(text::texts(lines@) =~= line_texts(b@));
    }
    (lines, start)
}

impl TailReader {
    /// Whether another file stands at the path, as far as that can be told.
    pub open spec fn other_file(self, inode: Option<u64>) -> bool {
        self.last_inode is Some && inode is Some && self.last_inode != inode
    }

    /// Where reading goes on: at the front of another file, or of one that has
    /// become shorter.
    pub open spec fn base(self, len: u64, inode: Option<u64>) -> u64 {
        if self.other_file(inode) || len < self.position {
            0
        } else {
            self.position
        }
    }

    pub open spec fn start_of(self, len: u64, inode: Option<u64>) -> Option<u64> {
        if self.position == SEEK_EOF || len == self.base(len, inode) {
            None
        } else {
            Some(self.base(len, inode))
        }
    }

    /// A reader of the whole file, or only of what will be added to it.
    pub fn new(path: &str, from_start: bool) -> (r: TailReader)
        ensures
            r.path@ == path@,
            r.position == if from_start {
                0
            } else {
                SEEK_EOF
            },
            r.last_inode is None,
    {
        TailReader {
            path: path.to_owned(),
            position: if from_start {
                0
            } else {
                SEEK_EOF
            },
            last_inode: None,
        }
    }

    /// The offset to remember; 0 before a first read from the end.
    pub fn offset(&self) -> (n: u64)
        ensures
            n == if self.position == SEEK_EOF {
                0
            } else {
                self.position
            },
    {
        if self.position == SEEK_EOF {
            0
        } else {
            self.position
        }
    }

    /// Goes on from a remembered offset.
    pub fn set_offset(&mut self, offset: u64)
        ensures
            final(self).position == offset,
            final(self).path == old(self).path,
            final(self).last_inode == old(self).last_inode,
    {
        self.position = offset;
    }

    /// The directory of the file.
    pub fn parent_dir(&self) -> (r: Option<String>)
        ensures
            crate::json::is_text(r, paths::parent_of(self.path@)),
    {
        paths::parent(self.path.as_str())
    }

    /// From which byte on the file is to be read; nothing where there is
    /// nothing to read.
    pub fn start(&self, len: u64, inode: Option<u64>) -> (r: Option<u64>)
        ensures
            r == self.start_of(len, inode),
    {
        if self.position == SEEK_EOF {
            return None;
        }
        let changed = match self.last_inode {
            Some(a) => match inode {
                Some(b) => a != b,
                None => false,
            },
            None => false,
        };
        let from: u64 = if changed || len < self.position {
            0
        } else {
            self.position
        };
        if len == from {
            None
        } else {
            Some(from)
        }
    }

    /// The complete lines that came since the last read. A line without its
    /// end is left for later; where there is no file there are no lines.
    pub fn read_new(&mut self, file: Option<FileState>) -> (r: Vec<String>)
        requires
            file is Some ==> file->0.len + file->0.tail@.len() < u64::MAX,
        ensures
            final(self).path == old(self).path,
            match file {
                None => *final(self) == *old(self) && r@.len() == 0,
                Some(f) => {
                    &&& final(self).last_inode == f.inode
                    &&& match old(self).start_of(f.len, f.inode) {
                        None => r@.len() == 0 && final(self).position == f.len,
                        Some(from) => {
                            &&& text::texts(r@) == line_texts(f.tail@)
                            &&& final(self).position == from + consumed(f.tail@)
                        },
                    }
                },
            },
    {
        let f = match file {
            Some(f) => f,
            None => {
                return Vec::new();
            },
        };
        let from = self.start(f.len, f.inode);
        self.last_inode = f.inode;
        match from {
            None => {
                self.position = f.len;
                Vec::new()
            },
            Some(from) => {
                let (lines, n) = split_complete(&f.tail);
                self.position = from + n as u64;
                lines
            },
        }
    }
}

// ── Laws ─────────────────────────────────────────────────────────────────────
/// Reading a file in two parts gives the lines that reading it at once gives:
/// nothing is read twice and nothing is lost, wherever the file was cut.
pub proof fn law_no_replay_no_drop(first: Seq<u8>, more: Seq<u8>)
    ensures
        complete(first + more) == complete(first) + complete(first.skip(consumed(first)) + more),
        consumed(first + more) == consumed(first) + consumed(
            first.skip(consumed(first)) + more,
        ),
    decreases first.len(),
{
    let all = first + more;
    lists::lemma_first_from(first, is_newline(), 0);
    let p = is_newline();
    match lists::first_from(first, p, 0) {
        Some(j) => {
            assert forall|k: int| 0 <= k < j implies all[k] != 10 by {
                assert(!p(first[k]));
            }
            lemma_newline_at(all, j);
            let rest = first.skip(j + 1);
            assert(all.take(j + 1) =~= first.take(j + 1));
            assert(all.skip(j + 1) =~= rest + more);
            law_no_replay_no_drop(rest, more);
            lemma_consumed(rest);
            assert(first.skip(consumed(first)) =~= rest.skip(consumed(rest)));
            assert(complete(all) =~= complete(first) + complete(
                first.skip(consumed(first)) + more,
            ));
        },
        None => {
            assert(first.skip(0) =~= first);
            assert(complete(all) =~= complete(first) + complete(first.skip(0) + more));
        },
    }
}

/// A line that has no end yet is neither returned nor counted.
pub proof fn law_partial_line_waits(b: Seq<u8>, partial: Seq<u8>)
    requires
        b.len() == 0 || b.last() == 10,
        forall|k: int| 0 <= k < partial.len() ==> partial[k] != 10,
    ensures
        complete(b + partial) == complete(b),
        consumed(b + partial) == b.len(),
{
    law_no_replay_no_drop(b, partial);
    lemma_all_consumed(b);
    assert(b.skip(b.len() as int) + partial =~= partial);
    lemma_no_newline(partial);
    assert(complete(b) + Seq::<Seq<u8>>::empty() =~= complete(b));
}

proof fn lemma_all_consumed(b: Seq<u8>)
    requires
        b.len() == 0 || b.last() == 10,
    ensures
        consumed(b) == b.len(),
    decreases b.len(),
{
    lists::lemma_first_from(b, is_newline(), 0);
    let p = is_newline();
    match lists::first_from(b, p, 0) {
        Some(j) => {
            let rest = b.skip(j + 1);
            if rest.len() > 0 {
                assert(rest.last() == b.last());
            }
            lemma_all_consumed(rest);
        },
        None => {
            if b.len() > 0 {
                assert(!p(b[b.len() - 1]));
            }
        },
    }
}

/// A line ends at its line feed and is handed out without it, and without a carriage
/// return in front of it; the lines behind it follow.
pub proof fn law_a_line_is_handed_out(line: Seq<u8>, rest: Seq<u8>)
    requires
        forall|k: int| 0 <= k < line.len() ==> #[trigger] line[k] != 10,
        line.len() == 0 || line.last() != 13,
    ensures
        complete(line.push(10) + rest) == seq![line] + complete(rest),
        complete(line.push(13).push(10) + rest) == seq![line] + complete(rest),
        consumed(line.push(10) + rest) == line.len() + 1 + consumed(rest),
        complete(line).len() == 0,
        consumed(line) == 0,
{
    let n = line.len() as int;
    let b = line.push(10) + rest;
    assert forall|k: int| 0 <= k < n implies b[k] != 10 by {
        assert(b[k] == line[k]);
    }
    lemma_newline_at(b, n);
    assert(b.take(n + 1) =~= line.push(10));
    assert(b.skip(n + 1) =~= rest);
    assert(line.push(10).drop_last() =~= line);
    assert(without_eol(line) == line);
    assert(without_eol(line.push(10)) == line);
    let c = line.push(13).push(10) + rest;
    assert forall|k: int| 0 <= k < n + 1 implies c[k] != 10 by {
        if k < n {
            assert(c[k] == line[k]);
        }
    }
    lemma_newline_at(c, n + 1);
    assert(c.take(n + 2) =~= line.push(13).push(10));
    assert(c.skip(n + 2) =~= rest);
    assert(line.push(13).drop_last() =~= line);
    assert(line.push(13).push(10).drop_last() =~= line.push(13));
    assert(without_eol(line.push(13)) == line);
    assert(without_eol(line.push(13).push(10)) == line);
    lemma_no_newline(line);
}

/// Reading goes on where it stopped; another file, or one that has become shorter, is
/// read from its front, and where nothing was added nothing is read.
pub proof fn law_where_reading_goes_on(r: TailReader, len: u64, inode: Option<u64>)
    requires
        r.position != u64::MAX,
    ensures
        r.last_inode is Some && inode is Some && r.last_inode != inode && len > 0 ==> r.start_of(
            len,
            inode,
        ) == Some(0u64),
        len < r.position && len > 0 ==> r.start_of(len, inode) == Some(0u64),
        !(r.last_inode is Some && inode is Some && r.last_inode != inode) && len > r.position
            ==> r.start_of(len, inode) == Some(r.position),
        !(r.last_inode is Some && inode is Some && r.last_inode != inode) && len == r.position
            ==> r.start_of(len, inode) is None,
{
}

} // verus!
