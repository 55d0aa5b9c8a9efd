//! Large files that git does not ignore.
use crate::doctor::check::{self, Category, CheckResult, CheckText, Status};
use crate::lists;
use crate::log_tail::reader;
use crate::order;
use crate::text;
use vstd::prelude::*;

verus! {

/// The size in bytes that a file may have.
pub const LIMIT_BYTES: u64 = 268_435_456;

/// The bytes of a megabyte.
pub const MB: u64 = 1_048_576;

#[derive(Debug, Clone, Copy)]
pub struct LargeUnignoredFiles;

pub open spec fn over(limit: u64) -> spec_fn((String, u64)) -> bool {
    |e: (String, u64)| e.1 > limit
}

/// Larger first.
pub open spec fn larger_first() -> spec_fn((String, u64), (String, u64)) -> bool {
    |a: (String, u64), b: (String, u64)| a.1 >= b.1
}

fn larger_before(a: &(String, u64), b: &(String, u64)) -> (r: bool)
    ensures
        r == larger_first()(*a, *b),
{
    a.1 >= b.1
}

/// The files above a limit, the largest first and files of one size in their
/// order.
pub fn files_over_limit(entries: Vec<(String, u64)>, limit: u64) -> (r: Vec<(String, u64)>)
    ensures
        r@ == order::sorted(entries@.filter(over(limit)), larger_first()),
{
    let ghost accepts = over(limit);
    let keep = |e: &(String, u64)| -> (b: bool)
        ensures
            b == accepts(*e),
        { e.1 > limit };
    let kept = lists::keep_if(entries, keep, Ghost(accepts));
    order::sort_stable(kept, larger_before, Ghost(larger_first()))
}

/// A file is listed if and only if it is above the limit, none is listed more
/// often than it is there, and no larger file stands behind a smaller one.
pub proof fn law_files_over_limit(entries: Seq<(String, u64)>, limit: u64)
    ensures
        ({
            let r = order::sorted(entries.filter(over(limit)), larger_first());
            &&& r.to_multiset() == entries.filter(over(limit)).to_multiset()
            &&& forall|i: int, j: int| 0 <= i < j < r.len() ==> (#[trigger] r[i]).1 >= (
            #[trigger] r[j]).1
            &&& forall|i: int| 0 <= i < r.len() ==> (#[trigger] r[i]).1 > limit
        }),
{
    let s = entries.filter(over(limit));
    let le = larger_first();
    let r = order::sorted(s, le);
    order::lemma_sorted(s, le);
    assert forall|i: int, j: int| 0 <= i < j < r.len() implies (#[trigger] r[i]).1 >= (
    #[trigger] r[j]).1 by {
        assert(le(r[i], r[j]));
    }
    assert forall|i: int| 0 <= i < r.len() implies (#[trigger] r[i]).1 > limit by {
        r.to_multiset_ensures();
        s.to_multiset_ensures();
        assert(r.contains(r[i]));
        assert(r.to_multiset().contains(r[i]));
        assert(s.to_multiset().contains(r[i]));
        assert(s.contains(r[i]));
        let k = choose|k: int| 0 <= k < s.len() && s[k] == r[i];
        entries.lemma_filter_pred(over(limit), k);
    }
}

// ── The list of git ──────────────────────────────────────────────────────────
pub open spec fn is_zero() -> spec_fn(u8) -> bool {
    |b: u8| b == 0
}

/// The non-empty pieces between zero bytes, from position `i` on.
pub open spec fn zero_pieces(b: Seq<u8>, i: int) -> Seq<Seq<u8>>
    decreases b.len() - i,
{
    if i < 0 || i >= b.len() {
        Seq::empty()
    } else {
        match lists::first_from(b, is_zero(), i) {
            Some(j) => if i <= j < b.len() {
                one_piece(b, i, j) + zero_pieces(b, j + 1)
            } else {
                Seq::empty()
            },
            None => one_piece(b, i, b.len() as int),
        }
    }
}

pub open spec fn one_piece(b: Seq<u8>, i: int, j: int) -> Seq<Seq<u8>> {
    if i < j {
        seq![b.subrange(i, j)]
    } else {
        Seq::empty()
    }
}

/// The paths that git lists, each behind a zero byte.
pub open spec fn listed(stdout: Seq<u8>) -> Seq<Seq<char>> {
    zero_pieces(stdout, 0).map_values(|p: Seq<u8>| reader::utf8_lossy(p))
}

fn bytes_between(b: &Vec<u8>, i: usize, j: usize) -> (r: Vec<u8>)
    requires
        i <= j <= b@.len(),
    ensures
        r@ == b@.subrange(i as int, j as int),
{
    let mut r: Vec<u8> = Vec::new();
    let mut k: usize = i;
    while k < j
        invariant
            i <= k <= j <= b@.len(),
            r@ == b@.subrange(i as int, k as int),
        decreases j - k,
    {
        r.push(b[k]);
        proof {
            assert(r@ =~= b@.subrange(i as int, k + 1));
        }
        k += 1;
    }
    r
}

fn push_piece(out: &mut Vec<String>, b: &Vec<u8>, i: usize, j: usize)
    requires
        i <= j <= b@.len(),
    ensures
        text::texts(final(out)@) == text::texts(old(out)@) + one_piece(
            b@,
            i as int,
            j as int,
        ).map_values(|p: Seq<u8>| reader::utf8_lossy(p)),
{
    let ghost before = text::texts(out@);
    if i < j {
        let piece = bytes_between(b, i, j);
        let s = reader::read_lossy(&piece);
        proof {
            text::lemma_texts_push(out@, s);
        }
        out.push(s);
    }
    proof {
        assert(text::texts(out@) =~= before + one_piece(b@, i as int, j as int).map_values(
            |p: Seq<u8>| reader::utf8_lossy(p),
        ));
    }
}

/// The paths in a list with a zero byte behind each.
pub fn listed_paths(stdout: &Vec<u8>) -> (r: Vec<String>)
    ensures
        text::texts(r@) == listed(stdout@),
{
    let ghost f = |p: Seq<u8>| reader::utf8_lossy(p);
    let mut out: Vec<String> = Vec::new();
    let mut start: usize = 0;
    let mut i: usize = 0;
    proof {
        assert(text::texts(out@) + zero_pieces(stdout@, 0).map_values(f) =~= listed(stdout@));
    }
    while i < stdout.len()
        invariant
            start <= i <= stdout@.len(),
            f == (|p: Seq<u8>| reader::utf8_lossy(p)),
            forall|k: int| start <= k < i ==> stdout@[k] != 0,
            text::texts(out@) + zero_pieces(stdout@, start as int).map_values(f) == listed(stdout@),
        decreases stdout.len() - i,
    {
        if stdout[i] == 0 {
            let ghost front = text::texts(out@);
            proof {
                lists::lemma_first_from(stdout@, is_zero(), start as int);
                let z = is_zero();
                assert(z(stdout@[i as int]));
                let j = lists::first_from(stdout@, is_zero(), start as int)->0;
                assert(z(stdout@[j]));
                assert(j == i) by {
                    if j < i {
                        assert(stdout@[j] != 0);
                    }
                }
            }
            push_piece(&mut out, stdout, start, i);
            proof {
                assert(zero_pieces(stdout@, start as int).map_values(f) =~= one_piece(
                    stdout@,
                    start as int,
                    i as int,
                ).map_values(f) + zero_pieces(stdout@, i + 1).map_values(f));
                assert(text::texts(out@) + zero_pieces(stdout@, i + 1).map_values(f) =~= front
                    + zero_pieces(stdout@, start as int).map_values(f));
            }
            start = i + 1;
        }
        i += 1;
    }
    proof {
        lists::lemma_first_from(stdout@, is_zero(), start as int);
        let z = is_zero();
        if lists::first_from(stdout@, z, start as int) is Some {
            assert(z(stdout@[lists::first_from(stdout@, z, start as int)->0]));
        }
        assert(zero_pieces(stdout@, start as int) =~= one_piece(
            stdout@,
            start as int,
            stdout@.len() as int,
        ));
    }
    push_piece(&mut out, stdout, start, stdout.len());
    out
}

/// What git listed, or what it said where it failed.
pub fn unignored_paths(success: bool, stdout: &Vec<u8>, stderr: &Vec<u8>) -> (r: Result<
    Vec<String>,
    String,
>)
    ensures
        match r {
            Ok(v) => success && text::texts(v@) == listed(stdout@),
            Err(e) => !success && e@ == text::trim(reader::utf8_lossy(stderr@)),
        },
{
    if success {
        Ok(listed_paths(stdout))
    } else {
        let s = reader::read_lossy(stderr);
        Err(text::trim_str(s.as_str()))
    }
}

// ── The check ────────────────────────────────────────────────────────────────
pub open spec fn file_line(e: (String, u64)) -> Seq<char> {
    e.0@ + " ("@ + text::numeral((e.1 / MB) as nat) + " MB)\n"@
}

/// A line for each file.
pub open spec fn file_lines(v: Seq<(String, u64)>) -> Seq<char>
    decreases v.len(),
{
    if v.len() == 0 {
        Seq::empty()
    } else {
        file_lines(v.drop_last()) + file_line(v.last())
    }
}

/// The result for the files that were found, or why they could not be listed.
pub open spec fn verdict(is_repo: bool, entries: Result<Vec<(String, u64)>, String>) -> CheckText {
    if !is_repo {
        check::plain(Status::Skip, "not a git repository; nothing to scan"@)
    } else {
        match entries {
            Err(e) => check::plain(Status::Warn, "could not list unignored files: "@ + e@),
            Ok(v) => {
                let large = order::sorted(v@.filter(over(LIMIT_BYTES)), larger_first());
                if large.len() == 0 {
                    check::plain(Status::Pass, "no unignored file over 256 MB"@)
                } else {
                    CheckText {
                        status: Status::Fail,
                        message: text::numeral(large.len())
                            + " file(s) over 256 MB not ignored by git"@,
                        details: Some(
                            file_lines(large)
                                + "move it out of the tree or add it to .gitignore"@,
                        ),
                    }
                }
            },
        }
    }
}

impl LargeUnignoredFiles {
    pub fn name(&self) -> (r: &'static str)
        ensures
            r@ == "large-unignored-files"@,
    {
        "large-unignored-files"
    }

    pub fn category(&self) -> (r: Category)
        ensures
            r == Category::Health,
    {
        Category::Health
    }

    /// The result of the check, from the files that git does not ignore with
    /// their sizes, or why they could not be listed.
    pub fn run(&self, is_repo: bool, entries: Result<Vec<(String, u64)>, String>) -> (r:
        CheckResult)
        ensures
            r@ == verdict(is_repo, entries),
    {
        if !is_repo {
            return check::result(Status::Skip, "not a git repository; nothing to scan");
        }
        let v = match entries {
            Ok(v) => v,
            Err(e) => {
                let mut m = "could not list unignored files: ".to_owned();
                m.append(e.as_str());
                return check::result(Status::Warn, m.as_str());
            },
        };
        let large = files_over_limit(v, LIMIT_BYTES);
        if large.len() == 0 {
            return check::result(Status::Pass, "no unignored file over 256 MB");
        }
        let mut details = String::new();
        let mut i: usize = 0;
        proof {
            assert(large@.take(0) =~= Seq::<(String, u64)>::empty());
            assert(details@ =~= Seq::<char>::empty());
        }
        while i < large.len()
            invariant
                i <= large@.len(),
                details@ == file_lines(large@.take(i as int)),
            decreases large.len() - i,
        {
            proof {
                assert(large@.take(i + 1).drop_last() =~= large@.take(i as int));
                assert(large@.take(i + 1).last() == large@[i as int]);
            }
            let ghost front = details@;
            let mb: u64 = large[i].1 / MB;
            let n = text::decimal(mb);
            details.append(large[i].0.as_str());
            details.append(" (");
            details.append(n.as_str());
            details.append(" MB)\n");
            proof {
                assert(details@ =~= front + file_line(large@[i as int]));
            }
            i += 1;
        }
        proof {
            assert(large@.take(large@.len() as int) =~= large@);
        }
        details.append("move it out of the tree or add it to .gitignore");
        let mut message = text::decimal(large.len() as u64);
        message.append(" file(s) over 256 MB not ignored by git");
        CheckResult { status: Status::Fail, message, details: Some(details) }
    }
}

/// The check fails if and only if a file of more than 256 MiB is not ignored; outside a
/// repository it is skipped, and where the files could not be listed it warns.
pub proof fn law_verdict(v: Vec<(String, u64)>, e: String)
    ensures
        (verdict(true, Ok(v)).status is Fail) == (exists|i: int|
            0 <= i < v@.len() && (#[trigger] v@[i]).1 > 256 * 1024 * 1024),
        (verdict(true, Ok(v)).status is Pass) == (forall|i: int|
            0 <= i < v@.len() ==> (#[trigger] v@[i]).1 <= 256 * 1024 * 1024),
        verdict(true, Err(e)).status is Warn,
        verdict(false, Ok(v)).status is Skip,
{
    let keep = over(LIMIT_BYTES);
    let kept = v@.filter(keep);
    let at = lists::lemma_filter_places(v@, keep);
    order::lemma_sorted(kept, larger_first());
    if kept.len() > 0 {
        assert(at.contains(at[0]));
        assert(v@[at[0]].1 > LIMIT_BYTES);
    } else {
        assert forall|i: int| 0 <= i < v@.len() implies (#[trigger] v@[i]).1 <= LIMIT_BYTES by {
            assert(!at.contains(i));
        }
    }
}

/// A path ends at the first zero byte, and the others are those behind it; an empty one
/// is none.
pub proof fn law_listed_paths(b: Seq<u8>, i: int, j: int)
    requires
        0 <= i <= j < b.len(),
        b[j] == 0,
        forall|k: int| i <= k < j ==> #[trigger] b[k] != 0,
    ensures
        i < j ==> zero_pieces(b, i) == seq![b.subrange(i, j)] + zero_pieces(b, j + 1),
        i == j ==> zero_pieces(b, i) == zero_pieces(b, j + 1),
        zero_pieces(b, b.len() as int).len() == 0,
{
    lists::lemma_first_from(b, is_zero(), i);
    match lists::first_from(b, is_zero(), i) {
        Some(k) => {
            assert(is_zero()(b[k]));
            assert(is_zero()(b[j]));
            if j < k {
                assert(!is_zero()(b[j]));
            }
            assert(k == j);
        },
        None => {
            assert(!is_zero()(b[j]));
        },
    }
    assert(zero_pieces(b, i) =~= one_piece(b, i, j) + zero_pieces(b, j + 1));
}

/// Each large file is told on a line with its name and its size in whole mebibytes.
pub proof fn law_file_lines(v: Seq<(String, u64)>, e: (String, u64))
    ensures
        file_lines(v.push(e)) == file_lines(v) + (e.0@ + " ("@ + text::numeral(
            (e.1 / 1_048_576) as nat,
        ) + " MB)\n"@),
        file_lines(Seq::empty()).len() == 0,
{
    assert(v.push(e).drop_last() =~= v);
}

} // verus!
