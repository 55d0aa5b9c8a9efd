//! The memory indexer: which files it takes, how it cuts a file into chunks,
//! what it makes of an old transcript, and what one run decides file by file.
use crate::assistant::{self, Assistant};
use crate::lists;
use crate::order;
use crate::text::{
    self, char_to_lowercase, contains_str, count_leading, ends_with_str, find_chars_from,
    from_chars, join_strings, occurs, split_char, split_words, starts_with_str, str_eq, substring,
    to_chars, to_lowercase, trim_chars, trim_str,
};
use vstd::prelude::*;
use vstd::slice::slice_subrange;
use vstd::string::StringSliceAdditionalSpecFns;
use vstd::utf8;

verus! {

/// Most words in a chunk.
pub const MAX_CHUNK_WORDS: usize = 400;

/// Words that a chunk shares with the one before it.
pub const OVERLAP_WORDS: usize = 80;

// ── Headings ─────────────────────────────────────────────────────────────────
/// The level and text of a markdown heading of level 1 to 4.
pub open spec fn heading(line: Seq<char>) -> Option<(nat, Seq<char>)> {
    let level = text::leading(line, '#');
    let rest = line.skip(level as int);
    if level == 0 || level > 4 || rest.len() == 0 || rest[0] != ' ' {
        None
    } else if text::trim(rest.skip(1)).len() == 0 {
        None
    } else {
        Some((level, text::trim(rest.skip(1))))
    }
}

fn heading_of(line: &[char]) -> (r: Option<(usize, String)>)
    ensures
        match r {
            Some((level, t)) => heading(line@) == Some((level as nat, t@)),
            None => heading(line@) is None,
        },
{
    let level: usize = count_leading(line, '#');
    if level == 0 || level > 4 || level == line.len() {
        return None;
    }
    proof {
        assert(line@.skip(level as int)[0] == line@[level as int]);
    }
    if line[level] != ' ' {
        return None;
    }
    let body = trim_chars(slice_subrange(line, level + 1, line.len()));
    proof {
        assert(line@.skip(level as int).skip(1) =~= line@.subrange(level + 1, line@.len() as int));
    }
    if body.len() == 0 {
        return None;
    }
    Some((level, from_chars(body)))
}

/// The level and text of `line` if it is a markdown heading (h1 to h4).
pub fn parse_heading(line: &str) -> (r: Option<(usize, String)>)
    ensures
        match r {
            Some((level, t)) => heading(line@) == Some((level as nat, t@)),
            None => heading(line@) is None,
        },
{
    let v = to_chars(line);
    heading_of(v.as_slice())
}

// ── Search without regard to case ────────────────────────────────────────────
/// The lower case of each character of `s`, one behind the other.
pub open spec fn lowered(s: Seq<char>) -> Seq<char>
    decreases s.len(),
{
    if s.len() == 0 {
        Seq::empty()
    } else {
        text::lowercase_char(s[0]) + lowered(s.drop_first())
    }
}

/// The lower case of what stands in `s` from `i` on begins with `needle`.
pub open spec fn matches_ci(s: Seq<char>, needle: Seq<char>, i: int) -> bool {
    text::starts_with(lowered(s.skip(i)), needle)
}

/// The first position at or after `i` where `needle` matches without regard
/// to case.
pub open spec fn find_ci_from(s: Seq<char>, needle: Seq<char>, i: int) -> Option<int>
    decreases s.len() - i,
{
    if i < 0 || i >= s.len() {
        None
    } else if matches_ci(s, needle, i) {
        Some(i)
    } else {
        find_ci_from(s, needle, i + 1)
    }
}

proof fn lemma_prefix_step(s: Seq<char>, p: Seq<char>)
    ensures
        p.len() == 0 ==> text::starts_with(s, p),
        p.len() > 0 && s.len() == 0 ==> !text::starts_with(s, p),
        p.len() > 0 && s.len() > 0 ==> text::starts_with(s, p) == (s[0] == p[0]
            && text::starts_with(s.drop_first(), p.drop_first())),
{
    if p.len() == 0 {
        assert(s.subrange(0, 0) =~= p);
    } else if s.len() > 0 {
        let q = p.drop_first();
        let t = s.drop_first();
        if text::starts_with(s, p) {
            assert(s.subrange(0, p.len() as int)[0] == p[0]);
            assert(t.subrange(0, q.len() as int) =~= q) by {
                assert forall|k: int| 0 <= k < q.len() implies t[k] == q[k] by {
                    assert(s.subrange(0, p.len() as int)[k + 1] == p[k + 1]);
                }
            }
        }
        if s[0] == p[0] && text::starts_with(t, q) {
            assert(s.subrange(0, p.len() as int) =~= p) by {
                assert forall|k: int| 0 <= k < p.len() implies s[k] == p[k] by {
                    if k > 0 {
                        assert(t.subrange(0, q.len() as int)[k - 1] == q[k - 1]);
                    }
                }
            }
        }
    }
}

/// Whether `needle` matches `s` at `i` without regard to case.
fn matches_ci_at(s: &[char], needle: &[char], i: usize) -> (b: bool)
    requires
        i <= s@.len(),
    ensures
        b == matches_ci(s@, needle@, i as int),
{
    let mut j: usize = i;
    let mut k: usize = 0;
    proof {
        assert(needle@.skip(0) =~= needle@);
    }
    while j < s.len()
        invariant
            i <= j <= s@.len(),
            k <= needle@.len(),
            matches_ci(s@, needle@, i as int) == text::starts_with(
                lowered(s@.skip(j as int)),
                needle@.skip(k as int),
            ),
        decreases s.len() - j,
    {
        let low = char_to_lowercase(s[j]);
        let ghost rest = lowered(s@.skip(j + 1));
        proof {
            assert(s@.skip(j as int)[0] == s@[j as int]);
            assert(s@.skip(j as int).drop_first() =~= s@.skip(j + 1));
            assert(low@.skip(0) + rest =~= lowered(s@.skip(j as int)));
        }
        let mut m: usize = 0;
        while m < low.len()
            invariant
                m <= low@.len(),
                k <= needle@.len(),
                matches_ci(s@, needle@, i as int) == text::starts_with(
                    low@.skip(m as int) + rest,
                    needle@.skip(k as int),
                ),
            decreases low.len() - m,
        {
            let ghost hay = low@.skip(m as int) + rest;
            let ghost want = needle@.skip(k as int);
            proof {
                lemma_prefix_step(hay, want);
            }
            if k == needle.len() {
                return true;
            }
            proof {
                assert(hay[0] == low@[m as int]);
                assert(want[0] == needle@[k as int]);
                assert(hay.drop_first() =~= low@.skip(m + 1) + rest);
                assert(want.drop_first() =~= needle@.skip(k + 1));
            }
            if low[m] != needle[k] {
                return false;
            }
            m += 1;
            k += 1;
        }
        proof {
            assert(low@.skip(m as int) + rest =~= rest);
        }
        j += 1;
    }
    proof {
        assert(lowered(s@.skip(j as int)) =~= Seq::<char>::empty());
        lemma_prefix_step(lowered(s@.skip(j as int)), needle@.skip(k as int));
    }
    k == needle.len()
}

fn find_ci_at(s: &[char], needle: &[char], start: usize) -> (r: Option<usize>)
    ensures
        match r {
            Some(i) => find_ci_from(s@, needle@, start as int) == Some(i as int) && start <= i
                < s@.len(),
            None => find_ci_from(s@, needle@, start as int) is None,
        },
{
    let mut i: usize = start;
    while i < s.len()
        invariant
            start <= i,
            find_ci_from(s@, needle@, start as int) == find_ci_from(s@, needle@, i as int),
        decreases s.len() - i,
    {
        if matches_ci_at(s, needle, i) {
            return Some(i);
        }
        i += 1;
    }
    None
}

/// How many bytes a character takes in UTF-8.
pub open spec fn utf8_len(c: char) -> int {
    if c as u32 <= 0x7f {
        1
    } else if c as u32 <= 0x7ff {
        2
    } else if c as u32 <= 0xffff {
        3
    } else {
        4
    }
}

pub(crate) fn utf8_width(c: char) -> (n: usize)
    ensures
        n == utf8_len(c),
        1 <= n <= 4,
{
    let code: u32 = c as u32;
    if code <= 0x7f {
        1
    } else if code <= 0x7ff {
        2
    } else if code <= 0xffff {
        3
    } else {
        4
    }
}

proof fn lemma_encode_add(a: Seq<char>, b: Seq<char>)
    ensures
        utf8::encode_utf8(a + b) == utf8::encode_utf8(a) + utf8::encode_utf8(b),
    decreases a.len(),
{
    if a.len() == 0 {
        assert(a + b =~= b);
        assert(utf8::encode_utf8(a) + utf8::encode_utf8(b) =~= utf8::encode_utf8(b));
    } else {
        assert((a + b).drop_first() =~= a.drop_first() + b);
        lemma_encode_add(a.drop_first(), b);
        assert(utf8::encode_utf8(a + b) =~= utf8::encode_utf8(a) + utf8::encode_utf8(b));
    }
}

/// How many bytes the first `i` characters of `s` take.
pub open spec fn byte_offset(s: Seq<char>, i: int) -> int {
    utf8::encode_utf8(s.take(i)).len() as int
}

proof fn lemma_byte_offset(s: Seq<char>, i: int)
    requires
        0 <= i <= s.len(),
    ensures
        byte_offset(s, i) <= utf8::encode_utf8(s).len(),
        i == 0 ==> byte_offset(s, i) == 0,
        i < s.len() ==> byte_offset(s, i + 1) == byte_offset(s, i) + utf8_len(s[i]),
{
    assert(s.take(i) + s.skip(i) =~= s);
    lemma_encode_add(s.take(i), s.skip(i));
    if i < s.len() {
        let one = seq![s[i]];
        assert(s.take(i) + one =~= s.take(i + 1));
        lemma_encode_add(s.take(i), one);
        assert(one.drop_first() =~= Seq::<char>::empty());
        assert(utf8::encode_utf8(one.drop_first()) =~= Seq::<u8>::empty());
        assert(one[0] == s[i]);
        utf8::char_is_scalar(s[i]);
        assert(utf8::encode_utf8(one) =~= utf8::encode_scalar(s[i] as u32));
    }
}

/// The byte offset of a character position.
fn offset_of(s: &str, chars: &[char], at: usize) -> (r: usize)
    requires
        chars@ == s@,
        at <= s@.len(),
    ensures
        r == byte_offset(s@, at as int),
{
    let all: usize = s.as_bytes().len();
    let mut bytes: usize = 0;
    let mut i: usize = 0;
    proof {
        lemma_byte_offset(s@, 0);
        assert(all == utf8::encode_utf8(s@).len());
    }
    while i < at
        invariant
            i <= at <= s@.len(),
            chars@ == s@,
            all == utf8::encode_utf8(s@).len(),
            bytes == byte_offset(s@, i as int),
        decreases at - i,
    {
        proof {
            lemma_byte_offset(s@, i as int);
            lemma_byte_offset(s@, i + 1);
        }
        bytes = bytes + utf8_width(chars[i]);
        i += 1;
    }
    bytes
}

/// The byte offset of the first character of `haystack` at which
/// `needle_lower`, which is in lower case already, matches without regard to
/// case.
pub fn find_ci(haystack: &str, needle_lower: &str) -> (r: Option<usize>)
    ensures
        needle_lower@.len() == 0 ==> r == Some(0usize),
        needle_lower@.len() > 0 ==> match find_ci_from(haystack@, needle_lower@, 0) {
            Some(i) => r matches Some(o) && o == byte_offset(haystack@, i),
            None => r is None,
        },
{
    let h = to_chars(haystack);
    let n = to_chars(needle_lower);
    if n.len() == 0 {
        return Some(0);
    }
    match find_ci_at(h.as_slice(), n.as_slice(), 0) {
        Some(i) => Some(offset_of(haystack, h.as_slice(), i)),
        None => None,
    }
}

// ── Summaries of a transcript ────────────────────────────────────────────────
/// Headings, in lower case, whose sections count as summaries.
pub open spec fn summary_headings() -> Seq<Seq<char>> {
    seq![
        "summary"@,
        "session summary"@,
        "notes for next session"@,
        "tasks"@,
        "files modified"@,
        "stats"@,
    ]
}

/// Bytes skipped from an end marker on: the marker and the close of its comment.
pub const END_MARKER_BYTES: u64 = 19;

/// The first position at least `bytes` bytes behind `i`, or the end.
pub open spec fn skip_bytes(s: Seq<char>, i: int, bytes: int) -> int
    decreases s.len() - i,
{
    if i < 0 || i >= s.len() || bytes <= 0 {
        i
    } else {
        skip_bytes(s, i + 1, bytes - utf8_len(s[i]))
    }
}

/// The last position in `low..=i` where `p` stands in `s`.
pub open spec fn rfind_from(s: Seq<char>, p: Seq<char>, low: int, i: int) -> Option<int>
    decreases i - low + 1,
{
    if i < low {
        None
    } else if text::occurs_at(s, p, i) {
        Some(i)
    } else {
        rfind_from(s, p, low, i - 1)
    }
}

proof fn lemma_skip_bytes(s: Seq<char>, i: int, bytes: int)
    requires
        0 <= i <= s.len(),
    ensures
        i <= skip_bytes(s, i, bytes) <= s.len(),
        i < s.len() && bytes > 0 ==> i < skip_bytes(s, i, bytes),
    decreases s.len() - i,
{
    if i < s.len() && bytes > 0 {
        lemma_skip_bytes(s, i + 1, bytes - utf8_len(s[i]));
    }
}

proof fn lemma_find_ci_from(s: Seq<char>, needle: Seq<char>, i: int)
    requires
        0 <= i,
    ensures
        match find_ci_from(s, needle, i) {
            Some(k) => i <= k < s.len() && matches_ci(s, needle, k) && forall|j: int|
                i <= j < k ==> !matches_ci(s, needle, j),
            None => forall|j: int| i <= j < s.len() ==> !matches_ci(s, needle, j),
        },
    decreases s.len() - i,
{
    if i < s.len() && !matches_ci(s, needle, i) {
        lemma_find_ci_from(s, needle, i + 1);
    }
}

/// A marked block: where its text starts, where it stops, and where the
/// search for the next one goes on.
pub struct Block {
    pub body: int,
    pub close: int,
    pub next: int,
}

/// The first block at or behind `from`: its body starts behind the comment
/// that holds the start marker, and stops at the comment that holds the end
/// marker, or at the end marker if no comment opens in between.
pub open spec fn block_at(s: Seq<char>, from: int) -> Option<Block> {
    match find_ci_from(s, "ecc:summary:start"@, from) {
        None => None,
        Some(start) => match text::find_from(s, "-->"@, start) {
            None => None,
            Some(comment) => match find_ci_from(s, "ecc:summary:end"@, comment + 3) {
                None => None,
                Some(end) => Some(
                    Block {
                        body: comment + 3,
                        close: match rfind_from(s, "<!--"@, comment + 3, end - 4) {
                            Some(open) => open,
                            None => end,
                        },
                        next: skip_bytes(s, end, END_MARKER_BYTES as int),
                    },
                ),
            },
        },
    }
}

pub proof fn lemma_block(s: Seq<char>, from: int)
    requires
        0 <= from,
    ensures
        match block_at(s, from) {
            Some(b) => from < b.next <= s.len() && 0 <= b.body <= b.close <= s.len(),
            None => true,
        },
{
    reveal_strlit("-->");
    if let Some(start) = find_ci_from(s, "ecc:summary:start"@, from) {
        lemma_find_ci_from(s, "ecc:summary:start"@, from);
        text::lemma_find_from(s, "-->"@, start);
        if let Some(comment) = text::find_from(s, "-->"@, start) {
            if let Some(end) = find_ci_from(s, "ecc:summary:end"@, comment + 3) {
                lemma_find_ci_from(s, "ecc:summary:end"@, comment + 3);
                lemma_skip_bytes(s, end, END_MARKER_BYTES as int);
                lemma_rfind(s, "<!--"@, comment + 3, end - 4);
            }
        }
    }
}

proof fn lemma_rfind(s: Seq<char>, p: Seq<char>, low: int, i: int)
    ensures
        match rfind_from(s, p, low, i) {
            Some(k) => low <= k <= i && text::occurs_at(s, p, k),
            None => true,
        },
    decreases i - low + 1,
{
    if i >= low && !text::occurs_at(s, p, i) {
        lemma_rfind(s, p, low, i - 1);
    }
}

/// The trimmed texts of the marked blocks at or behind `from`, empty ones
/// left out.
pub open spec fn marked_blocks(s: Seq<char>, from: int) -> Seq<Seq<char>>
    decreases s.len() - from,
{
    if from < 0 || from >= s.len() {
        Seq::empty()
    } else {
        match block_at(s, from) {
            None => Seq::empty(),
            Some(b) => {
                proof {
                    lemma_block(s, from);
                }
                kept(text::trim(s.subrange(b.body, b.close))) + marked_blocks(s, b.next)
            },
        }
    }
}

/// `t` alone, unless it is empty.
pub open spec fn kept(t: Seq<char>) -> Seq<Seq<char>> {
    if t.len() == 0 {
        Seq::empty()
    } else {
        seq![t]
    }
}

/// A line that opens or closes a summary section: a heading of level 1 to 3.
pub open spec fn is_section(line: Seq<char>) -> bool {
    heading(line) is Some && (heading(line)->0).0 <= 3
}

/// A heading of level 1 to 3 whose text names a summary.
pub open spec fn is_summary_heading(line: Seq<char>) -> bool {
    is_section(line) && summary_headings().contains(text::lowercase((heading(line)->0).1))
}

/// The first section line at or behind `i`, or the end.
pub open spec fn next_section(lines: Seq<Seq<char>>, i: int) -> int
    decreases lines.len() - i,
{
    if i < 0 || i >= lines.len() || is_section(lines[i]) {
        i
    } else {
        next_section(lines, i + 1)
    }
}

pub proof fn lemma_next_section(lines: Seq<Seq<char>>, i: int)
    requires
        0 <= i <= lines.len(),
    ensures
        i <= next_section(lines, i) <= lines.len(),
    decreases lines.len() - i,
{
    if i < lines.len() && !is_section(lines[i]) {
        lemma_next_section(lines, i + 1);
    }
}

pub open spec fn trimmed_lines(lines: Seq<Seq<char>>, i: int, j: int) -> Seq<char> {
    text::trim(text::join(lines.subrange(i, j), "\n"@))
}

/// The summary sections at or behind line `i`: each runs from its heading up
/// to the next section line.
pub open spec fn summary_sections(lines: Seq<Seq<char>>, i: int) -> Seq<Seq<char>>
    decreases lines.len() - i,
{
    if i < 0 || i >= lines.len() {
        Seq::empty()
    } else if is_summary_heading(lines[i]) {
        let j = next_section(lines, i + 1);
        proof {
            lemma_next_section(lines, i + 1);
        }
        kept(trimmed_lines(lines, i, j)) + summary_sections(lines, j)
    } else {
        summary_sections(lines, i + 1)
    }
}

/// The summaries of a transcript: its marked blocks, then its summary sections.
pub open spec fn summaries(content: Seq<char>) -> Seq<char> {
    text::join(
        marked_blocks(content, 0) + summary_sections(text::split(content, '\n'), 0),
        "\n\n"@,
    )
}

fn skip_bytes_from(s: &[char], start: usize, bytes: u64) -> (r: usize)
    requires
        start <= s@.len(),
        bytes <= 1000,
    ensures
        r == skip_bytes(s@, start as int, bytes as int),
        r <= s@.len(),
{
    let mut i: usize = start;
    let mut left: i64 = bytes as i64;
    while i < s.len() && left > 0
        invariant
            i <= s@.len(),
            -4 <= left <= 1000,
            skip_bytes(s@, start as int, bytes as int) == skip_bytes(s@, i as int, left as int),
        decreases s.len() - i,
    {
        left -= utf8_width(s[i]) as i64;
        i += 1;
    }
    i
}

fn rfind_between(s: &[char], p: &[char], low: usize, high: usize) -> (r: Option<usize>)
    requires
        low <= high,
        p@.len() == 4,
    ensures
        match r {
            Some(i) => rfind_from(s@, p@, low as int, high - 4) == Some(i as int) && low <= i
                <= high,
            None => rfind_from(s@, p@, low as int, high - 4) is None,
        },
{
    if high < 4 {
        return None;
    }
    let mut i: usize = high - 4;
    while i >= low
        invariant
            i <= high - 4,
            rfind_from(s@, p@, low as int, high - 4) == rfind_from(s@, p@, low as int, i as int),
        decreases i,
    {
        if occurs(s, p, i) {
            return Some(i);
        }
        if i == 0 {
            proof {
                assert(rfind_from(s@, p@, low as int, -1) is None);
            }
            return None;
        }
        i -= 1;
    }
    None
}

fn push_kept(out: &mut Vec<String>, t: String)
    ensures
        text::texts(final(out)@) == text::texts(old(out)@) + kept(t@),
{
    if t.as_str().is_empty() {
        proof {
            assert(text::texts(out@) + kept(t@) =~= text::texts(out@));
        }
    } else {
        proof {
            text::lemma_texts_push(out@, t);
            assert(text::texts(out@).push(t@) =~= text::texts(out@) + kept(t@));
        }
        out.push(t);
    }
}

fn collect_marked_blocks(s: &[char]) -> (out: Vec<String>)
    ensures
        text::texts(out@) == marked_blocks(s@, 0),
{
    let start_kw = to_chars("ecc:summary:start");
    let end_kw = to_chars("ecc:summary:end");
    let close = to_chars("-->");
    let open = to_chars("<!--");
    proof {
        reveal_strlit("-->");
        reveal_strlit("<!--");
    }
    let mut out: Vec<String> = Vec::new();
    let mut from: usize = 0;
    proof {
        assert(text::texts(out@) =~= Seq::<Seq<char>>::empty());
        assert(text::texts(out@) + marked_blocks(s@, 0) =~= marked_blocks(s@, 0));
    }
    while from < s.len()
        invariant
            from <= s@.len(),
            start_kw@ == "ecc:summary:start"@,
            end_kw@ == "ecc:summary:end"@,
            close@ == "-->"@,
            close@.len() == 3,
            open@ == "<!--"@,
            open@.len() == 4,
            marked_blocks(s@, 0) == text::texts(out@) + marked_blocks(s@, from as int),
        decreases s.len() - from,
    {
        proof {
            lemma_block(s@, from as int);
            assert(text::texts(out@) + Seq::<Seq<char>>::empty() =~= text::texts(out@));
        }
        let start: usize = match find_ci_at(s, start_kw.as_slice(), from) {
            Some(i) => i,
            None => {
                return out;
            },
        };
        proof {
            text::lemma_find_from(s@, "-->"@, start as int);
        }
        let comment: usize = match find_chars_from(s, close.as_slice(), start) {
            Some(i) => i,
            None => {
                return out;
            },
        };
        let body: usize = comment + 3;
        let end: usize = match find_ci_at(s, end_kw.as_slice(), body) {
            Some(i) => i,
            None => {
                return out;
            },
        };
        let stop: usize = match rfind_between(s, open.as_slice(), body, end) {
            Some(i) => i,
            None => end,
        };
        let block = from_chars(trim_chars(slice_subrange(s, body, stop)));
        let ghost before = text::texts(out@);
        let ghost t = block@;
        push_kept(&mut out, block);
        let next: usize = skip_bytes_from(s, end, END_MARKER_BYTES);
        proof {
            assert(before + (kept(t) + marked_blocks(s@, next as int)) =~= before + kept(t)
                + marked_blocks(s@, next as int));
        }
        from = next;
    }
    proof {
        assert(text::texts(out@) + Seq::<Seq<char>>::empty() =~= text::texts(out@));
    }
    out
}

fn names_summary(heading_text: &str) -> (b: bool)
    ensures
        b == summary_headings().contains(text::lowercase(heading_text@)),
{
    let low = to_lowercase(heading_text);
    let l = low.as_str();
    proof {
        let all = summary_headings();
        assert(all[0] == "summary"@);
        assert(all[1] == "session summary"@);
        assert(all[2] == "notes for next session"@);
        assert(all[3] == "tasks"@);
        assert(all[4] == "files modified"@);
        assert(all[5] == "stats"@);
    }
    str_eq(l, "summary") || str_eq(l, "session summary") || str_eq(l, "notes for next session")
        || str_eq(l, "tasks") || str_eq(l, "files modified") || str_eq(l, "stats")
}

fn line_is_section(line: &str) -> (b: bool)
    ensures
        b == is_section(line@),
{
    match parse_heading(line) {
        Some((level, t)) => level <= 3,
        None => false,
    }
}

fn line_is_summary_heading(line: &str) -> (b: bool)
    ensures
        b == is_summary_heading(line@),
{
    match parse_heading(line) {
        Some((level, t)) => level <= 3 && names_summary(t.as_str()),
        None => false,
    }
}

/// The lines from `i` up to `j`, joined and trimmed.
pub(crate) fn trimmed_block(lines: &Vec<String>, i: usize, j: usize) -> (t: String)
    requires
        i <= j <= lines@.len(),
    ensures
        t@ == trimmed_lines(text::texts(lines@), i as int, j as int),
{
    let mut part: Vec<String> = Vec::new();
    let mut k: usize = i;
    let ghost all = text::texts(lines@);
    proof {
        assert(text::texts(part@) =~= all.subrange(i as int, i as int));
    }
    while k < j
        invariant
            i <= k <= j <= lines@.len(),
            all == text::texts(lines@),
            text::texts(part@) == all.subrange(i as int, k as int),
        decreases j - k,
    {
        let line = lines[k].clone();
        proof {
            text::lemma_texts_push(part@, line);
            assert(all[k as int] == line@);
            assert(all.subrange(i as int, k + 1) =~= all.subrange(i as int, k as int).push(line@));
        }
        part.push(line);
        k += 1;
    }
    let joined = join_strings(&part, "\n");
    trim_str(joined.as_str())
}

fn collect_summary_sections(lines: &Vec<String>, found: Vec<String>) -> (out: Vec<String>)
    ensures
        text::texts(out@) == text::texts(found@) + summary_sections(text::texts(lines@), 0),
{
    let ghost all = text::texts(lines@);
    let ghost first = text::texts(found@);
    let mut out = found;
    let mut i: usize = 0;
    while i < lines.len()
        invariant
            i <= lines@.len(),
            all == text::texts(lines@),
            first + summary_sections(all, 0) == text::texts(out@) + summary_sections(all, i as int),
        decreases lines.len() - i,
    {
        proof {
            assert(all[i as int] == lines@[i as int]@);
        }
        if line_is_summary_heading(lines[i].as_str()) {
            let mut j: usize = i + 1;
            proof {
                lemma_next_section(all, i + 1);
            }
            while j < lines.len()
                invariant
                    i < j <= lines@.len(),
                    all == text::texts(lines@),
                    next_section(all, i + 1) == next_section(all, j as int),
                ensures
                    j == next_section(all, i + 1),
                    i < j <= lines@.len(),
                decreases lines.len() - j,
            {
                proof {
                    assert(all[j as int] == lines@[j as int]@);
                }
                if line_is_section(lines[j].as_str()) {
                    break;
                }
                j += 1;
            }
            let t = trimmed_block(lines, i, j);
            let ghost before = text::texts(out@);
            let ghost block = t@;
            push_kept(&mut out, t);
            proof {
                assert(before + (kept(block) + summary_sections(all, j as int)) =~= before + kept(
                    block,
                ) + summary_sections(all, j as int));
            }
            i = j;
        } else {
            i += 1;
        }
    }
    proof {
        assert(text::texts(out@) + Seq::<Seq<char>>::empty() =~= text::texts(out@));
    }
    out
}

/// Extracts the marked summary blocks and the named heading sections of a
/// transcript.
pub fn extract_summaries(content: &str) -> (r: String)
    ensures
        r@ == summaries(content@),
{
    let v = to_chars(content);
    let blocks = collect_marked_blocks(v.as_slice());
    let lines = split_char(content, '\n');
    let all = collect_summary_sections(&lines, blocks);
    join_strings(&all, "\n\n")
}

// ── Chunks ───────────────────────────────────────────────────────────────────
/// A piece of a file that is stored and found on its own.
#[derive(Debug, Clone)]
pub struct Chunk {
    pub heading: String,
    pub content: String,
}

/// The texts of a chunk.
pub struct ChunkText {
    pub heading: Seq<char>,
    pub content: Seq<char>,
}

impl View for Chunk {
    type V = ChunkText;

    open spec fn view(&self) -> ChunkText {
        ChunkText { heading: self.heading@, content: self.content@ }
    }
}

pub open spec fn chunk_texts(v: Seq<Chunk>) -> Seq<ChunkText> {
    v.map_values(|c: Chunk| c@)
}

/// The first heading line at or behind `i`, or the end.
pub open spec fn next_heading(lines: Seq<Seq<char>>, i: int) -> int
    decreases lines.len() - i,
{
    if i < 0 || i >= lines.len() || heading(lines[i]) is Some {
        i
    } else {
        next_heading(lines, i + 1)
    }
}

pub proof fn lemma_next_heading(lines: Seq<Seq<char>>, i: int)
    requires
        0 <= i <= lines.len(),
    ensures
        i <= next_heading(lines, i) <= lines.len(),
        next_heading(lines, i) < lines.len() ==> heading(lines[next_heading(lines, i)]) is Some,
    decreases lines.len() - i,
{
    if i < lines.len() && heading(lines[i]) is None {
        lemma_next_heading(lines, i + 1);
    }
}

/// The lines from `i` up to `j` as a chunk, unless they hold no text.
pub open spec fn piece(name: Seq<char>, lines: Seq<Seq<char>>, i: int, j: int) -> Seq<ChunkText> {
    let t = trimmed_lines(lines, i, j);
    if t.len() == 0 {
        Seq::empty()
    } else {
        seq![ChunkText { heading: name, content: t }]
    }
}

/// The pieces from the heading at line `i` on: each runs from its heading up
/// to the next one.
pub open spec fn headed_pieces(lines: Seq<Seq<char>>, i: int) -> Seq<ChunkText>
    decreases lines.len() - i,
{
    if i < 0 || i >= lines.len() {
        Seq::empty()
    } else {
        let j = next_heading(lines, i + 1);
        proof {
            lemma_next_heading(lines, i + 1);
        }
        piece((heading(lines[i])->0).1, lines, i, j) + headed_pieces(lines, j)
    }
}

/// The pieces of a file: what stands before the first heading, then one piece
/// for each heading.
pub open spec fn pieces(lines: Seq<Seq<char>>) -> Seq<ChunkText> {
    let first = next_heading(lines, 0);
    piece("(top)"@, lines, 0, first) + headed_pieces(lines, first)
}

/// The heading of the part with number `k`, counted from 0.
pub open spec fn part_heading(name: Seq<char>, k: int) -> Seq<char> {
    if k == 0 {
        name
    } else {
        name + " (part "@ + text::numeral((k + 1) as nat) + ")"@
    }
}

/// Where part `k` starts.
pub open spec fn part_start(k: int) -> int {
    k * (MAX_CHUNK_WORDS - OVERLAP_WORDS)
}

/// The parts from number `k` on of a piece with too many words.
pub open spec fn parts(name: Seq<char>, words: Seq<Seq<char>>, k: int) -> Seq<ChunkText>
    decreases words.len() + MAX_CHUNK_WORDS - part_start(k),
{
    if k < 0 || part_start(k) >= words.len() {
        Seq::empty()
    } else {
        let end = if part_start(k) + MAX_CHUNK_WORDS <= words.len() {
            part_start(k) + MAX_CHUNK_WORDS
        } else {
            words.len() as int
        };
        seq![
            ChunkText {
                heading: part_heading(name, k),
                content: text::join(words.subrange(part_start(k), end), " "@),
            },
        ] + parts(name, words, k + 1)
    }
}

/// A piece, or its parts where it has more words than a chunk may have.
pub open spec fn cut(c: ChunkText) -> Seq<ChunkText> {
    if text::words(c.content).len() <= MAX_CHUNK_WORDS {
        seq![c]
    } else {
        parts(c.heading, text::words(c.content), 0)
    }
}

pub open spec fn cut_all(s: Seq<ChunkText>) -> Seq<ChunkText>
    decreases s.len(),
{
    if s.len() == 0 {
        Seq::empty()
    } else {
        cut_all(s.drop_last()) + cut(s.last())
    }
}

/// The SHA-256 digest of the UTF-8 bytes of a text, in lower-case hexadecimal.
pub uninterp spec fn sha256_hex(s: Seq<char>) -> Seq<char>;

/// What tells two chunks of a file apart.
pub open spec fn chunk_key(c: ChunkText) -> (Seq<char>, Seq<char>) {
    (text::lowercase(c.heading), sha256_hex(c.content))
}

pub open spec fn has_key(s: Seq<ChunkText>, c: ChunkText) -> bool {
    exists|i: int| 0 <= i < s.len() && chunk_key(#[trigger] s[i]) == chunk_key(c)
}

/// `s` without the chunks whose key an earlier chunk has.
pub open spec fn distinct(s: Seq<ChunkText>) -> Seq<ChunkText>
    decreases s.len(),
{
    if s.len() == 0 {
        Seq::empty()
    } else if has_key(s.drop_last(), s.last()) {
        distinct(s.drop_last())
    } else {
        distinct(s.drop_last()).push(s.last())
    }
}

/// The chunks of a file.
pub open spec fn chunks(content: Seq<char>, deduplicate: bool) -> Seq<ChunkText> {
    let all = cut_all(pieces(text::split(content, '\n')));
    if deduplicate {
        distinct(all)
    } else {
        all
    }
}

/// `Sha256::update` on the UTF-8 bytes of the text, `finalize`, and the digest
/// written in hexadecimal. The digest depends on the text alone and has 32
/// bytes, so 64 digits.
#[verifier::external_body]
pub fn content_hash(text: &str) -> (r: String)
    ensures
        r@ == sha256_hex(text@),
        r@.len() == 64,
{
    let mut hasher = <sha2::Sha256 as sha2::Digest>::new();
    sha2::Digest::update(&mut hasher, text.as_bytes());
    format!("{:x}", sha2::Digest::finalize(hasher))
}

proof fn lemma_chunk_push(v: Seq<Chunk>, c: Chunk)
    ensures
        chunk_texts(v.push(c)) == chunk_texts(v).push(c@),
{
    assert(chunk_texts(v.push(c)) =~= chunk_texts(v).push(c@));
}

fn push_piece(out: &mut Vec<Chunk>, name: String, lines: &Vec<String>, i: usize, j: usize)
    requires
        i <= j <= lines@.len(),
    ensures
        chunk_texts(final(out)@) == chunk_texts(old(out)@) + piece(
            name@,
            text::texts(lines@),
            i as int,
            j as int,
        ),
{
    let t = trimmed_block(lines, i, j);
    let ghost all = text::texts(lines@);
    if t.as_str().is_empty() {
        proof {
            assert(chunk_texts(out@) + piece(name@, all, i as int, j as int) =~= chunk_texts(out@));
        }
    } else {
        let c = Chunk { heading: name, content: t };
        proof {
            lemma_chunk_push(out@, c);
            assert(chunk_texts(out@).push(c@) =~= chunk_texts(out@) + piece(
                c.heading@,
                all,
                i as int,
                j as int,
            ));
        }
        out.push(c);
    }
}

fn heading_from(lines: &Vec<String>, start: usize) -> (j: usize)
    requires
        start <= lines@.len(),
    ensures
        j == next_heading(text::texts(lines@), start as int),
        start <= j <= lines@.len(),
{
    let ghost all = text::texts(lines@);
    let mut j: usize = start;
    while j < lines.len()
        invariant
            start <= j <= lines@.len(),
            all == text::texts(lines@),
            next_heading(all, start as int) == next_heading(all, j as int),
        decreases lines.len() - j,
    {
        proof {
            assert(all[j as int] == lines@[j as int]@);
        }
        if parse_heading(lines[j].as_str()).is_some() {
            return j;
        }
        j += 1;
    }
    j
}

fn collect_pieces(lines: &Vec<String>) -> (out: Vec<Chunk>)
    ensures
        chunk_texts(out@) == pieces(text::texts(lines@)),
{
    let ghost all = text::texts(lines@);
    let mut out: Vec<Chunk> = Vec::new();
    let first: usize = heading_from(lines, 0);
    push_piece(&mut out, "(top)".to_owned(), lines, 0, first);
    proof {
        assert(chunk_texts(out@) =~= piece("(top)"@, all, 0, first as int));
        lemma_next_heading(all, 0);
    }
    let mut i: usize = first;
    while i < lines.len()
        invariant
            i <= lines@.len(),
            all == text::texts(lines@),
            i < lines@.len() ==> heading(all[i as int]) is Some,
            pieces(all) == chunk_texts(out@) + headed_pieces(all, i as int),
        decreases lines.len() - i,
    {
        proof {
            assert(all[i as int] == lines@[i as int]@);
            lemma_next_heading(all, i + 1);
        }
        let name = match parse_heading(lines[i].as_str()) {
            Some((level, t)) => t,
            None => String::new(),
        };
        let j: usize = heading_from(lines, i + 1);
        let ghost before = chunk_texts(out@);
        let ghost n = name@;
        push_piece(&mut out, name, lines, i, j);
        proof {
            let p = piece(n, all, i as int, j as int);
            assert(before + (p + headed_pieces(all, j as int)) =~= before + p + headed_pieces(
                all,
                j as int,
            ));
        }
        i = j;
    }
    proof {
        assert(chunk_texts(out@) + Seq::<ChunkText>::empty() =~= chunk_texts(out@));
    }
    out
}

fn part_name(name: &str, k: usize) -> (r: String)
    requires
        k < usize::MAX,
    ensures
        r@ == part_heading(name@, k as int),
{
    let mut r = name.to_owned();
    if k > 0 {
        r.append(" (part ");
        r.append(text::decimal((k + 1) as u64).as_str());
        r.append(")");
    }
    r
}

fn join_range(words: &Vec<String>, i: usize, j: usize) -> (r: String)
    requires
        i <= j <= words@.len(),
    ensures
        r@ == text::join(text::texts(words@).subrange(i as int, j as int), " "@),
{
    let mut part: Vec<String> = Vec::new();
    let ghost all = text::texts(words@);
    let mut k: usize = i;
    proof {
        assert(text::texts(part@) =~= all.subrange(i as int, i as int));
    }
    while k < j
        invariant
            i <= k <= j <= words@.len(),
            all == text::texts(words@),
            text::texts(part@) == all.subrange(i as int, k as int),
        decreases j - k,
    {
        let w = words[k].clone();
        proof {
            text::lemma_texts_push(part@, w);
            assert(all[k as int] == w@);
            assert(all.subrange(i as int, k + 1) =~= all.subrange(i as int, k as int).push(w@));
        }
        part.push(w);
        k += 1;
    }
    join_strings(&part, " ")
}

fn push_cut(out: &mut Vec<Chunk>, chunk: Chunk)
    ensures
        chunk_texts(final(out)@) == chunk_texts(old(out)@) + cut(chunk@),
{
    let words = split_words(chunk.content.as_str());
    let ghost all = text::texts(words@);
    let ghost first = chunk_texts(out@);
    if words.len() <= MAX_CHUNK_WORDS {
        proof {
            lemma_chunk_push(out@, chunk);
            assert(first.push(chunk@) =~= first + cut(chunk@));
        }
        out.push(chunk);
        return;
    }
    let n: usize = words.len();
    let mut i: usize = 0;
    let mut k: usize = 0;
    while i < n
        invariant
            n == words@.len() == all.len(),
            all == text::texts(words@),
            n > MAX_CHUNK_WORDS,
            i == part_start(k as int),
            k <= i,
            all == text::words(chunk.content@),
            first == chunk_texts(old(out)@),
            first + parts(chunk.heading@, all, 0) == chunk_texts(out@) + parts(
                chunk.heading@,
                all,
                k as int,
            ),
        decreases n + 320 - i,
    {
        let end: usize = if n - i >= MAX_CHUNK_WORDS {
            i + MAX_CHUNK_WORDS
        } else {
            n
        };
        let c = Chunk {
            heading: part_name(chunk.heading.as_str(), k),
            content: join_range(&words, i, end),
        };
        let ghost before = chunk_texts(out@);
        proof {
            lemma_chunk_push(out@, c);
            let rest = parts(chunk.heading@, all, k + 1);
            assert(before + (seq![c@] + rest) =~= before.push(c@) + rest);
        }
        out.push(c);
        k += 1;
        if n - i <= MAX_CHUNK_WORDS - OVERLAP_WORDS {
            proof {
                assert(parts(chunk.heading@, all, k as int) =~= Seq::<ChunkText>::empty());
                assert(chunk_texts(out@) + Seq::<ChunkText>::empty() =~= chunk_texts(out@));
            }
            return;
        }
        i += MAX_CHUNK_WORDS - OVERLAP_WORDS;
    }
    proof {
        assert(chunk_texts(out@) + Seq::<ChunkText>::empty() =~= chunk_texts(out@));
    }
}

fn cut_pieces(all: Vec<Chunk>) -> (out: Vec<Chunk>)
    ensures
        chunk_texts(out@) == cut_all(chunk_texts(all@)),
{
    let ghost src = chunk_texts(all@);
    let ghost items = all@;
    let mut out: Vec<Chunk> = Vec::new();
    proof {
        assert(src.take(0) =~= Seq::<ChunkText>::empty());
        assert(chunk_texts(out@) =~= Seq::<ChunkText>::empty());
    }
    for chunk in it: all
        invariant
            it.seq() == items,
            src == chunk_texts(items),
            chunk_texts(out@) == cut_all(src.take(it.index() as int)),
    {
        proof {
            assert(src.take(it.index() + 1).drop_last() =~= src.take(it.index() as int));
            assert(src.take(it.index() + 1).last() == chunk@);
        }
        push_cut(&mut out, chunk);
    }
    proof {
        assert(src.take(src.len() as int) =~= src);
    }
    out
}

/// The chunks that come first with their key.
fn deduplicated(all: Vec<Chunk>) -> (out: Vec<Chunk>)
    ensures
        chunk_texts(out@) == distinct(chunk_texts(all@)),
{
    let ghost src = chunk_texts(all@);
    let ghost items = all@;
    let mut out: Vec<Chunk> = Vec::new();
    let mut seen: Vec<(String, String)> = Vec::new();
    proof {
        assert(src.take(0) =~= Seq::<ChunkText>::empty());
        assert(chunk_texts(out@) =~= Seq::<ChunkText>::empty());
    }
    for chunk in it: all
        invariant
            it.seq() == items,
            src == chunk_texts(items),
            seen@.len() == it.index(),
            forall|i: int|
                0 <= i < seen@.len() ==> chunk_key(#[trigger] src[i]) == (
                    seen@[i].0@,
                    seen@[i].1@,
                ),
            chunk_texts(out@) == distinct(src.take(it.index() as int)),
    {
        let name = to_lowercase(chunk.heading.as_str());
        let hash = content_hash(chunk.content.as_str());
        let ghost idx = it.index() as int;
        let ghost done = src.take(idx);
        let mut known: bool = false;
        let mut i: usize = 0;
        proof {
            assert(src.take(it.index() + 1).drop_last() =~= done);
            assert(src.take(it.index() + 1).last() == chunk@);
        }
        while i < seen.len()
            invariant
                i <= seen@.len() == done.len(),
                0 <= idx < src.len(),
                done == src.take(idx),
                name@ == text::lowercase(chunk.heading@),
                hash@ == sha256_hex(chunk.content@),
                forall|i: int|
                    0 <= i < seen@.len() ==> chunk_key(#[trigger] src[i]) == (
                        seen@[i].0@,
                        seen@[i].1@,
                    ),
                known == exists|k: int|
                    0 <= k < i && chunk_key(#[trigger] done[k]) == chunk_key(chunk@),
            decreases seen.len() - i,
        {
            proof {
                assert(done[i as int] == src[i as int]);
            }
            if seen[i].0 == name && seen[i].1 == hash {
                known = true;
                proof {
                    assert(chunk_key(done[i as int]) == chunk_key(chunk@));
                }
            }
            i += 1;
        }
        proof {
            assert(known == has_key(done, chunk@));
            assert(chunk_key(src[it.index() as int]) == (name@, hash@));
        }
        seen.push((name, hash));
        if !known {
            proof {
                lemma_chunk_push(out@, chunk);
            }
            out.push(chunk);
        }
    }
    proof {
        assert(src.take(src.len() as int) =~= src);
    }
    out
}

/// Splits markdown into chunks by heading, then by word count.
pub fn chunk_by_heading(content: &str, deduplicate: bool) -> (r: Vec<Chunk>)
    ensures
        chunk_texts(r@) == chunks(content@, deduplicate),
{
    let lines = split_char(content, '\n');
    let cut = cut_pieces(collect_pieces(&lines));
    if deduplicate {
        deduplicated(cut)
    } else {
        cut
    }
}

// ── Paths ────────────────────────────────────────────────────────────────────
/// Names of directories whose content is never indexed.
pub open spec fn skip_patterns(name: Seq<char>) -> Seq<Seq<char>> {
    seq![
        ".hex"@,
        assistant::directory(name),
        ".sessions"@,
        "node_modules"@,
        ".git"@,
        "_archive"@,
        "hex-archive"@,
    ]
}

/// A path component begins with `pat`.
pub open spec fn has_component(rel_path: Seq<char>, pat: Seq<char>) -> bool {
    text::starts_with(rel_path, pat) || text::contains(rel_path, "/"@ + pat)
}

pub open spec fn skipped(name: Seq<char>, rel_path: Seq<char>) -> bool {
    exists|i: int|
        0 <= i < skip_patterns(name).len() && has_component(
            rel_path,
            #[trigger] skip_patterns(name)[i],
        )
}

fn path_has_component(rel_path: &str, pat: &str) -> (b: bool)
    ensures
        b == has_component(rel_path@, pat@),
{
    let mut slashed = "/".to_owned();
    slashed.append(pat);
    starts_with_str(rel_path, pat) || contains_str(rel_path, slashed.as_str())
}

/// Whether a workspace-relative path lies in a directory that is never indexed.
pub fn should_skip(assistant: &Assistant, rel_path: &str) -> (b: bool)
    ensures
        b == skipped(assistant.name@, rel_path@),
{
    proof {
        let all = skip_patterns(assistant.name@);
        assert(all[0] == ".hex"@);
        assert(all[1] == assistant::directory(assistant.name@));
        assert(all[2] == ".sessions"@);
        assert(all[3] == "node_modules"@);
        assert(all[4] == ".git"@);
        assert(all[5] == "_archive"@);
        assert(all[6] == "hex-archive"@);
    }
    let own = assistant.own_directory();
    path_has_component(rel_path, ".hex") || path_has_component(rel_path, own.as_str())
        || path_has_component(rel_path, ".sessions") || path_has_component(rel_path, "node_modules")
        || path_has_component(rel_path, ".git") || path_has_component(rel_path, "_archive")
        || path_has_component(rel_path, "hex-archive")
}

pub open spec fn private_path(rel_path: Seq<char>) -> bool {
    ||| text::starts_with(rel_path, "me/"@)
    ||| text::starts_with(rel_path, "people/"@)
    ||| text::starts_with(rel_path, "raw/"@)
}

/// Whether the file lives under a sensitive prefix.
pub fn is_private(rel_path: &str) -> (b: bool)
    ensures
        b == private_path(rel_path@),
{
    starts_with_str(rel_path, "me/") || starts_with_str(rel_path, "people/") || starts_with_str(
        rel_path,
        "raw/",
    )
}

/// The ranking weight of a source, in tenths.
pub open spec fn source_weight(rel_path: Seq<char>, old_transcript: bool) -> u32 {
    if text::starts_with(rel_path, "raw/transcripts"@) {
        if old_transcript {
            3
        } else {
            5
        }
    } else if text::starts_with(rel_path, "me/decisions/"@) || text::starts_with(
        rel_path,
        "people/"@,
    ) {
        15
    } else if text::starts_with(rel_path, "me/"@) || text::starts_with(rel_path, "projects/"@)
        || text::starts_with(rel_path, "evolution/"@) {
        12
    } else if text::starts_with(rel_path, "landings/"@) || text::starts_with(
        rel_path,
        "raw/research"@,
    ) {
        10
    } else if text::starts_with(rel_path, "raw/captures"@) {
        8
    } else {
        10
    }
}

/// The ranking weight of a source, in tenths.
pub fn get_source_weight(rel_path: &str, is_old_transcript: bool) -> (w: u32)
    ensures
        w == source_weight(rel_path@, is_old_transcript),
{
    if starts_with_str(rel_path, "raw/transcripts") {
        return if is_old_transcript {
            3
        } else {
            5
        };
    }
    if starts_with_str(rel_path, "me/decisions/") {
        return 15;
    }
    if starts_with_str(rel_path, "people/") {
        return 15;
    }
    if starts_with_str(rel_path, "me/") {
        return 12;
    }
    if starts_with_str(rel_path, "projects/") {
        return 12;
    }
    if starts_with_str(rel_path, "evolution/") {
        return 12;
    }
    if starts_with_str(rel_path, "landings/") {
        return 10;
    }
    if starts_with_str(rel_path, "raw/research") {
        return 10;
    }
    if starts_with_str(rel_path, "raw/captures") {
        return 8;
    }
    10
}

/// Days for which a transcript is indexed in full.
pub const TRANSCRIPT_HOT_DAYS: i64 = 7;

/// The position of the last `c` in `s`.
pub open spec fn last_index(s: Seq<char>, c: char) -> Option<int>
    decreases s.len(),
{
    if s.len() == 0 {
        None
    } else if s.last() == c {
        Some(s.len() - 1)
    } else {
        last_index(s.drop_last(), c)
    }
}

/// A file name without its extension: a dot at the front opens none.
pub open spec fn file_stem(name: Seq<char>) -> Seq<char> {
    if name == ".."@ {
        Seq::empty()
    } else {
        match last_index(name, '.') {
            Some(i) => if i == 0 {
                name
            } else {
                name.take(i)
            },
            None => name,
        }
    }
}

/// The day, counted in the proleptic Gregorian calendar from the first of
/// January of year 1 as day 1, that a text of the form `%Y-%m-%d` names.
pub uninterp spec fn day_of_date(s: Seq<char>) -> Option<i32>;

/// `NaiveDate::parse_from_str` with the format `%Y-%m-%d`, and the day number
/// that `num_days_from_ce` gives for the date. Both depend on the text alone.
#[verifier::external_body]
pub(crate) fn parse_day(s: &str) -> (r: Option<i32>)
    ensures
        r == day_of_date(s@),
{
    match chrono::NaiveDate::parse_from_str(s, "%Y-%m-%d") {
        Ok(date) => Some(chrono::Datelike::num_days_from_ce(&date)),
        Err(_) => None,
    }
}

fn find_last(s: &[char], c: char) -> (r: Option<usize>)
    ensures
        match r {
            Some(i) => last_index(s@, c) == Some(i as int) && i < s@.len(),
            None => last_index(s@, c) is None,
        },
{
    let mut n: usize = s.len();
    proof {
        assert(s@.take(n as int) =~= s@);
    }
    while n > 0
        invariant
            n <= s@.len(),
            last_index(s@, c) == last_index(s@.take(n as int), c),
        decreases n,
    {
        proof {
            assert(s@.take(n as int).last() == s@[n - 1]);
            assert(s@.take(n as int).drop_last() =~= s@.take(n - 1));
        }
        if s[n - 1] == c {
            return Some(n - 1);
        }
        n -= 1;
    }
    None
}

fn stem_of(name: &str) -> (r: String)
    ensures
        r@ == file_stem(name@),
{
    if str_eq(name, "..") {
        return String::new();
    }
    let v = to_chars(name);
    match find_last(v.as_slice(), '.') {
        Some(i) => {
            if i == 0 {
                name.to_owned()
            } else {
                proof {
                    assert(v@.subrange(0, i as int) =~= v@.take(i as int));
                }
                substring(v.as_slice(), 0, i)
            }
        },
        None => name.to_owned(),
    }
}

/// What the age of a transcript says: by the date in its name where there is
/// one, else by its time of modification.
pub open spec fn old_transcript(day: Option<i32>, today: int, modified_long_ago: bool) -> bool {
    match day {
        Some(d) => today - d > TRANSCRIPT_HOT_DAYS,
        None => modified_long_ago,
    }
}

/// Decides the age of a transcript from the day that its name gives.
pub fn transcript_is_old(day: Option<i32>, today: i32, modified_long_ago: bool) -> (b: bool)
    ensures
        b == old_transcript(day, today as int, modified_long_ago),
{
    match day {
        Some(d) => today as i64 - d as i64 > TRANSCRIPT_HOT_DAYS,
        None => modified_long_ago,
    }
}

/// Whether a transcript is past the days for which it is indexed in full.
/// `today` counts days as [`day_of_date`] does; `modified_long_ago` says
/// whether the file was last modified more than that many days ago.
pub fn is_old_transcript(file_name: &str, today: i32, modified_long_ago: bool) -> (b: bool)
    ensures
        b == old_transcript(day_of_date(file_stem(file_name@)), today as int, modified_long_ago),
{
    let stem = stem_of(file_name);
    transcript_is_old(parse_day(stem.as_str()), today, modified_long_ago)
}

// ── Discovery ────────────────────────────────────────────────────────────────
/// A directory that is searched for files.
#[derive(Debug, Clone)]
pub struct SourceRoot {
    pub relative: String,
    pub recursive: bool,
    pub strategy: String,
}

pub struct RootText {
    pub relative: Seq<char>,
    pub recursive: bool,
    pub strategy: Seq<char>,
}

impl View for SourceRoot {
    type V = RootText;

    open spec fn view(&self) -> RootText {
        RootText {
            relative: self.relative@,
            recursive: self.recursive,
            strategy: self.strategy@,
        }
    }
}

pub open spec fn root(relative: Seq<char>, recursive: bool, strategy: Seq<char>) -> RootText {
    RootText { relative, recursive, strategy }
}

/// The directories that are searched, in order: the workspace itself without
/// its subdirectories, then the others whole. Old transcripts are tiered.
pub open spec fn roots() -> Seq<RootText> {
    seq![
        root("."@, false, "full"@),
        root("me"@, true, "full"@),
        root("projects"@, true, "full"@),
        root("people"@, true, "full"@),
        root("evolution"@, true, "full"@),
        root("landings"@, true, "full"@),
        root("raw/research"@, true, "full"@),
        root("raw/captures"@, true, "full"@),
        root("raw/transcripts"@, true, "tiered"@),
        root("raw/docs"@, true, "full"@),
        root("raw/messages"@, true, "full"@),
        root("raw/calendar"@, true, "full"@),
    ]
}

fn make_root(relative: &str, recursive: bool, strategy: &str) -> (r: SourceRoot)
    ensures
        r@ == root(relative@, recursive, strategy@),
{
    SourceRoot { relative: relative.to_owned(), recursive, strategy: strategy.to_owned() }
}

/// The directories that are searched, in order.
pub fn source_roots() -> (r: Vec<SourceRoot>)
    ensures
        r@.map_values(|s: SourceRoot| s@) == roots(),
{
    let mut r: Vec<SourceRoot> = Vec::new();
    r.push(make_root(".", false, "full"));
    r.push(make_root("me", true, "full"));
    r.push(make_root("projects", true, "full"));
    r.push(make_root("people", true, "full"));
    r.push(make_root("evolution", true, "full"));
    r.push(make_root("landings", true, "full"));
    r.push(make_root("raw/research", true, "full"));
    r.push(make_root("raw/captures", true, "full"));
    r.push(make_root("raw/transcripts", true, "tiered"));
    r.push(make_root("raw/docs", true, "full"));
    r.push(make_root("raw/messages", true, "full"));
    r.push(make_root("raw/calendar", true, "full"));
    proof {
        assert(r@.map_values(|s: SourceRoot| s@) =~= roots());
    }
    r
}

/// What becomes of an entry that the walk meets.
#[derive(Debug, Clone, Copy, PartialEq, Eq, Structural)]
pub enum EntryStep {
    Keep,
    Drop,
    /// The entry lies outside the workspace.
    Escaped,
}

/// The entry itself is always kept at depth 0; a link never is; else the skip
/// rules decide on the workspace-relative path.
pub fn keep_discovery_entry(
    assistant: &Assistant,
    depth: usize,
    is_symlink: bool,
    rel_path: Option<&str>,
) -> (r: EntryStep)
    ensures
        (r is Keep) == (depth == 0 || !is_symlink && rel_path is Some && !skipped(
            assistant.name@,
            rel_path->0@,
        )),
        (r is Escaped) == (depth != 0 && !is_symlink && rel_path is None),
{
    if depth == 0 {
        return EntryStep::Keep;
    }
    if is_symlink {
        return EntryStep::Drop;
    }
    match rel_path {
        Some(rel) => if should_skip(assistant, rel) {
            EntryStep::Drop
        } else {
            EntryStep::Keep
        },
        None => EntryStep::Escaped,
    }
}

/// A file or directory that the walk of one root has met.
#[derive(Debug, Clone)]
pub struct FoundEntry {
    /// The path below the workspace, with `/` between components.
    pub path: String,
    /// The last component, if it is Unicode text.
    pub name: Option<String>,
    pub depth: usize,
    pub is_file: bool,
    /// Whether [`is_old_transcript`] holds of it.
    pub old: bool,
}

pub open spec fn is_md(e: FoundEntry) -> bool {
    e.name is Some && text::ends_with(e.name->0@, ".md"@)
}

pub open spec fn is_txt(e: FoundEntry) -> bool {
    e.name is Some && text::ends_with(e.name->0@, ".txt"@)
}

/// Regular files named `*.md` or `*.txt` are indexed.
pub open spec fn eligible(e: FoundEntry) -> bool {
    e.depth > 0 && e.is_file && (is_md(e) || is_txt(e))
}

/// Order of paths component by component: the separator comes before every
/// other character.
pub open spec fn path_le(a: Seq<char>, b: Seq<char>) -> bool {
    text::text_le(text::replace_char(a, '/', '\0'), text::replace_char(b, '/', '\0'))
}

/// Markdown files come first, then text files, each by path.
pub open spec fn entry_le(a: FoundEntry, b: FoundEntry) -> bool {
    if is_md(a) == is_md(b) {
        path_le(a.path@, b.path@)
    } else {
        is_md(a)
    }
}

/// How one file of a root with the given strategy is indexed.
pub open spec fn file_strategy(strategy: Seq<char>, old: bool) -> Seq<char> {
    if strategy == "tiered"@ {
        if old {
            "summary"@
        } else {
            "full"@
        }
    } else {
        strategy
    }
}

/// The paths that one root contributes, in order, each with its strategy.
pub open spec fn selected(found: Seq<FoundEntry>, strategy: Seq<char>) -> Seq<
    (Seq<char>, Seq<char>),
> {
    order::sorted(
        found.filter(|e: FoundEntry| eligible(e)),
        |a: FoundEntry, b: FoundEntry| entry_le(a, b),
    ).map_values(|e: FoundEntry| (e.path@, file_strategy(strategy, e.old)))
}

/// The texts of pairs of strings.
pub open spec fn pair_texts(v: Seq<(String, String)>) -> Seq<(Seq<char>, Seq<char>)> {
    v.map_values(|p: (String, String)| (p.0@, p.1@))
}

/// The paths that the roots from number 0 up to `n` contribute.
pub open spec fn indexable(found: Seq<Vec<FoundEntry>>, n: int) -> Seq<(Seq<char>, Seq<char>)>
    decreases n,
{
    if n <= 0 {
        Seq::empty()
    } else {
        indexable(found, n - 1) + selected(found[n - 1]@, roots()[n - 1].strategy)
    }
}

fn name_ends(e: &FoundEntry, suffix: &str) -> (b: bool)
    ensures
        b == (e.name is Some && text::ends_with(e.name->0@, suffix@)),
{
    match &e.name {
        Some(n) => ends_with_str(n.as_str(), suffix),
        None => false,
    }
}

fn entry_before(a: &FoundEntry, b: &FoundEntry) -> (r: bool)
    ensures
        r == entry_le(*a, *b),
{
    let first = name_ends(a, ".md");
    if first == name_ends(b, ".md") {
        let x = text::replace(a.path.as_str(), '/', '\0');
        let y = text::replace(b.path.as_str(), '/', '\0');
        text::str_le(x.as_str(), y.as_str())
    } else {
        first
    }
}

/// The files of one root, in order, each with its strategy.
pub fn collect_source_root(found: Vec<FoundEntry>, strategy: &str) -> (r: Vec<(String, String)>)
    ensures
        pair_texts(r@) == selected(found@, strategy@),
{
    let ghost all = found@;
    let ghost keep = |e: FoundEntry| eligible(e);
    let ghost le = |a: FoundEntry, b: FoundEntry| entry_le(a, b);
    let mut files: Vec<FoundEntry> = Vec::new();
    proof {
        reveal(Seq::filter);
        assert(all.take(0) =~= Seq::<FoundEntry>::empty());
        assert(files@ =~= all.take(0).filter(keep));
    }
    for e in it: found
        invariant
            it.seq() == all,
            keep == (|e: FoundEntry| eligible(e)),
            files@ == all.take(it.index() as int).filter(keep),
    {
        proof {
            reveal(Seq::filter);
            assert(all.take(it.index() + 1).drop_last() =~= all.take(it.index() as int));
            assert(all.take(it.index() + 1).last() == e);
        }
        if e.depth > 0 && e.is_file && (name_ends(&e, ".md") || name_ends(&e, ".txt")) {
            files.push(e);
        }
    }
    proof {
        assert(all.take(all.len() as int) =~= all);
    }
    let ordered = order::sort_stable(files, entry_before, Ghost(le));
    let ghost list = ordered@;
    let ghost row = |e: FoundEntry| (e.path@, file_strategy(strategy@, e.old));
    let mut out: Vec<(String, String)> = Vec::new();
    proof {
        assert(pair_texts(out@) =~= list.take(0).map_values(row));
    }
    for e in it: ordered
        invariant
            it.seq() == list,
            row == (|e: FoundEntry| (e.path@, file_strategy(strategy@, e.old))),
            pair_texts(out@) == list.take(it.index() as int).map_values(row),
    {
        let s = if str_eq(strategy, "tiered") {
            if e.old {
                "summary".to_owned()
            } else {
                "full".to_owned()
            }
        } else {
            strategy.to_owned()
        };
        let ghost before = out@;
        out.push((e.path, s));
        proof {
            assert(pair_texts(out@) =~= pair_texts(before).push(row(e)));
            assert(list.take(it.index() + 1).map_values(row) =~= list.take(
                it.index() as int,
            ).map_values(row).push(row(e)));
        }
    }
    proof {
        assert(list.take(list.len() as int) =~= list);
        assert(selected(all, strategy@) == list.map_values(row));
    }
    out
}

/// All indexable files, given what the walk of each of [`source_roots`] met.
pub fn get_indexable_files(found: Vec<Vec<FoundEntry>>) -> (r: Vec<(String, String)>)
    requires
        found@.len() == roots().len(),
    ensures
        pair_texts(r@) == indexable(found@, roots().len() as int),
{
    let list = source_roots();
    let ghost all = found@;
    let mut out: Vec<(String, String)> = Vec::new();
    let mut i: usize = 0;
    proof {
        assert(list@.map_values(|s: SourceRoot| s@).len() == list@.len());
        assert(pair_texts(out@) =~= indexable(all, 0));
    }
    for entries in it: found
        invariant
            it.seq() == all,
            i == it.index(),
            all.len() == roots().len() == list@.len(),
            list@.map_values(|s: SourceRoot| s@) == roots(),
            pair_texts(out@) == indexable(all, i as int),
    {
        proof {
            assert(list@.map_values(|s: SourceRoot| s@)[i as int] == list@[i as int]@);
        }
        let mut part = collect_source_root(entries, list[i].strategy.as_str());
        let ghost a = out@;
        let ghost b = part@;
        out.append(&mut part);
        proof {
            assert(pair_texts(out@) =~= pair_texts(a) + pair_texts(b));
        }
        i += 1;
    }
    out
}

// ── Indexing one file ────────────────────────────────────────────────────────
/// What is stored for one file.
#[derive(Debug, Clone)]
pub struct FilePlan {
    pub hash: String,
    pub private: bool,
    /// Ranking weight of each chunk, in tenths.
    pub weight: u32,
    pub chunks: Vec<Chunk>,
}

/// The chunks of a file under a strategy: an old transcript is cut from its
/// summaries, and has no chunk if it has none.
pub open spec fn planned_chunks(content: Seq<char>, strategy: Seq<char>) -> Seq<ChunkText> {
    if strategy == "summary"@ {
        if text::trim(summaries(content)).len() == 0 {
            Seq::empty()
        } else {
            chunks(summaries(content), true)
        }
    } else {
        chunks(content, true)
    }
}

/// What indexing a file stores: its hash, its privacy, its weight and its chunks.
pub fn plan_file(rel_path: &str, content: &str, strategy: &str) -> (r: FilePlan)
    ensures
        r.hash@ == sha256_hex(content@),
        r.private == private_path(rel_path@),
        r.weight == source_weight(rel_path@, strategy@ == "summary"@),
        chunk_texts(r.chunks@) == planned_chunks(content@, strategy@),
{
    let hash = content_hash(content);
    let private = is_private(rel_path);
    let summary = str_eq(strategy, "summary");
    let weight: u32 = get_source_weight(rel_path, summary);
    if summary {
        let s = extract_summaries(content);
        let t = trim_str(s.as_str());
        if t.as_str().is_empty() {
            let none: Vec<Chunk> = Vec::new();
            proof {
                assert(chunk_texts(none@) =~= Seq::<ChunkText>::empty());
            }
            return FilePlan { hash, private, weight, chunks: none };
        }
        return FilePlan { hash, private, weight, chunks: chunk_by_heading(s.as_str(), true) };
    }
    FilePlan { hash, private, weight, chunks: chunk_by_heading(content, true) }
}

/// Chunks that are embedded in one call.
pub const EMBED_BATCH: usize = 8;

/// What came of embedding and storing one batch.
#[derive(Debug, Clone, Copy, PartialEq, Eq, Structural)]
pub enum BatchOutcome {
    /// The embedder failed.
    Failed,
    /// The embedder gave this many vectors, and this many of them were stored.
    Vectors { got: usize, stored: usize },
}

/// What the next step of embedding a file is.
#[derive(Debug, Clone, Copy, PartialEq, Eq, Structural)]
pub enum BatchStep {
    /// Embed the chunks from the first number up to the second.
    Embed(usize, usize),
    Done,
}

/// Embedding the chunks of one file batch by batch: each batch is stored
/// before the next one is embedded.
#[derive(Debug, Clone, Copy)]
pub struct EmbedRun {
    total: usize,
    next: usize,
    stored: usize,
    stopped: bool,
    patient: bool,
}

impl EmbedRun {
    /// How many chunks there are.
    pub closed spec fn total(&self) -> int {
        self.total as int
    }

    /// Chunks before this one have been handed to the embedder.
    pub closed spec fn next(&self) -> int {
        self.next as int
    }

    pub closed spec fn stored_count(&self) -> int {
        self.stored as int
    }

    /// Whether the embedder has failed.
    pub closed spec fn stopped(&self) -> bool {
        self.stopped
    }

    /// Whether a failure of the embedder only costs its batch.
    pub closed spec fn patient(&self) -> bool {
        self.patient
    }

    /// No more vectors are stored than chunks were handed out.
    pub open spec fn wf(&self) -> bool {
        0 <= self.stored_count() <= self.next() <= self.total()
    }

    pub open spec fn batch_end(&self) -> int {
        if self.next() + EMBED_BATCH <= self.total() {
            self.next() + EMBED_BATCH
        } else {
            self.total()
        }
    }

    /// Whether this is `before` with the outcome of its current batch taken in.
    pub open spec fn follows(&self, before: EmbedRun, outcome: BatchOutcome) -> bool {
        &&& self.total() == before.total()
        &&& self.patient() == before.patient()
        &&& self.stopped() == (outcome is Failed && !before.patient())
        &&& self.next() == if self.stopped() {
            before.next()
        } else {
            before.batch_end()
        }
        &&& self.stored_count() == before.stored_count() + match outcome {
            BatchOutcome::Failed => 0,
            BatchOutcome::Vectors { got, stored } => if got == before.batch_end()
                - before.next() {
                stored as int
            } else {
                0
            },
        }
    }

    /// The chunks of a file that is being indexed: a failure stops the run.
    pub fn new(total: usize) -> (r: EmbedRun)
        ensures
            r.wf(),
            r.total() == total,
            r.next() == 0,
            r.stored_count() == 0,
            !r.stopped(),
            !r.patient(),
    {
        EmbedRun { total, next: 0, stored: 0, stopped: false, patient: false }
    }

    /// Chunks that an earlier run has left without a vector: a failure costs
    /// its batch only.
    pub fn backfill(total: usize) -> (r: EmbedRun)
        ensures
            r.wf(),
            r.total() == total,
            r.next() == 0,
            r.stored_count() == 0,
            !r.stopped(),
            r.patient(),
    {
        EmbedRun { total, next: 0, stored: 0, stopped: false, patient: true }
    }

    /// The batch to embed next.
    pub fn step(&self) -> (r: BatchStep)
        requires
            self.wf(),
        ensures
            match r {
                BatchStep::Embed(from, to) => !self.stopped() && self.next() < self.total() && from
                    == self.next() && to == self.batch_end(),
                BatchStep::Done => self.stopped() || self.next() == self.total(),
            },
    {
        if self.stopped || self.next >= self.total {
            return BatchStep::Done;
        }
        if self.total - self.next >= EMBED_BATCH {
            BatchStep::Embed(self.next, self.next + EMBED_BATCH)
        } else {
            BatchStep::Embed(self.next, self.total)
        }
    }

    /// Whether the vectors of the current batch are stored: only when there is
    /// one for each chunk.
    pub fn accepts(&self, got: usize) -> (b: bool)
        requires
            self.wf(),
        ensures
            b == (got == self.batch_end() - self.next()),
    {
        let size: usize = if self.total - self.next >= EMBED_BATCH {
            EMBED_BATCH
        } else {
            self.total - self.next
        };
        got == size
    }

    /// Takes in what came of the current batch. A failure of the embedder
    /// stops the run unless it is patient; a wrong number of vectors passes
    /// over this batch only.
    pub fn record(&mut self, outcome: BatchOutcome)
        requires
            old(self).wf(),
            !old(self).stopped(),
            outcome matches BatchOutcome::Vectors { got, stored } ==> stored <= got,
        ensures
            final(self).wf(),
            final(self).follows(*old(self), outcome),
    {
        let size: usize = if self.total - self.next >= EMBED_BATCH {
            EMBED_BATCH
        } else {
            self.total - self.next
        };
        match outcome {
            BatchOutcome::Failed => {
                if self.patient {
                    self.next = self.next + size;
                } else {
                    self.stopped = true;
                }
            },
            BatchOutcome::Vectors { got, stored } => {
                if got == size {
                    self.stored = self.stored + stored;
                }
                self.next = self.next + size;
            },
        }
    }

    /// How many vectors have been stored.
    pub fn stored(&self) -> (n: usize)
        ensures
            n == self.stored_count(),
    {
        self.stored
    }
}

// ── A run of the indexer ─────────────────────────────────────────────────────
/// The wall-clock budget of a run in seconds: 600 where the setting is absent
/// or no number, none where it is 0.
pub open spec fn budget(setting: Option<Seq<char>>) -> Option<int> {
    let secs = match setting {
        Some(s) => match text::parse_unsigned(s) {
            Ok(n) => n,
            Err(_) => 600,
        },
        None => 600,
    };
    if secs > 0 {
        Some(secs)
    } else {
        None
    }
}

/// The wall-clock budget of a run in seconds, from the setting
/// `HEX_INDEX_BUDGET_SECS`.
pub fn run_budget(setting: Option<&str>) -> (r: Option<u64>)
    ensures
        match r {
            Some(n) => budget(
                match setting {
                    Some(s) => Some(s@),
                    None => None,
                },
            ) == Some(n as int),
            None => budget(
                match setting {
                    Some(s) => Some(s@),
                    None => None,
                },
            ) is None,
        },
{
    let secs: u64 = match setting {
        Some(s) => match text::parse_u64(s) {
            Ok(n) => n,
            Err(_) => 600,
        },
        None => 600,
    };
    if secs > 0 {
        Some(secs)
    } else {
        None
    }
}

/// The texts of `recorded` that `on_disk` does not hold.
pub open spec fn missing(recorded: Seq<Seq<char>>, on_disk: Seq<Seq<char>>) -> Seq<Seq<char>> {
    recorded.filter(|p: Seq<char>| !on_disk.contains(p))
}

pub fn contains_text(v: &Vec<String>, s: &str) -> (b: bool)
    ensures
        b == text::texts(v@).contains(s@),
{
    let mut i: usize = 0;
    while i < v.len()
        invariant
            i <= v@.len(),
            forall|k: int| 0 <= k < i ==> (#[trigger] text::texts(v@)[k]) != s@,
        decreases v.len() - i,
    {
        proof {
            assert(text::texts(v@)[i as int] == v@[i as int]@);
        }
        if str_eq(v[i].as_str(), s) {
            return true;
        }
        i += 1;
    }
    false
}

// ── Statistics ───────────────────────────────────────────────────────────────
/// The note on a mismatch between the numbers of chunks and of vectors.
pub open spec fn gap_note(chunk_count: int, vec_count: int) -> Option<Seq<char>> {
    if vec_count == chunk_count {
        None
    } else if vec_count < chunk_count {
        Some(
            "WARNING: "@ + text::signed_numeral(chunk_count - vec_count)
                + " chunk(s) without a vector (backfilled on later ticks)"@,
        )
    } else {
        Some(
            "NOTE: "@ + text::signed_numeral(vec_count - chunk_count)
                + " orphan vector(s) (surplus; swept by weekly maintain)"@,
        )
    }
}

/// A note when the numbers of chunks and of vectors differ: missing vectors
/// are made later, surplus ones are swept.
pub fn vec_gap_message(chunk_count: i64, vec_count: i64) -> (r: Option<String>)
    requires
        i64::MIN < chunk_count - vec_count <= i64::MAX,
    ensures
        match r {
            Some(s) => gap_note(chunk_count as int, vec_count as int) == Some(s@),
            None => gap_note(chunk_count as int, vec_count as int) is None,
        },
{
    if vec_count == chunk_count {
        return None;
    }
    if vec_count < chunk_count {
        let mut m = "WARNING: ".to_owned();
        m.append(text::signed_decimal(chunk_count - vec_count).as_str());
        m.append(" chunk(s) without a vector (backfilled on later ticks)");
        Some(m)
    } else {
        let mut m = "NOTE: ".to_owned();
        m.append(text::signed_decimal(vec_count - chunk_count).as_str());
        m.append(" orphan vector(s) (surplus; swept by weekly maintain)");
        Some(m)
    }
}

/// What the statistics of an index are made of.
#[derive(Debug, Clone)]
pub struct IndexStats {
    pub db_path: String,
    /// The size of the database in kilobytes, as it is printed.
    pub size_kb: String,
    pub files: i64,
    pub hashed: i64,
    pub chunks: i64,
    pub vectors: i64,
    pub last_run: Option<String>,
    pub last_mode: Option<String>,
    /// Each directory with its files and chunks, most chunks first.
    pub dirs: Vec<(String, i64, i64)>,
}

pub open spec fn dir_line(d: (String, i64, i64)) -> Seq<char> {
    "  "@ + d.0@ + ": "@ + text::signed_numeral(d.1 as int) + " files, "@ + text::signed_numeral(
        d.2 as int,
    ) + " chunks"@
}

/// The line about the latest run.
pub open spec fn run_lines(s: IndexStats) -> Seq<Seq<char>> {
    match s.last_run {
        Some(r) => seq![
            "Last run: "@ + r@ + " ("@ + (match s.last_mode {
                Some(m) => m@,
                None => "unknown"@,
            }) + ")"@,
        ],
        None => Seq::empty(),
    }
}

/// The lines that say what is in an index.
pub open spec fn stats_lines(s: IndexStats) -> Seq<Seq<char>> {
    seq![
        "Database: "@ + s.db_path@,
        "Size: "@ + s.size_kb@ + " KB"@,
        "Files indexed: "@ + text::signed_numeral(s.files as int) + " ("@ + text::signed_numeral(
            s.hashed as int,
        ) + " with content hash)"@,
        "Total chunks: "@ + text::signed_numeral(s.chunks as int),
        "Vector embeddings: "@ + text::signed_numeral(s.vectors as int)
            + " (sqlite-vec, nomic 768-d)"@,
    ] + (match gap_note(s.chunks as int, s.vectors as int) {
        Some(m) => seq!["  "@ + m],
        None => Seq::empty(),
    }) + run_lines(s) + seq![Seq::empty(), "By directory:"@] + s.dirs@.map_values(
        |d: (String, i64, i64)| dir_line(d),
    )
}

fn say(out: &mut Vec<String>, line: String)
    ensures
        text::texts(final(out)@) == text::texts(old(out)@).push(line@),
{
    proof {
        text::lemma_texts_push(out@, line);
    }
    out.push(line);
}

fn counted(head: &str, n: i64, tail: &str) -> (r: String)
    ensures
        r@ == head@ + text::signed_numeral(n as int) + tail@,
{
    let mut r = head.to_owned();
    let d = text::signed_decimal(n);
    r.append(d.as_str());
    r.append(tail);
    r
}

fn stats_head(s: &IndexStats) -> (out: Vec<String>)
    ensures
        text::texts(out@) == stats_lines(*s).take(5),
{
    let mut out: Vec<String> = Vec::new();
    let mut line = "Database: ".to_owned();
    line.append(s.db_path.as_str());
    say(&mut out, line);
    let mut size = "Size: ".to_owned();
    size.append(s.size_kb.as_str());
    size.append(" KB");
    say(&mut out, size);
    let mut files = counted("Files indexed: ", s.files, " (");
    let hashed = text::signed_decimal(s.hashed);
    files.append(hashed.as_str());
    files.append(" with content hash)");
    say(&mut out, files);
    let none = String::new();
    let chunks = counted("Total chunks: ", s.chunks, none.as_str());
    proof {
        assert(chunks@ =~= "Total chunks: "@ + text::signed_numeral(s.chunks as int));
    }
    say(&mut out, chunks);
    say(&mut out, counted("Vector embeddings: ", s.vectors, " (sqlite-vec, nomic 768-d)"));
    proof {
        assert(text::texts(out@) =~= stats_lines(*s).take(5));
    }
    out
}

fn push_dirs(out: &mut Vec<String>, dirs: &Vec<(String, i64, i64)>)
    ensures
        text::texts(final(out)@) == text::texts(old(out)@) + dirs@.map_values(
            |d: (String, i64, i64)| dir_line(d),
        ),
{
    let ghost before = text::texts(out@);
    let ghost all = dirs@.map_values(|d: (String, i64, i64)| dir_line(d));
    let mut i: usize = 0;
    proof {
        assert(before =~= before + all.take(0));
    }
    while i < dirs.len()
        invariant
            i <= dirs@.len(),
            all == dirs@.map_values(|d: (String, i64, i64)| dir_line(d)),
            text::texts(out@) == before + all.take(i as int),
        decreases dirs.len() - i,
    {
        let d = &dirs[i];
        let mut line = "  ".to_owned();
        line.append(d.0.as_str());
        line.append(": ");
        let files = text::signed_decimal(d.1);
        line.append(files.as_str());
        line.append(" files, ");
        let chunks = text::signed_decimal(d.2);
        line.append(chunks.as_str());
        line.append(" chunks");
        say(out, line);
        proof {
            assert((before + all.take(i as int)).push(dir_line(dirs@[i as int])) =~= before
                + all.take(i + 1));
        }
        i += 1;
    }
    proof {
        assert(all.take(all.len() as int) =~= all);
    }
}

/// The lines that say what is in an index.
pub fn show_stats(s: &IndexStats) -> (out: Vec<String>)
    requires
        i64::MIN < s.chunks - s.vectors <= i64::MAX,
    ensures
        text::texts(out@) == stats_lines(*s),
{
    let mut out = stats_head(s);
    let ghost head = stats_lines(*s).take(5);
    let ghost gap = match gap_note(s.chunks as int, s.vectors as int) {
        Some(m) => seq!["  "@ + m],
        None => Seq::empty(),
    };
    match vec_gap_message(s.chunks, s.vectors) {
        Some(m) => {
            let mut line = "  ".to_owned();
            line.append(m.as_str());
            say(&mut out, line);
        },
        None => {},
    }
    proof {
        assert(text::texts(out@) =~= head + gap);
    }
    let ghost run = run_lines(*s);
    match &s.last_run {
        Some(r) => {
            let mut line = "Last run: ".to_owned();
            line.append(r.as_str());
            line.append(" (");
            match &s.last_mode {
                Some(m) => {
                    line.append(m.as_str());
                },
                None => {
                    line.append("unknown");
                },
            }
            line.append(")");
            say(&mut out, line);
        },
        None => {},
    }
    proof {
        assert(text::texts(out@) =~= head + gap + run);
    }
    let blank = String::new();
    proof {
        assert(blank@ =~= Seq::<char>::empty());
    }
    say(&mut out, blank);
    say(&mut out, "By directory:".to_owned());
    push_dirs(&mut out, &s.dirs);
    proof {
        assert(text::texts(out@) =~= stats_lines(*s));
    }
    out
}

/// What is said where there is no index.
pub fn no_index() -> (r: &'static str)
    ensures
        r@ == "No index found. Run `hex memory index` to create one."@,
{
    "No index found. Run `hex memory index` to create one."
}

/// What is said before an index is made.
pub fn run_banner(full: bool) -> (r: &'static str)
    ensures
        r@ == if full {
            "Full reindex..."@
        } else {
            "Incremental index..."@
        },
{
    if full {
        "Full reindex..."
    } else {
        "Incremental index..."
    }
}

/// What becomes of the table of chunks when a database is opened.
#[derive(Debug, Clone, Copy, PartialEq, Eq, Structural)]
pub enum ChunksStep {
    /// There is none yet: note that it needs no migration.
    MarkNew,
    /// It is an old one: drop it with its vectors, so that every file is
    /// indexed again.
    Rebuild,
    Keep,
}

/// What becomes of the table of chunks: it is dropped once at most, and never
/// where it has its newest column.
pub fn chunks_step(there: bool, has_private: bool, migrated: bool) -> (r: ChunksStep)
    ensures
        r == if !there {
            ChunksStep::MarkNew
        } else if !has_private && !migrated {
            ChunksStep::Rebuild
        } else {
            ChunksStep::Keep
        },
{
    if !there {
        ChunksStep::MarkNew
    } else if !has_private && !migrated {
        ChunksStep::Rebuild
    } else {
        ChunksStep::Keep
    }
}

/// Whether the table of files lacks the hash of their content.
pub fn needs_content_hash(columns: &Vec<String>) -> (b: bool)
    ensures
        b == !text::texts(columns@).contains("content_hash"@),
{
    !contains_text(columns, "content_hash")
}

// ── Laws ─────────────────────────────────────────────────────────────────────
proof fn lemma_parts_size(name: Seq<char>, words: Seq<Seq<char>>, k: int)
    requires
        forall|i: int|
            0 <= i < words.len() ==> (#[trigger] words[i]).len() > 0 && text::space_free(words[i]),
    ensures
        forall|i: int|
            0 <= i < parts(name, words, k).len() ==> text::words(
                (#[trigger] parts(name, words, k)[i]).content,
            ).len() <= MAX_CHUNK_WORDS,
    decreases words.len() + MAX_CHUNK_WORDS - part_start(k),
{
    if k >= 0 && part_start(k) < words.len() {
        let end = if part_start(k) + MAX_CHUNK_WORDS <= words.len() {
            part_start(k) + MAX_CHUNK_WORDS
        } else {
            words.len() as int
        };
        let group = words.subrange(part_start(k), end);
        assert forall|i: int| 0 <= i < group.len() implies (#[trigger] group[i]).len() > 0
            && text::space_free(group[i]) by {
            assert(group[i] == words[part_start(k) + i]);
        }
        text::lemma_words_join(group);
        lemma_parts_size(name, words, k + 1);
        let rest = parts(name, words, k + 1);
        let all = parts(name, words, k);
        assert forall|i: int| 0 <= i < all.len() implies text::words(
            (#[trigger] all[i]).content,
        ).len() <= MAX_CHUNK_WORDS by {
            if i > 0 {
                assert(all[i] == rest[i - 1]);
            }
        }
    }
}

proof fn lemma_cut_all_size(s: Seq<ChunkText>)
    ensures
        forall|i: int|
            0 <= i < cut_all(s).len() ==> text::words((#[trigger] cut_all(s)[i]).content).len()
                <= MAX_CHUNK_WORDS,
    decreases s.len(),
{
    if s.len() > 0 {
        lemma_cut_all_size(s.drop_last());
        let c = s.last();
        text::lemma_words(c.content);
        lemma_parts_size(c.heading, text::words(c.content), 0);
        let front = cut_all(s.drop_last());
        assert forall|i: int| 0 <= i < cut_all(s).len() implies text::words(
            (#[trigger] cut_all(s)[i]).content,
        ).len() <= MAX_CHUNK_WORDS by {
            if i >= front.len() {
                assert(cut_all(s)[i] == cut(c)[i - front.len()]);
            } else {
                assert(cut_all(s)[i] == front[i]);
            }
        }
    }
}

/// What [`distinct`] keeps: items of the sequence, no two with the same key,
/// and for every item of the sequence one with its key.
pub proof fn lemma_distinct(s: Seq<ChunkText>)
    ensures
        forall|i: int| 0 <= i < distinct(s).len() ==> s.contains(#[trigger] distinct(s)[i]),
        forall|i: int, j: int|
            0 <= i < j < distinct(s).len() ==> chunk_key(#[trigger] distinct(s)[i]) != chunk_key(
                #[trigger] distinct(s)[j],
            ),
        forall|i: int| 0 <= i < s.len() ==> has_key(distinct(s), #[trigger] s[i]),
    decreases s.len(),
{
    if s.len() > 0 {
        let front = s.drop_last();
        let c = s.last();
        lemma_distinct(front);
        let d = distinct(front);
        let r = distinct(s);
        assert forall|i: int| 0 <= i < r.len() implies s.contains(#[trigger] r[i]) by {
            if i < d.len() {
                assert(r[i] == d[i]);
                let k = choose|k: int| 0 <= k < front.len() && front[k] == d[i];
                assert(s[k] == r[i]);
            } else {
                assert(s[s.len() - 1] == r[i]);
            }
        }
        assert forall|i: int, j: int| 0 <= i < j < r.len() implies chunk_key(#[trigger] r[i])
            != chunk_key(#[trigger] r[j]) by {
            assert(r[i] == d[i]);
            if j < d.len() {
                assert(r[j] == d[j]);
            } else {
                assert(r[j] == c);
                assert(front.contains(d[i]));
                let k = choose|k: int| 0 <= k < front.len() && front[k] == d[i];
                assert(!has_key(front, c));
                assert(chunk_key(front[k]) != chunk_key(c));
            }
        }
        assert forall|i: int| 0 <= i < s.len() implies has_key(r, #[trigger] s[i]) by {
            if i < front.len() {
                assert(s[i] == front[i]);
                assert(has_key(d, front[i]));
                let k = choose|k: int|
                    0 <= k < d.len() && chunk_key(#[trigger] d[k]) == chunk_key(front[i]);
                assert(r[k] == d[k]);
            } else if has_key(front, c) {
                let m = choose|m: int|
                    0 <= m < front.len() && chunk_key(#[trigger] front[m]) == chunk_key(c);
                assert(has_key(d, front[m]));
                let k = choose|k: int|
                    0 <= k < d.len() && chunk_key(#[trigger] d[k]) == chunk_key(front[m]);
                assert(r[k] == d[k]);
            } else {
                assert(r[d.len() as int] == c);
            }
        }
    }
}

/// No chunk has more words than a chunk may have, whatever the content.
pub proof fn law_chunk_size(content: Seq<char>, deduplicate: bool)
    ensures
        forall|i: int|
            0 <= i < chunks(content, deduplicate).len() ==> text::words(
                (#[trigger] chunks(content, deduplicate)[i]).content,
            ).len() <= MAX_CHUNK_WORDS,
{
    let all = cut_all(pieces(text::split(content, '\n')));
    lemma_cut_all_size(pieces(text::split(content, '\n')));
    if deduplicate {
        lemma_distinct(all);
        let r = distinct(all);
        assert forall|i: int| 0 <= i < r.len() implies text::words(
            (#[trigger] r[i]).content,
        ).len() <= MAX_CHUNK_WORDS by {
            let k = choose|k: int| 0 <= k < all.len() && all[k] == r[i];
            assert(text::words(all[k].content).len() <= MAX_CHUNK_WORDS);
        }
    }
}

/// Deduplication keeps one chunk for each key: no two kept chunks share theirs,
/// and the key of every chunk is kept.
pub proof fn law_deduplication(content: Seq<char>)
    ensures
        forall|i: int, j: int|
            0 <= i < j < chunks(content, true).len() ==> chunk_key(
                #[trigger] chunks(content, true)[i],
            ) != chunk_key(#[trigger] chunks(content, true)[j]),
        forall|i: int|
            0 <= i < chunks(content, false).len() ==> has_key(
                chunks(content, true),
                #[trigger] chunks(content, false)[i],
            ),
{
    lemma_distinct(cut_all(pieces(text::split(content, '\n'))));
}

/// A run of the embedder in which every batch comes back whole and is stored
/// has stored one vector for each chunk that it has handed out, so one for each
/// chunk of the file where it has handed out all of them.
pub proof fn law_batches_cover(runs: Seq<EmbedRun>, outcomes: Seq<BatchOutcome>)
    requires
        runs.len() == outcomes.len() + 1,
        runs[0].next() == 0,
        runs[0].stored_count() == 0,
        forall|i: int|
            0 <= i < outcomes.len() ==> (#[trigger] runs[i + 1]).follows(runs[i], outcomes[i]),
        forall|i: int|
            0 <= i < outcomes.len() ==> (#[trigger] outcomes[i] matches BatchOutcome::Vectors {
                got,
                stored,
            } && got == runs[i].batch_end() - runs[i].next() && stored == got),
    ensures
        runs.last().stored_count() == runs.last().next(),
    decreases runs.len(),
{
    if outcomes.len() > 0 {
        let r = runs.drop_last();
        let o = outcomes.drop_last();
        let n = o.len() as int;
        assert forall|i: int| 0 <= i < o.len() implies (#[trigger] r[i + 1]).follows(r[i], o[i]) by {
            assert(r[i + 1] == runs[i + 1]);
        }
        law_batches_cover(r, o);
        assert(runs[n + 1].follows(runs[n], outcomes[n]));
    }
}

/// The words of a part that the part before it does not have.
pub open spec fn new_words(k: int, words: Seq<Seq<char>>) -> Seq<Seq<char>> {
    if k == 0 {
        words
    } else if words.len() <= OVERLAP_WORDS {
        Seq::empty()
    } else {
        words.skip(OVERLAP_WORDS as int)
    }
}

/// The words of the first `n` chunks of one section, shared ones once.
pub open spec fn words_told(chunks: Seq<ChunkText>, n: int) -> Seq<Seq<char>>
    decreases n,
{
    if n <= 0 {
        Seq::empty()
    } else {
        words_told(chunks, n - 1) + new_words(n - 1, text::words(chunks[n - 1].content))
    }
}

/// The words of sections, in order, as their chunks tell them.
pub open spec fn sections_told(sections: Seq<ChunkText>) -> Seq<Seq<char>>
    decreases sections.len(),
{
    if sections.len() == 0 {
        Seq::empty()
    } else {
        let c = cut(sections.last());
        sections_told(sections.drop_last()) + words_told(c, c.len() as int)
    }
}

spec fn words_in(sections: Seq<ChunkText>) -> Seq<Seq<char>>
    decreases sections.len(),
{
    if sections.len() == 0 {
        Seq::empty()
    } else {
        words_in(sections.drop_last()) + text::words(sections.last().content)
    }
}

/// Where part `k` ends.
spec fn part_end(words: Seq<Seq<char>>, k: int) -> int {
    if part_start(k) + MAX_CHUNK_WORDS <= words.len() {
        part_start(k) + MAX_CHUNK_WORDS
    } else {
        words.len() as int
    }
}

/// Whether a chunk holds the words of part `k`.
spec fn is_part(c: ChunkText, words: Seq<Seq<char>>, k: int) -> bool {
    part_start(k) < words.len() && text::words(c.content) == words.subrange(
        part_start(k),
        part_end(words, k),
    )
}

/// What the parts from number `k` on hold.
proof fn lemma_parts(name: Seq<char>, words: Seq<Seq<char>>, k: int)
    requires
        forall|n: int|
            0 <= n < words.len() ==> (#[trigger] words[n]).len() > 0 && text::space_free(words[n]),
        0 <= k,
    ensures
        part_start(k + parts(name, words, k).len()) >= words.len(),
        forall|i: int|
            0 <= i < parts(name, words, k).len() ==> is_part(
                #[trigger] parts(name, words, k)[i],
                words,
                k + i,
            ),
    decreases words.len() + MAX_CHUNK_WORDS - part_start(k),
{
    if part_start(k) < words.len() {
        let group = words.subrange(part_start(k), part_end(words, k));
        assert forall|n: int| 0 <= n < group.len() implies (#[trigger] group[n]).len() > 0
            && text::space_free(group[n]) by {
            assert(group[n] == words[part_start(k) + n]);
        }
        text::lemma_words_join(group);
        lemma_parts(name, words, k + 1);
        let rest = parts(name, words, k + 1);
        let all = parts(name, words, k);
        assert(all.len() == rest.len() + 1);
        assert forall|i: int| 0 <= i < all.len() implies is_part(
            #[trigger] all[i],
            words,
            k + i,
        ) by {
            if i > 0 {
                assert(all[i] == rest[i - 1]);
                assert(is_part(rest[i - 1], words, k + 1 + (i - 1)));
            } else {
                assert(all[0].content == text::join(group, " "@));
            }
        }
    } else {
        assert(parts(name, words, k).len() == 0);
    }
}

proof fn lemma_parts_told(name: Seq<char>, words: Seq<Seq<char>>, n: int)
    requires
        forall|i: int|
            0 <= i < words.len() ==> (#[trigger] words[i]).len() > 0 && text::space_free(words[i]),
        0 < n <= parts(name, words, 0).len(),
    ensures
        words_told(parts(name, words, 0), n) == words.take(part_end(words, n - 1)),
    decreases n,
{
    let all = parts(name, words, 0);
    lemma_parts(name, words, 0);
    assert(is_part(all[n - 1], words, n - 1));
    if n > 1 {
        lemma_parts_told(name, words, n - 1);
        assert(words_told(all, n) =~= words.take(part_end(words, n - 1)));
    } else {
        assert(words_told(all, 0) =~= Seq::<Seq<char>>::empty());
        assert(words_told(all, 1) =~= words.take(part_end(words, 0)));
    }
}

/// The chunks of a section tell its words in order, the words that two of them
/// share once.
pub proof fn law_a_section_is_told_whole(c: ChunkText)
    ensures
        words_told(cut(c), cut(c).len() as int) == text::words(c.content),
{
    let w = text::words(c.content);
    text::lemma_words(c.content);
    if w.len() <= MAX_CHUNK_WORDS {
        assert(words_told(cut(c), 0) =~= Seq::<Seq<char>>::empty());
        assert(words_told(cut(c), 1) =~= w);
    } else {
        let n = cut(c).len() as int;
        lemma_parts(c.heading, w, 0);
        lemma_parts_told(c.heading, w, n);
        assert(w.take(part_end(w, n - 1)) =~= w);
    }
}

proof fn lemma_sections_told(s: Seq<ChunkText>)
    ensures
        sections_told(s) == words_in(s),
    decreases s.len(),
{
    if s.len() > 0 {
        lemma_sections_told(s.drop_last());
        law_a_section_is_told_whole(s.last());
    }
}

proof fn lemma_words_in_add(a: Seq<ChunkText>, b: Seq<ChunkText>)
    ensures
        words_in(a + b) == words_in(a) + words_in(b),
    decreases b.len(),
{
    if b.len() == 0 {
        assert(a + b =~= a);
        assert(words_in(a) + Seq::<Seq<char>>::empty() =~= words_in(a));
    } else {
        lemma_words_in_add(a, b.drop_last());
        assert((a + b).drop_last() =~= a + b.drop_last());
        assert((a + b).last() == b.last());
        assert(words_in(a) + words_in(b.drop_last()) + text::words(b.last().content) =~= words_in(a)
            + (words_in(b.drop_last()) + text::words(b.last().content)));
    }
}

proof fn lemma_piece_words(name: Seq<char>, lines: Seq<Seq<char>>, i: int, j: int)
    ensures
        words_in(piece(name, lines, i, j)) == text::words(text::join(lines.subrange(i, j), "\n"@)),
{
    text::lemma_words_trim(text::join(lines.subrange(i, j), "\n"@));
    let p = piece(name, lines, i, j);
    let t = trimmed_lines(lines, i, j);
    if t.len() == 0 {
        assert(t =~= Seq::<char>::empty());
        text::lemma_no_words();
    } else {
        assert(p.drop_last() =~= Seq::<ChunkText>::empty());
        assert(words_in(Seq::<ChunkText>::empty()) =~= Seq::<Seq<char>>::empty());
        assert(Seq::<Seq<char>>::empty() + text::words(t) =~= text::words(t));
    }
}

/// The words of lines are those of the lines before a place and behind it.
proof fn lemma_lines_words(lines: Seq<Seq<char>>, i: int, j: int)
    requires
        0 <= i <= j <= lines.len(),
    ensures
        text::words(text::join(lines.subrange(i, lines.len() as int), "\n"@)) == text::words(
            text::join(lines.subrange(i, j), "\n"@),
        ) + text::words(text::join(lines.subrange(j, lines.len() as int), "\n"@)),
{
    let n = lines.len() as int;
    let a = lines.subrange(i, j);
    let b = lines.subrange(j, n);
    let all = lines.subrange(i, n);
    reveal_strlit("\n");
    text::lemma_no_words();
    assert(all =~= a + b);
    let x = text::join(a, "\n"@);
    let y = text::join(b, "\n"@);
    if a.len() == 0 {
        assert(all =~= b);
        assert(text::words(x) + text::words(y) =~= text::words(y));
    } else if b.len() == 0 {
        assert(all =~= a);
        assert(text::words(x) + text::words(y) =~= text::words(x));
    } else {
        text::lemma_join_add(a, b, "\n"@);
        text::lemma_words_around(x, '\n', y);
        assert(x + "\n"@ + y =~= x.push('\n') + y);
    }
}

proof fn lemma_headed_words(lines: Seq<Seq<char>>, i: int)
    requires
        0 <= i <= lines.len(),
    ensures
        words_in(headed_pieces(lines, i)) == text::words(
            text::join(lines.subrange(i, lines.len() as int), "\n"@),
        ),
    decreases lines.len() - i,
{
    if i < lines.len() {
        let j = next_heading(lines, i + 1);
        let name = (heading(lines[i])->0).1;
        lemma_next_heading(lines, i + 1);
        lemma_headed_words(lines, j);
        lemma_piece_words(name, lines, i, j);
        lemma_words_in_add(piece(name, lines, i, j), headed_pieces(lines, j));
        lemma_lines_words(lines, i, j);
    } else {
        text::lemma_no_words();
    }
}

/// Cutting loses nothing and changes no order: the chunks of a file are those of
/// its sections, one section behind the other, and what they tell, the words
/// that two parts of a section share once, are the words of the file.
pub proof fn law_no_word_is_lost(content: Seq<char>)
    ensures
        chunks(content, false) == cut_all(pieces(text::split(content, '\n'))),
        sections_told(pieces(text::split(content, '\n'))) == text::words(content),
{
    let lines = text::split(content, '\n');
    let first = next_heading(lines, 0);
    reveal_strlit("\n");
    assert("\n"@ =~= seq!['\n']);
    lemma_sections_told(pieces(lines));
    lemma_next_heading(lines, 0);
    lemma_piece_words("(top)"@, lines, 0, first);
    lemma_headed_words(lines, first);
    lemma_words_in_add(piece("(top)"@, lines, 0, first), headed_pieces(lines, first));
    lemma_lines_words(lines, 0, first);
    assert(lines.subrange(0, lines.len() as int) =~= lines);
    text::lemma_join_split(content, '\n', "\n"@);
}

// ── Laws of cutting ──────────────────────────────────────────────────────────
/// Whether two chunks say the same: their headings are the same but for case and
/// the digests of their contents are the same.
pub open spec fn say_the_same(a: ChunkText, b: ChunkText) -> bool {
    text::lowercase(a.heading) == text::lowercase(b.heading) && sha256_hex(a.content) == sha256_hex(
        b.content,
    )
}

/// Whether a chunk before number `i` says the same as that one.
pub open spec fn said_before(all: Seq<ChunkText>, i: int) -> bool {
    exists|j: int| 0 <= j < i && say_the_same(#[trigger] all[j], all[i])
}

proof fn lemma_distinct_places(s: Seq<ChunkText>) -> (at: Seq<int>)
    ensures
        crate::lists::stands_at(distinct(s), s, at),
        forall|i: int| 0 <= i < s.len() ==> #[trigger] at.contains(i) == !said_before(s, i),
    decreases s.len(),
{
    if s.len() == 0 {
        Seq::empty()
    } else {
        let n = s.len() - 1;
        let front = s.drop_last();
        let before = lemma_distinct_places(front);
        assert(has_key(front, s.last()) == said_before(s, n)) by {
            if has_key(front, s.last()) {
                let j = choose|j: int|
                    0 <= j < front.len() && chunk_key(#[trigger] front[j]) == chunk_key(s.last());
                assert(say_the_same(s[j], s[n]));
            }
            if said_before(s, n) {
                let j = choose|j: int| 0 <= j < n && say_the_same(#[trigger] s[j], s[n]);
                assert(chunk_key(front[j]) == chunk_key(s.last()));
            }
        }
        let at = if has_key(front, s.last()) {
            before
        } else {
            before.push(n)
        };
        assert forall|i: int| 0 <= i < s.len() implies #[trigger] at.contains(i) == !said_before(
            s,
            i,
        ) by {
            if i < n {
                assert(said_before(s, i) == said_before(front, i)) by {
                    if said_before(s, i) {
                        let j = choose|j: int| 0 <= j < i && say_the_same(#[trigger] s[j], s[i]);
                        assert(say_the_same(front[j], front[i]));
                    }
                    if said_before(front, i) {
                        let j = choose|j: int|
                            0 <= j < i && say_the_same(#[trigger] front[j], front[i]);
                        assert(say_the_same(s[j], s[i]));
                    }
                }
                if before.contains(i) {
                    let k = choose|k: int| 0 <= k < before.len() && before[k] == i;
                    assert(at[k] == i);
                } else if at.contains(i) {
                    let k = choose|k: int| 0 <= k < at.len() && at[k] == i;
                    assert(before[k] == i);
                }
            } else if has_key(front, s.last()) {
                if at.contains(n) {
                    let k = choose|k: int| 0 <= k < at.len() && at[k] == n;
                    assert(before[k] < n);
                }
            } else {
                assert(at[before.len() as int] == n);
            }
        }
        assert forall|k: int| 0 <= k < at.len() implies 0 <= #[trigger] at[k] < s.len()
            && distinct(s)[k] == s[at[k]] by {
            if k < before.len() {
                assert(before[k] == at[k]);
                assert(front[before[k]] == s[at[k]]);
            }
        }
        assert forall|j: int, k: int| 0 <= j < k < at.len() implies #[trigger] at[j]
            < #[trigger] at[k] by {
            assert(before[j] == at[j]);
            if k < before.len() {
                assert(before[k] == at[k]);
            }
        }
        at
    }
}

/// Without duplicates, a file has its chunks in their order but for those that
/// say what a chunk before them said, under the same heading but for case and
/// with the same content: nothing else is dropped, and each of these is.
pub proof fn law_only_repetitions_are_dropped(content: Seq<char>)
    ensures
        exists|at: Seq<int>| #[trigger]
            crate::lists::stands_at(chunks(content, true), chunks(content, false), at)
                && forall|i: int|
                0 <= i < chunks(content, false).len() ==> #[trigger] at.contains(i) == !said_before(
                    chunks(content, false),
                    i,
                ),
{
    let at = lemma_distinct_places(chunks(content, false));
    assert(crate::lists::stands_at(chunks(content, true), chunks(content, false), at));
}

/// Whether line `i` is a heading and the lines behind it up to `j` are none, and
/// `j` is the next one or the end.
pub open spec fn is_headed(lines: Seq<Seq<char>>, i: int, j: int) -> bool {
    &&& 0 <= i < j <= lines.len()
    &&& heading(lines[i]) is Some
    &&& forall|k: int| i < k < j ==> heading(#[trigger] lines[k]) is None
    &&& j < lines.len() ==> heading(lines[j]) is Some
}

/// Whether a section is that of the heading in line `i`: it has its title, and
/// the text from the heading up to the next one.
pub open spec fn is_section_of(c: ChunkText, lines: Seq<Seq<char>>, i: int, j: int) -> bool {
    &&& is_headed(lines, i, j)
    &&& c.heading == (heading(lines[i])->0).1
    &&& c.content == text::trim(text::join(lines.subrange(i, j), "\n"@))
}

pub open spec fn is_of_a_heading(c: ChunkText, lines: Seq<Seq<char>>) -> bool {
    exists|a: int, b: int| is_section_of(c, lines, a, b)
}

proof fn lemma_next_heading_none(lines: Seq<Seq<char>>, i: int)
    requires
        0 <= i <= lines.len(),
    ensures
        forall|k: int| i <= k < next_heading(lines, i) ==> heading(#[trigger] lines[k]) is None,
    decreases lines.len() - i,
{
    if i < lines.len() && heading(lines[i]) is None {
        lemma_next_heading_none(lines, i + 1);
    }
}

proof fn lemma_headed_sections(lines: Seq<Seq<char>>, i: int)
    requires
        0 <= i <= lines.len(),
        i < lines.len() ==> heading(lines[i]) is Some,
    ensures
        forall|k: int|
            0 <= k < headed_pieces(lines, i).len() ==> is_of_a_heading(
                #[trigger] headed_pieces(lines, i)[k],
                lines,
            ),
        forall|a: int, b: int| #[trigger]
            is_headed(lines, a, b) && i <= a && text::trim(
                text::join(lines.subrange(a, b), "\n"@),
            ).len() > 0 ==> exists|k: int|
                0 <= k < headed_pieces(lines, i).len() && is_section_of(
                    #[trigger] headed_pieces(lines, i)[k],
                    lines,
                    a,
                    b,
                ),
    decreases lines.len() - i,
{
    if i < lines.len() {
        let j = next_heading(lines, i + 1);
        lemma_next_heading(lines, i + 1);
        lemma_next_heading_none(lines, i + 1);
        lemma_headed_sections(lines, j);
        let name = (heading(lines[i])->0).1;
        let p = piece(name, lines, i, j);
        let rest = headed_pieces(lines, j);
        let all = headed_pieces(lines, i);
        assert(is_headed(lines, i, j));
        assert forall|k: int| 0 <= k < all.len() implies is_of_a_heading(
            #[trigger] all[k],
            lines,
        ) by {
            if k < p.len() {
                assert(is_section_of(all[k], lines, i, j));
            } else {
                assert(all[k] == rest[k - p.len()]);
            }
        }
        assert forall|a: int, b: int| #[trigger]
            is_headed(lines, a, b) && i <= a && text::trim(
                text::join(lines.subrange(a, b), "\n"@),
            ).len() > 0 implies exists|k: int|
            0 <= k < all.len() && is_section_of(#[trigger] all[k], lines, a, b) by {
            if a == i {
                if b < j {
                    assert(heading(lines[b]) is None);
                }
                if j < b {
                    assert(heading(lines[j]) is None);
                }
                assert(b == j);
                assert(is_section_of(all[0], lines, a, b));
            } else {
                if a < j {
                    assert(heading(lines[a]) is None);
                }
                let k = choose|k: int|
                    0 <= k < rest.len() && is_section_of(#[trigger] rest[k], lines, a, b);
                assert(all[p.len() + k] == rest[k]);
                assert(is_section_of(all[p.len() + k], lines, a, b));
            }
        }
    }
}

/// A file is cut at its headings: what stands before the first one is a section
/// of its own, every other section is that of a heading, and every heading has
/// its section.
pub proof fn law_a_file_is_cut_at_its_headings(lines: Seq<Seq<char>>)
    ensures
        forall|k: int|
            0 <= k < pieces(lines).len() ==> (#[trigger] pieces(lines)[k]).heading == "(top)"@
                || is_of_a_heading(pieces(lines)[k], lines),
        forall|a: int, b: int| #[trigger]
            is_headed(lines, a, b) && text::trim(text::join(lines.subrange(a, b), "\n"@)).len() > 0
                ==> exists|k: int|
                0 <= k < pieces(lines).len() && is_section_of(
                    #[trigger] pieces(lines)[k],
                    lines,
                    a,
                    b,
                ),
{
    let first = next_heading(lines, 0);
    lemma_next_heading(lines, 0);
    lemma_next_heading_none(lines, 0);
    lemma_headed_sections(lines, first);
    let top = piece("(top)"@, lines, 0, first);
    let rest = headed_pieces(lines, first);
    let all = pieces(lines);
    assert forall|k: int| 0 <= k < all.len() implies (#[trigger] all[k]).heading == "(top)"@
        || is_of_a_heading(all[k], lines) by {
        if k >= top.len() {
            assert(all[k] == rest[k - top.len()]);
        }
    }
    assert forall|a: int, b: int| #[trigger]
        is_headed(lines, a, b) && text::trim(text::join(lines.subrange(a, b), "\n"@)).len()
            > 0 implies exists|k: int|
        0 <= k < all.len() && is_section_of(#[trigger] all[k], lines, a, b) by {
        if a < first {
            assert(heading(lines[a]) is None);
        }
        let k = choose|k: int|
            0 <= k < rest.len() && is_section_of(#[trigger] rest[k], lines, a, b);
        assert(all[top.len() + k] == rest[k]);
    }
}

proof fn lemma_hashes(n: nat, rest: Seq<char>)
    requires
        rest.len() > 0 ==> rest[0] != '#',
    ensures
        text::leading(Seq::new(n, |i: int| '#') + rest, '#') == n,
    decreases n,
{
    let s = Seq::new(n, |i: int| '#') + rest;
    if n > 0 {
        assert(s.drop_first() =~= Seq::new((n - 1) as nat, |i: int| '#') + rest);
        lemma_hashes((n - 1) as nat, rest);
    }
}

/// A heading is one to four number signs, a space and a title that is not blank.
pub proof fn law_heading(n: nat, title: Seq<char>)
    ensures
        1 <= n <= 4 && text::trim(title).len() > 0 ==> heading(
            Seq::new(n, |i: int| '#') + seq![' '] + title,
        ) == Some((n, text::trim(title))),
        n == 0 || n > 4 || text::trim(title).len() == 0 ==> heading(
            Seq::new(n, |i: int| '#') + seq![' '] + title,
        ) is None,
        title.len() > 0 && title[0] != ' ' && title[0] != '#' ==> heading(
            Seq::new(n, |i: int| '#') + title,
        ) is None,
{
    let hashes = Seq::new(n, |i: int| '#');
    let rest = seq![' '] + title;
    let s = hashes + seq![' '] + title;
    assert(s =~= hashes + rest);
    lemma_hashes(n, rest);
    assert(s.skip(n as int) =~= rest);
    assert(rest.skip(1) =~= title);
    if title.len() > 0 && title[0] != '#' {
        lemma_hashes(n, title);
        assert((hashes + title).skip(n as int) =~= title);
    }
}

// ── Laws of selection ────────────────────────────────────────────────────────
/// The names of what is never indexed.
pub open spec fn is_barred(pat: Seq<char>, name: Seq<char>) -> bool {
    pat == ".hex"@ || pat == ".git"@ || pat == ".sessions"@ || pat == "node_modules"@ || pat
        == "_archive"@ || pat == "hex-archive"@ || pat == "."@ + name
}

/// Nothing is indexed below a directory with one of the barred names, wherever it
/// lies, and everything else may be: a path is skipped if and only if one of its
/// components begins with such a name.
pub proof fn law_barred_directories(name: Seq<char>, path: Seq<char>)
    ensures
        skipped(name, path) == exists|pat: Seq<char>, i: int|
            is_barred(pat, name) && #[trigger] text::occurs_at(path, pat, i) && (i == 0 || path[i - 1]
                == '/'),
{
    let pats = skip_patterns(name);
    reveal_strlit("/");
    if skipped(name, path) {
        let k = choose|k: int| 0 <= k < pats.len() && has_component(path, #[trigger] pats[k]);
        let pat = pats[k];
        assert(is_barred(pat, name));
        if text::starts_with(path, pat) {
            assert(text::occurs_at(path, pat, 0));
        } else {
            let i = choose|i: int| text::occurs_at(path, "/"@ + pat, i);
            let both = path.subrange(i, i + 1 + pat.len());
            assert(both == "/"@ + pat);
            assert(both[0] == '/');
            assert(path.subrange(i + 1, i + 1 + pat.len()) =~= both.skip(1));
            assert(("/"@ + pat).skip(1) =~= pat);
            assert(text::occurs_at(path, pat, i + 1));
        }
    }
    if exists|pat: Seq<char>, i: int|
        is_barred(pat, name) && #[trigger] text::occurs_at(path, pat, i) && (i == 0 || path[i - 1]
            == '/') {
        let (pat, i) = choose|pat: Seq<char>, i: int|
            is_barred(pat, name) && #[trigger] text::occurs_at(path, pat, i) && (i == 0 || path[i
                - 1] == '/');
        if i > 0 {
            assert(path.subrange(i - 1, i + pat.len()) =~= "/"@ + path.subrange(i, i + pat.len()));
            assert(text::occurs_at(path, "/"@ + pat, i - 1));
        }
        assert(has_component(path, pat));
        assert(pats[0] == ".hex"@ && pats[1] == "."@ + name && pats[2] == ".sessions"@ && pats[3]
            == "node_modules"@ && pats[4] == ".git"@ && pats[5] == "_archive"@ && pats[6]
            == "hex-archive"@);
        let k: int = if pat == pats[0] {
            0
        } else if pat == pats[1] {
            1
        } else if pat == pats[2] {
            2
        } else if pat == pats[3] {
            3
        } else if pat == pats[4] {
            4
        } else if pat == pats[5] {
            5
        } else {
            6
        };
        assert(has_component(path, pats[k]));
    }
}

proof fn lemma_starts(p: Seq<char>, rest: Seq<char>)
    ensures
        text::starts_with(p + rest, p),
{
    assert((p + rest).subrange(0, p.len() as int) =~= p);
}

/// What lies below `me`, `people` and `raw` is private, and nothing else is.
pub proof fn law_private_paths(path: Seq<char>)
    ensures
        private_path(path) == ((path.len() >= 3 && path.take(3) == seq!['m', 'e', '/']) || (
        path.len() >= 4 && path.take(4) == seq!['r', 'a', 'w', '/']) || (path.len() >= 7
            && path.take(7) == seq!['p', 'e', 'o', 'p', 'l', 'e', '/'])),
{
    reveal_strlit("me/");
    reveal_strlit("people/");
    reveal_strlit("raw/");
    assert("me/"@ =~= seq!['m', 'e', '/']);
    assert("raw/"@ =~= seq!['r', 'a', 'w', '/']);
    assert("people/"@ =~= seq!['p', 'e', 'o', 'p', 'l', 'e', '/']);
    if path.len() >= 3 {
        assert(path.subrange(0, 3) =~= path.take(3));
    }
    if path.len() >= 4 {
        assert(path.subrange(0, 4) =~= path.take(4));
    }
    if path.len() >= 7 {
        assert(path.subrange(0, 7) =~= path.take(7));
    }
}

/// What a source weighs, in tenths: decisions and people most, then what else is
/// about the user and their projects, transcripts least, and old ones less than
/// new ones.
pub proof fn law_weights(rest: Seq<char>, old: bool)
    ensures
        source_weight("me/decisions/"@ + rest, old) == 15,
        source_weight("people/"@ + rest, old) == 15,
        source_weight("projects/"@ + rest, old) == 12,
        source_weight("evolution/"@ + rest, old) == 12,
        source_weight("landings/"@ + rest, old) == 10,
        source_weight("raw/research"@ + rest, old) == 10,
        source_weight("raw/captures"@ + rest, old) == 8,
        source_weight("raw/transcripts"@ + rest, true) == 3,
        source_weight("raw/transcripts"@ + rest, false) == 5,
        !text::starts_with("me/"@ + rest, "me/decisions/"@) ==> source_weight("me/"@ + rest, old)
            == 12,
{
    reveal_strlit("me/decisions/");
    reveal_strlit("me/");
    reveal_strlit("people/");
    reveal_strlit("projects/");
    reveal_strlit("evolution/");
    reveal_strlit("landings/");
    reveal_strlit("raw/research");
    reveal_strlit("raw/captures");
    reveal_strlit("raw/transcripts");
    lemma_starts("me/decisions/"@, rest);
    lemma_starts("people/"@, rest);
    lemma_starts("projects/"@, rest);
    lemma_starts("evolution/"@, rest);
    lemma_starts("landings/"@, rest);
    lemma_starts("raw/research"@, rest);
    lemma_starts("raw/captures"@, rest);
    lemma_starts("raw/transcripts"@, rest);
    lemma_starts("me/"@, rest);
    assert forall|a: Seq<char>, p: Seq<char>, k: int|
        0 <= k < a.len() && k < p.len() && a[k] != p[k] implies !#[trigger] differs(a, p, k, rest) by {
        if text::starts_with(a + rest, p) {
            assert((a + rest).subrange(0, p.len() as int)[k] == p[k]);
        }
    }
    assert(!differs("me/decisions/"@, "raw/transcripts"@, 0, rest));
    assert(!differs("people/"@, "raw/transcripts"@, 0, rest));
    assert(!differs("projects/"@, "raw/transcripts"@, 0, rest));
    assert(!differs("projects/"@, "me/decisions/"@, 0, rest));
    assert(!differs("projects/"@, "people/"@, 1, rest));
    assert(!differs("evolution/"@, "raw/transcripts"@, 0, rest));
    assert(!differs("evolution/"@, "me/decisions/"@, 0, rest));
    assert(!differs("evolution/"@, "people/"@, 0, rest));
    assert(!differs("landings/"@, "raw/transcripts"@, 0, rest));
    assert(!differs("landings/"@, "me/decisions/"@, 0, rest));
    assert(!differs("landings/"@, "people/"@, 0, rest));
    assert(!differs("landings/"@, "me/"@, 0, rest));
    assert(!differs("landings/"@, "projects/"@, 0, rest));
    assert(!differs("landings/"@, "evolution/"@, 0, rest));
    assert(!differs("raw/research"@, "raw/transcripts"@, 4, rest));
    assert(!differs("raw/research"@, "me/decisions/"@, 0, rest));
    assert(!differs("raw/research"@, "people/"@, 0, rest));
    assert(!differs("raw/research"@, "me/"@, 0, rest));
    assert(!differs("raw/research"@, "projects/"@, 0, rest));
    assert(!differs("raw/research"@, "evolution/"@, 0, rest));
    assert(!differs("raw/captures"@, "raw/transcripts"@, 4, rest));
    assert(!differs("raw/captures"@, "me/decisions/"@, 0, rest));
    assert(!differs("raw/captures"@, "people/"@, 0, rest));
    assert(!differs("raw/captures"@, "me/"@, 0, rest));
    assert(!differs("raw/captures"@, "projects/"@, 0, rest));
    assert(!differs("raw/captures"@, "evolution/"@, 0, rest));
    assert(!differs("raw/captures"@, "landings/"@, 0, rest));
    assert(!differs("raw/captures"@, "raw/research"@, 4, rest));
    assert(!differs("me/"@, "raw/transcripts"@, 0, rest));
    assert(!differs("me/"@, "people/"@, 0, rest));
}

/// Whether a path that begins with `a` begins with `p`, which `a` itself rules out
/// at `k`.
spec fn differs(a: Seq<char>, p: Seq<char>, k: int, rest: Seq<char>) -> bool {
    text::starts_with(a + rest, p)
}

/// A transcript is old by the date in its name where it has one, from the eighth
/// day on, whatever its time of modification.
pub proof fn law_old_by_the_date(day: i32, today: int, modified_long_ago: bool)
    ensures
        old_transcript(Some(day), today, modified_long_ago) == (today - day > 7),
        old_transcript(None, today, modified_long_ago) == modified_long_ago,
{
}

proof fn lemma_entry_order(le: spec_fn(FoundEntry, FoundEntry) -> bool)
    requires
        forall|a: FoundEntry, b: FoundEntry| #[trigger] le(a, b) == entry_le(a, b),
    ensures
        order::total(le),
{
    assert forall|a: FoundEntry, b: FoundEntry| #[trigger] le(a, b) || #[trigger] le(b, a) by {
        text::lemma_text_le_total(
            text::replace_char(a.path@, '/', '\0'),
            text::replace_char(b.path@, '/', '\0'),
        );
    }
    assert forall|a: FoundEntry, b: FoundEntry, c: FoundEntry|
        #[trigger] le(a, b) && #[trigger] le(b, c) implies le(a, c) by {
        assert(entry_le(a, b) && entry_le(b, c));
        if is_md(a) == is_md(b) && is_md(b) == is_md(c) {
            text::lemma_text_le_trans(
                text::replace_char(a.path@, '/', '\0'),
                text::replace_char(b.path@, '/', '\0'),
                text::replace_char(c.path@, '/', '\0'),
            );
        }
    }
}

/// Whether a path is that of a file below a root that is called `.md` or `.txt`.
pub open spec fn is_text_of(path: Seq<char>, found: Seq<FoundEntry>) -> bool {
    exists|i: int|
        0 <= i < found.len() && (#[trigger] found[i]).path@ == path && found[i].depth > 0
            && found[i].is_file && found[i].name is Some && (text::ends_with(
            found[i].name->0@,
            ".md"@,
        ) || text::ends_with(found[i].name->0@, ".txt"@))
}

/// A root contributes every file below it that is called `.md` or `.txt`, once and
/// with its strategy, and nothing else.
pub proof fn law_roots_contribute_their_texts(found: Seq<FoundEntry>, strategy: Seq<char>)
    ensures
        selected(found, strategy).len() == found.filter(|e: FoundEntry| eligible(e)).len(),
        forall|i: int|
            0 <= i < found.len() && (#[trigger] found[i]).depth > 0 && found[i].is_file
                && found[i].name is Some && (text::ends_with(found[i].name->0@, ".md"@)
                || text::ends_with(found[i].name->0@, ".txt"@)) ==> selected(
                found,
                strategy,
            ).contains(
                (found[i].path@, if strategy == "tiered"@ && found[i].old {
                    "summary"@
                } else if strategy == "tiered"@ {
                    "full"@
                } else {
                    strategy
                }),
            ),
        forall|k: int|
            0 <= k < selected(found, strategy).len() ==> is_text_of(
                (#[trigger] selected(found, strategy)[k]).0,
                found,
            ),
{
    broadcast use vstd::seq_lib::group_to_multiset_ensures;

    let keep = |e: FoundEntry| eligible(e);
    let le = |a: FoundEntry, b: FoundEntry| entry_le(a, b);
    let kept = found.filter(keep);
    let ordered = order::sorted(kept, le);
    let row = |e: FoundEntry| (e.path@, file_strategy(strategy, e.old));
    let at = crate::lists::lemma_filter_places(found, keep);
    lemma_entry_order(le);
    order::lemma_sorted(kept, le);
    let out = selected(found, strategy);
    assert(out == ordered.map_values(row));
    assert forall|i: int|
        0 <= i < found.len() && (#[trigger] found[i]).depth > 0 && found[i].is_file
            && found[i].name is Some && (text::ends_with(found[i].name->0@, ".md"@)
            || text::ends_with(found[i].name->0@, ".txt"@)) implies out.contains(
        (found[i].path@, if strategy == "tiered"@ && found[i].old {
            "summary"@
        } else if strategy == "tiered"@ {
            "full"@
        } else {
            strategy
        }),
    ) by {
        assert(at.contains(i));
        let k = choose|k: int| 0 <= k < at.len() && at[k] == i;
        assert(kept[k] == found[i]);
        assert(kept.to_multiset().count(found[i]) > 0);
        assert(ordered.to_multiset().count(found[i]) > 0);
        let m = choose|m: int| 0 <= m < ordered.len() && ordered[m] == found[i];
        assert(out[m] == row(found[i]));
    }
    assert forall|k: int| 0 <= k < out.len() implies is_text_of((#[trigger] out[k]).0, found) by {
        let e = ordered[k];
        assert(ordered.contains(e));
        assert(ordered.to_multiset().count(e) > 0);
        assert(kept.to_multiset().count(e) > 0);
        let m = choose|m: int| 0 <= m < kept.len() && kept[m] == e;
        assert(at.contains(at[m]));
        assert(found[at[m]] == e);
        assert(keep(e));
    }
}

/// What is missing is what is recorded and not on disk: all of it and nothing else, in
/// its order.
pub proof fn law_missing(recorded: Seq<Seq<char>>, on_disk: Seq<Seq<char>>, name: Seq<char>)
    ensures
        lists::is_choice(
            missing(recorded, on_disk),
            recorded,
            |p: Seq<char>| !on_disk.contains(p),
        ),
        missing(recorded, on_disk).contains(name) == (recorded.contains(name)
            && !on_disk.contains(name)),
{
    let keep = |p: Seq<char>| !on_disk.contains(p);
    lists::lemma_filter_is_choice(recorded, keep, keep);
    let at = lists::lemma_filter_places(recorded, keep);
    let m = missing(recorded, on_disk);
    if m.contains(name) {
        let k = choose|k: int| 0 <= k < m.len() && m[k] == name;
        assert(at.contains(at[k]));
        assert(recorded[at[k]] == name);
    }
    if recorded.contains(name) && !on_disk.contains(name) {
        let i = choose|i: int| 0 <= i < recorded.len() && recorded[i] == name;
        assert(at.contains(i));
        let k = choose|k: int| 0 <= k < at.len() && at[k] == i;
        assert(m[k] == name);
    }
}

/// A section of up to 400 words is one chunk. A longer one is cut into parts of 400
/// words, the last one with what is left, and each part begins with the last 80 words of
/// the one before it; the parts behind the first are numbered in their headings.
pub proof fn law_parts_of_a_section(c: ChunkText, k: int)
    ensures
        text::words(c.content).len() <= 400 ==> cut(c) == seq![c],
        text::words(c.content).len() > 400 ==> ({
            let w = text::words(c.content);
            let n = cut(c).len() as int;
            &&& 320 * (n - 1) < w.len() <= 320 * n
            &&& 0 <= k < n ==> text::words(cut(c)[k].content) == w.subrange(
                320 * k,
                if 320 * k + 400 <= w.len() {
                    320 * k + 400
                } else {
                    w.len() as int
                },
            )
            &&& cut(c)[0].heading == c.heading
            &&& 0 < k < n ==> cut(c)[k].heading == c.heading + " (part "@ + text::numeral(
                (k + 1) as nat,
            ) + ")"@
        }),
{
    let w = text::words(c.content);
    text::lemma_words(c.content);
    if w.len() > 400 {
        lemma_parts(c.heading, w, 0);
        lemma_part_headings(c.heading, w, 0);
        let all = parts(c.heading, w, 0);
        let n = all.len() as int;
        assert(is_part(all[n - 1], w, n - 1));
        if 0 <= k < n {
            assert(is_part(all[k], w, k));
        }
    }
}

proof fn lemma_part_headings(name: Seq<char>, words: Seq<Seq<char>>, k: int)
    requires
        0 <= k,
    ensures
        forall|i: int|
            0 <= i < parts(name, words, k).len() ==> (#[trigger] parts(name, words, k)[i]).heading
                == part_heading(name, k + i),
        part_start(k) < words.len() ==> parts(name, words, k).len() > 0,
    decreases words.len() + MAX_CHUNK_WORDS - part_start(k),
{
    if part_start(k) < words.len() {
        lemma_part_headings(name, words, k + 1);
        let rest = parts(name, words, k + 1);
        let all = parts(name, words, k);
        assert forall|i: int| 0 <= i < all.len() implies (#[trigger] all[i]).heading == part_heading(
            name,
            k + i,
        ) by {
            if i > 0 {
                assert(all[i] == rest[i - 1]);
            }
        }
    }
}

/// A marked block runs from behind the comment that holds the start marker up to the
/// last comment that opens in front of the end marker, or up to the marker where none
/// does; markers are found without regard to case.
pub proof fn law_a_marked_block(s: Seq<char>, from: int, start: int, comment: int, end: int)
    requires
        0 <= from <= start,
        start <= comment,
        comment + 3 <= end < s.len(),
        matches_ci(s, "ecc:summary:start"@, start),
        forall|j: int| from <= j < start ==> !matches_ci(s, "ecc:summary:start"@, j),
        text::occurs_at(s, "-->"@, comment),
        forall|j: int| start <= j < comment ==> !text::occurs_at(s, "-->"@, j),
        matches_ci(s, "ecc:summary:end"@, end),
        forall|j: int| comment + 3 <= j < end ==> !matches_ci(s, "ecc:summary:end"@, j),
    ensures
        block_at(s, from) is Some,
        (block_at(s, from)->0).body == comment + 3,
        (block_at(s, from)->0).close == end || text::occurs_at(
            s,
            "<!--"@,
            (block_at(s, from)->0).close,
        ),
        comment + 3 <= (block_at(s, from)->0).close <= end,
        forall|j: int|
            (block_at(s, from)->0).close < j <= end - 4 ==> !text::occurs_at(s, "<!--"@, j),
        (block_at(s, from)->0).close == end ==> forall|j: int|
            comment + 3 <= j <= end - 4 ==> !text::occurs_at(s, "<!--"@, j),
        text::trim(s.subrange(comment + 3, (block_at(s, from)->0).close)).len() > 0
            ==> marked_blocks(s, from).len() > 0 && marked_blocks(s, from)[0] == text::trim(
            s.subrange(comment + 3, (block_at(s, from)->0).close),
        ),
{
    lemma_find_ci_from(s, "ecc:summary:start"@, from);
    text::lemma_find_from(s, "-->"@, start);
    lemma_find_ci_from(s, "ecc:summary:end"@, comment + 3);
    lemma_rfind(s, "<!--"@, comment + 3, end - 4);
    lemma_rfind_is_last(s, "<!--"@, comment + 3, end - 4);
    assert(find_ci_from(s, "ecc:summary:start"@, from) == Some(start));
    assert(text::find_from(s, "-->"@, start) == Some(comment));
    assert(find_ci_from(s, "ecc:summary:end"@, comment + 3) == Some(end));
    lemma_block(s, from);
}

proof fn lemma_rfind_is_last(s: Seq<char>, p: Seq<char>, low: int, i: int)
    ensures
        match rfind_from(s, p, low, i) {
            Some(k) => forall|j: int| k < j <= i ==> !text::occurs_at(s, p, j),
            None => forall|j: int| low <= j <= i ==> !text::occurs_at(s, p, j),
        },
    decreases i - low + 1,
{
    if i >= low && !text::occurs_at(s, p, i) {
        lemma_rfind_is_last(s, p, low, i - 1);
    }
}

/// Whether a line is a heading of level 1 to 3 that names a summary.
pub open spec fn names_a_summary(line: Seq<char>) -> bool {
    heading(line) is Some && (heading(line)->0).0 <= 3 && ({
        let title = text::lowercase((heading(line)->0).1);
        title == "summary"@ || title == "session summary"@ || title == "notes for next session"@
            || title == "tasks"@ || title == "files modified"@ || title == "stats"@
    })
}

/// Whether the lines from `a` up to `b` are a summary section: a heading that names a
/// summary, and what stands behind it up to the next heading of level 1 to 3.
pub open spec fn is_summary_section(lines: Seq<Seq<char>>, a: int, b: int) -> bool {
    &&& 0 <= a < b <= lines.len()
    &&& names_a_summary(lines[a])
    &&& forall|k: int|
        a < k < b ==> !(heading(#[trigger] lines[k]) is Some && (heading(lines[k])->0).0 <= 3)
    &&& b < lines.len() ==> heading(lines[b]) is Some && (heading(lines[b])->0).0 <= 3
}

/// The summary sections of a transcript are those under a heading that names a summary,
/// each up to the next heading of level 1 to 3: every one of them and nothing else.
pub proof fn law_summary_sections(lines: Seq<Seq<char>>, i: int)
    requires
        0 <= i <= lines.len(),
    ensures
        forall|a: int, b: int|
            i <= a && #[trigger] is_summary_section(lines, a, b) && text::trim(
                text::join(lines.subrange(a, b), "\n"@),
            ).len() > 0 ==> summary_sections(lines, i).contains(
                text::trim(text::join(lines.subrange(a, b), "\n"@)),
            ),
        forall|k: int|
            0 <= k < summary_sections(lines, i).len() ==> is_of_a_summary(
                #[trigger] summary_sections(lines, i)[k],
                lines,
            ),
    decreases lines.len() - i,
{
    if i < lines.len() {
        let u = summary_headings();
        assert(u[0] == "summary"@ && u[1] == "session summary"@ && u[2] == "notes for next session"@
            && u[3] == "tasks"@ && u[4] == "files modified"@ && u[5] == "stats"@);
        assert(is_summary_heading(lines[i]) == names_a_summary(lines[i]));
        let all = summary_sections(lines, i);
        if names_a_summary(lines[i]) {
            let j = next_section(lines, i + 1);
            lemma_next_section(lines, i + 1);
            lemma_next_section_is_next(lines, i + 1);
            law_summary_sections(lines, j);
            let first = trimmed_lines(lines, i, j);
            let rest = summary_sections(lines, j);
            assert(is_summary_section(lines, i, j));
            assert forall|a: int, b: int|
                i <= a && #[trigger] is_summary_section(lines, a, b) && text::trim(
                    text::join(lines.subrange(a, b), "\n"@),
                ).len() > 0 implies all.contains(
                text::trim(text::join(lines.subrange(a, b), "\n"@)),
            ) by {
                let t = text::trim(text::join(lines.subrange(a, b), "\n"@));
                if a == i {
                    assert(b == j) by {
                        if b < j {
                            assert(!is_section(lines[b]));
                        }
                        if j < b {
                            assert(is_section(lines[j]));
                        }
                    }
                    assert(all[0] == t);
                } else {
                    assert(a >= j) by {
                        if a < j {
                            assert(!is_section(lines[a]));
                        }
                    }
                    assert(rest.contains(t));
                    let k = choose|k: int| 0 <= k < rest.len() && rest[k] == t;
                    assert(all[k + kept(first).len()] == t);
                }
            }
            assert forall|k: int| 0 <= k < all.len() implies is_of_a_summary(
                #[trigger] all[k],
                lines,
            ) by {
                if k < kept(first).len() {
                    assert(all[k] == kept(first)[k]);
                    assert(is_summary_section(lines, i, j) && first == text::trim(
                        text::join(lines.subrange(i, j), "\n"@),
                    ));
                } else {
                    assert(all[k] == rest[k - kept(first).len()]);
                }
            }
        } else {
            law_summary_sections(lines, i + 1);
            assert(all == summary_sections(lines, i + 1));
        }
    }
}

/// Whether a text is that of a summary section.
pub open spec fn is_of_a_summary(t: Seq<char>, lines: Seq<Seq<char>>) -> bool {
    exists|a: int, b: int| #[trigger]
        is_summary_section(lines, a, b) && t == text::trim(
            text::join(lines.subrange(a, b), "\n"@),
        )
}

proof fn lemma_next_section_is_next(lines: Seq<Seq<char>>, i: int)
    requires
        0 <= i <= lines.len(),
    ensures
        forall|k: int| i <= k < next_section(lines, i) ==> !is_section(#[trigger] lines[k]),
        next_section(lines, i) < lines.len() ==> is_section(lines[next_section(lines, i)]),
    decreases lines.len() - i,
{
    if i < lines.len() && !is_section(lines[i]) {
        lemma_next_section_is_next(lines, i + 1);
    }
}

/// A run has ten minutes, unless the setting is a number of seconds; zero is no limit.
pub proof fn law_budget(n: nat, s: Seq<char>)
    ensures
        budget(None) == Some(600int),
        0 < n <= u64::MAX ==> budget(Some(text::numeral(n))) == Some(n as int),
        budget(Some(text::numeral(0))) is None,
        text::parse_unsigned(s) is Err ==> budget(Some(s)) == Some(600int),
{
    text::law_numerals_are_read_back(n);
    text::law_numerals_are_read_back(0);
}

/// A gap is told if and only if chunks and vectors are not as many: as a warning where
/// vectors are missing, as a note where there are too many, with how many.
pub proof fn law_gap(chunks: int, vectors: int)
    ensures
        (gap_note(chunks, vectors) is None) == (chunks == vectors),
        vectors < chunks ==> text::starts_with(
            gap_note(chunks, vectors)->0,
            "WARNING: "@ + text::signed_numeral(chunks - vectors),
        ),
        vectors > chunks ==> text::starts_with(
            gap_note(chunks, vectors)->0,
            "NOTE: "@ + text::signed_numeral(vectors - chunks),
        ),
{
    if vectors < chunks {
        let p = "WARNING: "@ + text::signed_numeral(chunks - vectors);
        let s = gap_note(chunks, vectors)->0;
        assert(s.subrange(0, p.len() as int) =~= p);
    }
    if vectors > chunks {
        let p = "NOTE: "@ + text::signed_numeral(vectors - chunks);
        let s = gap_note(chunks, vectors)->0;
        assert(s.subrange(0, p.len() as int) =~= p);
    }
}

/// The workspace itself is searched without its subdirectories and everything else
/// whole; only transcripts are tiered.
pub proof fn law_roots(k: int)
    requires
        0 <= k < roots().len(),
    ensures
        roots().len() == 12,
        roots()[k].recursive == (roots()[k].relative != "."@),
        roots()[k].strategy == if roots()[k].relative == "raw/transcripts"@ {
            "tiered"@
        } else {
            "full"@
        },
        roots()[0].relative == "."@,
        roots()[1].relative == "me"@,
        roots()[2].relative == "projects"@,
        roots()[3].relative == "people"@,
        roots()[4].relative == "evolution"@,
        roots()[5].relative == "landings"@,
        roots()[6].relative == "raw/research"@,
        roots()[7].relative == "raw/captures"@,
        roots()[8].relative == "raw/transcripts"@,
        roots()[9].relative == "raw/docs"@,
        roots()[10].relative == "raw/messages"@,
        roots()[11].relative == "raw/calendar"@,
{
    reveal_strlit(".");
    reveal_strlit("me");
    reveal_strlit("projects");
    reveal_strlit("people");
    reveal_strlit("evolution");
    reveal_strlit("landings");
    reveal_strlit("raw/research");
    reveal_strlit("raw/captures");
    reveal_strlit("raw/transcripts");
    reveal_strlit("raw/docs");
    reveal_strlit("raw/messages");
    reveal_strlit("raw/calendar");
    assert("."@.len() == 1 && "me"@.len() == 2 && "projects"@.len() == 8 && "people"@.len() == 6);
    assert("evolution"@.len() == 9 && "landings"@.len() == 8 && "raw/research"@.len() == 12);
    assert("raw/captures"@.len() == 12 && "raw/transcripts"@.len() == 15 && "raw/docs"@.len() == 8);
    assert("raw/messages"@.len() == 12 && "raw/calendar"@.len() == 12);
}

/// The stem of a file name is what stands in front of its last dot; a dot at the front
/// opens no extension.
pub proof fn law_file_stem(stem: Seq<char>, extension: Seq<char>)
    requires
        stem.len() > 0,
        !extension.contains('.'),
        stem != "."@ || extension.len() > 0,
    ensures
        file_stem(stem + seq!['.'] + extension) == stem,
        file_stem(seq!['.'] + extension) == seq!['.'] + extension,
        file_stem(extension) == extension,
{
    let n = stem + seq!['.'] + extension;
    reveal_strlit("..");
    reveal_strlit(".");
    lemma_last_index(stem + seq!['.'], extension);
    lemma_last_index(seq!['.'], extension);
    lemma_last_index_none(extension);
    assert((stem + seq!['.']).last() == '.');
    assert(last_index(stem + seq!['.'], '.') == Some(stem.len() as int));
    assert(n.take(stem.len() as int) =~= stem);
    assert(n != ".."@) by {
        if n == ".."@ {
            assert(n.len() == 2);
            if extension.len() == 0 {
                assert(stem[0] == n[0]);
                assert(stem =~= "."@);
            }
        }
    }
    assert(seq!['.'] + extension != ".."@) by {
        if seq!['.'] + extension == ".."@ {
            assert((seq!['.'] + extension)[1] == '.');
            assert(extension[0] == '.');
        }
    }
    assert(extension != ".."@) by {
        if extension == ".."@ {
            assert(extension[0] == '.');
        }
    }
    assert(seq!['.'].drop_last() =~= Seq::<char>::empty());
}

proof fn lemma_last_index(front: Seq<char>, rest: Seq<char>)
    requires
        !rest.contains('.'),
    ensures
        last_index(front + rest, '.') == last_index(front, '.'),
    decreases rest.len(),
{
    if rest.len() == 0 {
        assert(front + rest =~= front);
    } else {
        let less = rest.drop_last();
        assert forall|i: int| 0 <= i < less.len() implies less[i] != '.' by {
            assert(rest.contains(rest[i]));
        }
        assert(rest.contains(rest[rest.len() - 1]));
        lemma_last_index(front, less);
        assert((front + rest).drop_last() =~= front + less);
        assert((front + rest).last() == rest.last());
    }
}

proof fn lemma_last_index_none(s: Seq<char>)
    requires
        !s.contains('.'),
    ensures
        last_index(s, '.') is None,
    decreases s.len(),
{
    if s.len() > 0 {
        let less = s.drop_last();
        assert forall|i: int| 0 <= i < less.len() implies less[i] != '.' by {
            assert(s.contains(s[i]));
        }
        assert(s.contains(s[s.len() - 1]));
        lemma_last_index_none(less);
    }
}

/// Markdown files come before text files, and files of one kind in the order of their
/// paths, component by component.
pub proof fn law_order_of_files(a: FoundEntry, b: FoundEntry)
    ensures
        a.name is Some && text::ends_with(a.name->0@, ".md"@) && !(b.name is Some
            && text::ends_with(b.name->0@, ".md"@)) ==> entry_le(a, b) && !entry_le(b, a),
        is_md(a) == is_md(b) ==> entry_le(a, b) == text::text_le(
            text::replace_char(a.path@, '/', '\0'),
            text::replace_char(b.path@, '/', '\0'),
        ),
{
}

/// A batch is of eight chunks, or of what is left; a failure ends the run of a file, and
/// costs only its batch where chunks are made up for.
pub proof fn law_batches(before: EmbedRun, after: EmbedRun, got: usize, stored: usize)
    requires
        before.wf(),
    ensures
        before.total() - before.next() >= 8 ==> before.batch_end() == before.next() + 8,
        before.total() - before.next() < 8 ==> before.batch_end() == before.total(),
        after.follows(before, BatchOutcome::Failed) ==> after.stored_count()
            == before.stored_count() && after.stopped() == !before.patient(),
        after.follows(before, BatchOutcome::Vectors { got, stored }) ==> !after.stopped()
            && after.next() == before.batch_end(),
        after.follows(before, BatchOutcome::Vectors { got, stored }) && got != before.batch_end()
            - before.next() ==> after.stored_count() == before.stored_count(),
        after.follows(before, BatchOutcome::Vectors { got, stored }) && got == before.batch_end()
            - before.next() ==> after.stored_count() == before.stored_count() + stored,
        after.follows(before, BatchOutcome::Failed) && before.patient() ==> after.next()
            == before.batch_end(),
{
}

/// Statistics tell each number under its own name, and each directory on a line.
pub proof fn law_stats_lines(s: IndexStats, k: int)
    ensures
        stats_lines(s)[0] == "Database: "@ + s.db_path@,
        stats_lines(s)[1] == "Size: "@ + s.size_kb@ + " KB"@,
        stats_lines(s)[3] == "Total chunks: "@ + text::signed_numeral(s.chunks as int),
        text::starts_with(
            stats_lines(s)[2],
            "Files indexed: "@ + text::signed_numeral(s.files as int),
        ),
        text::starts_with(
            stats_lines(s)[4],
            "Vector embeddings: "@ + text::signed_numeral(s.vectors as int),
        ),
        0 <= k < s.dirs@.len() ==> stats_lines(s)[stats_lines(s).len() - s.dirs@.len() + k] == "  "@
            + s.dirs@[k].0@ + ": "@ + text::signed_numeral(s.dirs@[k].1 as int) + " files, "@
            + text::signed_numeral(s.dirs@[k].2 as int) + " chunks"@,
        (s.chunks != s.vectors) ==> stats_lines(s)[5] == "  "@ + gap_note(
            s.chunks as int,
            s.vectors as int,
        )->0,
{
    let l = stats_lines(s);
    let f = "Files indexed: "@ + text::signed_numeral(s.files as int);
    assert(l[2].subrange(0, f.len() as int) =~= f);
    let v = "Vector embeddings: "@ + text::signed_numeral(s.vectors as int);
    assert(l[4].subrange(0, v.len() as int) =~= v);
}

/// What is found without regard to case is the first place where it stands.
pub proof fn law_find_without_case(s: Seq<char>, needle: Seq<char>, k: int)
    ensures
        0 <= k < s.len() && matches_ci(s, needle, k) && (forall|j: int|
            0 <= j < k ==> !matches_ci(s, needle, j)) ==> find_ci_from(s, needle, 0) == Some(k),
        (forall|j: int| 0 <= j < s.len() ==> !matches_ci(s, needle, j)) ==> find_ci_from(
            s,
            needle,
            0,
        ) is None,
{
    lemma_find_ci_from(s, needle, 0);
}

/// What is indexed is what each root contributes, root by root in their order.
pub proof fn law_what_is_indexable(found: Seq<Vec<FoundEntry>>, n: int, k: int, i: int)
    requires
        0 <= k < n,
        0 <= i < selected(found[k]@, roots()[k].strategy).len(),
    ensures
        indexable(found, n).contains(selected(found[k]@, roots()[k].strategy)[i]),
        indexable(found, k + 1).len() == indexable(found, k).len() + selected(
            found[k]@,
            roots()[k].strategy,
        ).len(),
        indexable(found, k + 1)[indexable(found, k).len() + i] == selected(
            found[k]@,
            roots()[k].strategy,
        )[i],
{
    lemma_indexable_has(found, n, k, i);
}

proof fn lemma_indexable_has(found: Seq<Vec<FoundEntry>>, n: int, k: int, i: int)
    requires
        0 <= k < n,
        0 <= i < selected(found[k]@, roots()[k].strategy).len(),
    ensures
        indexable(found, n).contains(selected(found[k]@, roots()[k].strategy)[i]),
    decreases n,
{
    let front = indexable(found, n - 1);
    let x = selected(found[k]@, roots()[k].strategy)[i];
    if k == n - 1 {
        assert(indexable(found, n)[front.len() + i] == x);
    } else {
        lemma_indexable_has(found, n - 1, k, i);
        let j = choose|j: int| 0 <= j < front.len() && front[j] == x;
        assert(indexable(found, n)[j] == x);
    }
}

/// A tiered root is indexed by the summaries of its old files and by the whole of the
/// others; any other root is indexed as it says, however old a file is.
pub proof fn law_strategy(strategy: Seq<char>, old: bool)
    ensures
        file_strategy("tiered"@, true) == "summary"@,
        file_strategy("tiered"@, false) == "full"@,
        strategy != "tiered"@ ==> file_strategy(strategy, old) == strategy,
{
}

} // verus!
