//! What goes into the embedder, and the housekeeping around it.
use crate::paths;
use crate::text::{self, str_eq};
use vstd::prelude::*;

verus! {

/// How old a lock must be to be left over, in nanoseconds.
pub const STALE_LOCK_NANOS: u128 = 60_000_000_000;

/// The resident megabytes that a line of `/proc/self/statm` names: its second
/// word counts pages of four kilobytes.
pub open spec fn resident(statm: Seq<char>) -> Option<int> {
    let w = text::words(statm);
    if w.len() < 2 {
        None
    } else {
        match text::parse_unsigned(w[1]) {
            Ok(pages) => Some(pages * 4096 / 1_048_576),
            Err(_) => None,
        }
    }
}

/// The resident megabytes, from what `/proc/self/statm` holds.
pub fn rss_mb(statm: &str) -> (r: Option<u64>)
    ensures
        match r {
            Some(n) => resident(statm@) == Some(n as int),
            None => resident(statm@) is None,
        },
{
    let w = text::split_words(statm);
    proof {
        assert(text::texts(w@).len() == w@.len());
    }
    if w.len() < 2 {
        return None;
    }
    proof {
        assert(text::texts(w@)[1] == w@[1]@);
    }
    match text::parse_u64(w[1].as_str()) {
        Ok(pages) => Some(pages / 256),
        Err(_) => None,
    }
}

/// The line about the resident memory at a point.
pub fn rss_line(label: &str, mb: Option<u64>) -> (r: String)
    ensures
        r@ == "[rss] "@ + label@ + ": "@ + match mb {
            Some(n) => text::numeral(n as nat) + " MB"@,
            None => "(unavailable on this platform)"@,
        },
{
    let mut r = "[rss] ".to_owned();
    r.append(label);
    r.append(": ");
    match mb {
        Some(n) => {
            let mut size = text::decimal(n);
            size.append(" MB");
            r.append(size.as_str());
        },
        None => {
            r.append("(unavailable on this platform)");
        },
    }
    r
}

/// Whether a file is a lock that a killed process has left: one whose age
/// cannot be told counts as left.
pub fn is_stale_lock(extension: Option<&str>, age_nanos: Option<u128>) -> (b: bool)
    ensures
        b == (crate::memory::provider::opt_str(extension) == Some("lock"@) && (age_nanos is None
            || age_nanos->0 > STALE_LOCK_NANOS)),
        b ==> age_nanos is None || age_nanos->0 > 60 * 1_000_000_000,
        !b && extension is Some && extension->0@ == "lock"@ ==> age_nanos is Some && age_nanos->0
            <= 60 * 1_000_000_000,
{
    let lock = match extension {
        Some(e) => str_eq(e, "lock"),
        None => false,
    };
    if !lock {
        return false;
    }
    match age_nanos {
        Some(n) => n > STALE_LOCK_NANOS,
        None => true,
    }
}

/// What is said of a lock that was removed.
pub fn cleared_lock(path: &str) -> (r: String)
    ensures
        r@ == "hex memory: cleared stale fastembed lock "@ + path@,
{
    let mut r = "hex memory: cleared stale fastembed lock ".to_owned();
    r.append(path);
    r
}

/// Where the models of a workspace are kept.
pub fn cache_dir(hex_root: &str) -> (r: String)
    ensures
        r@ == paths::joined(hex_root@, ".fastembed_cache"@),
{
    paths::join(hex_root, ".fastembed_cache")
}

pub open spec fn document_text(t: Seq<char>) -> Seq<char> {
    "search_document: "@ + t
}

/// Chunks as the embedder takes documents.
pub fn document_texts(texts: &Vec<String>) -> (r: Vec<String>)
    ensures
        text::texts(r@) == text::texts(texts@).map_values(|t: Seq<char>| document_text(t)),
{
    let mut out: Vec<String> = Vec::new();
    let mut i: usize = 0;
    while i < texts.len()
        invariant
            i <= texts@.len(),
            out@.len() == i,
            forall|k: int| 0 <= k < i ==> (#[trigger] out@[k])@ == document_text(texts@[k]@),
        decreases texts.len() - i,
    {
        let mut s = "search_document: ".to_owned();
        s.append(texts[i].as_str());
        out.push(s);
        i += 1;
    }
    proof {
        assert(text::texts(out@) =~= text::texts(texts@).map_values(
            |t: Seq<char>| document_text(t),
        ));
    }
    out
}

/// A query as the embedder takes it.
pub fn query_text(t: &str) -> (r: String)
    ensures
        r@ == "search_query: "@ + t@,
{
    let mut r = "search_query: ".to_owned();
    r.append(t);
    r
}

/// The resident size is that of the pages which the second word counts, at 256 pages to
/// the megabyte, and rounded down; without a number there is none.
pub proof fn law_resident(statm: Seq<char>, pages: nat)
    ensures
        text::words(statm).len() >= 2 && text::words(statm)[1] == text::numeral(pages) && pages
            <= u64::MAX ==> resident(statm) is Some && 256 * resident(statm)->0 <= pages < 256 * (
        resident(statm)->0 + 1),
        text::words(statm).len() < 2 ==> resident(statm) is None,
        text::words(statm).len() >= 2 && text::parse_unsigned(text::words(statm)[1]) is Err
            ==> resident(statm) is None,
{
    text::law_numerals_are_read_back(pages);
}

} // verus!
