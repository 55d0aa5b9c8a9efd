//! Statistics of the memory database.
use crate::json::{self, str_value, Json};
use crate::text::{self, signed_decimal};
use vstd::prelude::*;
use vstd::string::StringSliceAdditionalSpecFns;

verus! {

#[derive(Debug, Clone)]
pub struct StatsReport {
    pub files_indexed: i64,
    pub total_facts: i64,
    pub top_predicates: Vec<(String, i64)>,
    pub top_subjects: Vec<(String, i64)>,
    pub db_size_bytes: u64,
    pub last_consolidated: Option<String>,
    pub schema_version: Option<i64>,
    /// Bytes of registered transcripts that no run has distilled yet.
    pub backfill_pending_bytes: i64,
    /// Chunks without a vector; -1 where the query failed.
    pub unembedded_chunks: i64,
    /// Vectors without a chunk; -1 where the query failed.
    pub orphan_vectors: i64,
}

/// What the queries gave; a failed query gives nothing.
#[derive(Debug, Clone)]
pub struct RawStats {
    pub files_indexed: Option<i64>,
    pub total_facts: Option<i64>,
    pub top_predicates: Vec<(String, i64)>,
    pub top_subjects: Vec<(String, i64)>,
    pub db_size_bytes: Option<u64>,
    pub last_consolidated: Option<String>,
    pub schema_version: Option<i64>,
    /// For each transcript its size on disk, if it is there, and its watermark.
    pub transcripts: Vec<(Option<i64>, i64)>,
    pub unembedded_chunks: Option<i64>,
    pub orphan_vectors: Option<i64>,
}

/// Bytes behind the watermark of one transcript.
pub open spec fn pending_of(t: (Option<i64>, i64)) -> int {
    match t.0 {
        Some(size) => if size > t.1 {
            size - t.1
        } else {
            0
        },
        None => 0,
    }
}

/// Bytes behind the watermarks of the first `n` transcripts.
pub open spec fn pending(rows: Seq<(Option<i64>, i64)>, n: int) -> int
    decreases n,
{
    if n <= 0 {
        0
    } else {
        pending(rows, n - 1) + pending_of(rows[n - 1])
    }
}

proof fn lemma_pending_monotone(rows: Seq<(Option<i64>, i64)>, i: int, n: int)
    requires
        0 <= i <= n <= rows.len(),
    ensures
        0 <= pending(rows, i) <= pending(rows, n),
    decreases n,
{
    if i < n {
        lemma_pending_monotone(rows, i, n - 1);
    } else if n > 0 {
        lemma_pending_monotone(rows, i - 1, n - 1);
    }
}

fn sum_pending(rows: &Vec<(Option<i64>, i64)>) -> (total: i64)
    requires
        pending(rows@, rows@.len() as int) <= i64::MAX,
    ensures
        total == pending(rows@, rows@.len() as int),
{
    let mut total: i64 = 0;
    let mut i: usize = 0;
    while i < rows.len()
        invariant
            i <= rows@.len(),
            pending(rows@, rows@.len() as int) <= i64::MAX,
            total == pending(rows@, i as int),
            0 <= total,
        decreases rows.len() - i,
    {
        proof {
            lemma_pending_monotone(rows@, i as int, i as int);
            lemma_pending_monotone(rows@, i + 1, rows@.len() as int);
        }
        if let Some(size) = rows[i].0 {
            let off: i64 = rows[i].1;
            if size > off {
                total = total + (size - off);
            }
        }
        i += 1;
    }
    total
}

pub open spec fn or_int(a: Option<i64>, b: int) -> int {
    match a {
        Some(x) => x as int,
        None => b,
    }
}

fn int_or(a: Option<i64>, b: i64) -> (r: i64)
    ensures
        r == or_int(a, b as int),
{
    match a {
        Some(x) => x,
        None => b,
    }
}

/// The report from what the queries gave: a failed count is 0, but a failed
/// query for a gap shows as -1.
pub fn gather(raw: RawStats) -> (r: StatsReport)
    requires
        pending(raw.transcripts@, raw.transcripts@.len() as int) <= i64::MAX,
    ensures
        r.files_indexed == or_int(raw.files_indexed, 0),
        r.total_facts == or_int(raw.total_facts, 0),
        r.top_predicates == raw.top_predicates,
        r.top_subjects == raw.top_subjects,
        r.db_size_bytes == match raw.db_size_bytes {
            Some(n) => n,
            None => 0u64,
        },
        r.last_consolidated == raw.last_consolidated,
        r.schema_version == raw.schema_version,
        r.backfill_pending_bytes == pending(raw.transcripts@, raw.transcripts@.len() as int),
        r.unembedded_chunks == or_int(raw.unembedded_chunks, -1),
        r.orphan_vectors == or_int(raw.orphan_vectors, -1),
{
    let backfill_pending_bytes: i64 = sum_pending(&raw.transcripts);
    StatsReport {
        files_indexed: int_or(raw.files_indexed, 0),
        total_facts: int_or(raw.total_facts, 0),
        top_predicates: raw.top_predicates,
        top_subjects: raw.top_subjects,
        db_size_bytes: match raw.db_size_bytes {
            Some(n) => n,
            None => 0,
        },
        last_consolidated: raw.last_consolidated,
        schema_version: raw.schema_version,
        backfill_pending_bytes,
        unembedded_chunks: int_or(raw.unembedded_chunks, -1),
        orphan_vectors: int_or(raw.orphan_vectors, -1),
    }
}

// ── The table ────────────────────────────────────────────────────────────────
/// Slices that a number of bytes takes, at three and a half bytes a token and
/// 48000 tokens a slice, rounded up.
pub open spec fn slices(bytes: int) -> int {
    (bytes + 167_999) / 168_000
}

/// The longest name among the first `n` rows, in bytes of UTF-8.
pub open spec fn name_width(rows: Seq<(String, i64)>, n: int) -> int
    decreases n,
{
    if n <= 0 {
        0
    } else {
        let w = vstd::utf8::encode_utf8(rows[n - 1].0@).len() as int;
        if w > name_width(rows, n - 1) {
            w
        } else {
            name_width(rows, n - 1)
        }
    }
}

pub open spec fn count_line(row: (String, i64), width: int) -> Seq<char> {
    "  "@ + text::padded(row.0@, width) + "  "@ + text::signed_numeral(row.1 as int)
}

/// One line for each row, or a note that there is none.
pub open spec fn count_lines(rows: Seq<(String, i64)>) -> Seq<Seq<char>> {
    if rows.len() == 0 {
        seq!["  (none)"@]
    } else {
        rows.map_values(|r: (String, i64)| count_line(r, name_width(rows, rows.len() as int)))
    }
}

/// The lines before the top lists.
pub open spec fn head_lines(r: StatsReport, size_kb: Seq<char>) -> Seq<Seq<char>> {
    seq![
        "=== Memory Database Stats ==="@,
        ""@,
        "Files indexed:     "@ + text::signed_numeral(r.files_indexed as int),
        "Unembedded chunks: "@ + text::signed_numeral(r.unembedded_chunks as int)
            + "   (semantic recall misses these — index backfills ≤500/run)"@,
        "Orphan vectors:    "@ + text::signed_numeral(r.orphan_vectors as int)
            + "   (swept by hex memory maintain)"@,
        "Facts (live):      "@ + text::signed_numeral(r.total_facts as int),
        "DB size:           "@ + size_kb + " KB"@,
        "Schema version:    "@ + match r.schema_version {
            Some(v) => text::signed_numeral(v as int),
            None => "unknown"@,
        },
        "Last consolidated: "@ + match r.last_consolidated {
            Some(s) => s@,
            None => "never"@,
        },
        "Backfill pending:  "@ + text::signed_numeral(r.backfill_pending_bytes as int)
            + " bytes (~"@ + text::signed_numeral(slices(r.backfill_pending_bytes as int))
            + " slices @ 48k tokens)"@,
    ]
}

pub open spec fn table(r: StatsReport, size_kb: Seq<char>) -> Seq<Seq<char>> {
    head_lines(r, size_kb) + seq![""@, "Top predicates:"@] + count_lines(r.top_predicates@) + seq![
        ""@,
        "Top subjects:"@,
    ] + count_lines(r.top_subjects@)
}

fn line2(a: &str, b: &str) -> (r: String)
    ensures
        r@ == a@ + b@,
{
    let mut r = a.to_owned();
    r.append(b);
    r
}

fn line3(a: &str, b: &str, c: &str) -> (r: String)
    ensures
        r@ == a@ + b@ + c@,
{
    let mut r = a.to_owned();
    r.append(b);
    r.append(c);
    r
}

fn width_of(rows: &Vec<(String, i64)>) -> (w: usize)
    ensures
        w == name_width(rows@, rows@.len() as int),
{
    let mut w: usize = 0;
    let mut i: usize = 0;
    while i < rows.len()
        invariant
            i <= rows@.len(),
            w == name_width(rows@, i as int),
        decreases rows.len() - i,
    {
        let n: usize = rows[i].0.as_str().as_bytes().len();
        if n > w {
            w = n;
        }
        i += 1;
    }
    w
}

fn push_count_lines(out: &mut Vec<String>, rows: &Vec<(String, i64)>)
    ensures
        text::texts(final(out)@) == text::texts(old(out)@) + count_lines(rows@),
{
    let ghost before = text::texts(out@);
    if rows.len() == 0 {
        let l = "  (none)".to_owned();
        proof {
            text::lemma_texts_push(out@, l);
            assert(before.push(l@) =~= before + count_lines(rows@));
        }
        out.push(l);
        return;
    }
    let w: usize = width_of(rows);
    let ghost all = count_lines(rows@);
    let mut i: usize = 0;
    proof {
        assert(before =~= before + all.take(0));
    }
    while i < rows.len()
        invariant
            i <= rows@.len(),
            rows@.len() > 0,
            all == count_lines(rows@),
            w == name_width(rows@, rows@.len() as int),
            text::texts(out@) == before + all.take(i as int),
        decreases rows.len() - i,
    {
        let mut l = "  ".to_owned();
        l.append(text::pad(rows[i].0.as_str(), w).as_str());
        l.append("  ");
        l.append(signed_decimal(rows[i].1).as_str());
        proof {
            text::lemma_texts_push(out@, l);
            assert(all[i as int] == l@);
            assert(before + all.take(i + 1) =~= (before + all.take(i as int)).push(l@));
        }
        out.push(l);
        i += 1;
    }
    proof {
        assert(all.take(all.len() as int) =~= all);
    }
}

fn push_line(out: &mut Vec<String>, l: String)
    ensures
        text::texts(final(out)@) == text::texts(old(out)@).push(l@),
{
    proof {
        text::lemma_texts_push(out@, l);
    }
    out.push(l);
}

/// The report as lines of text; `size_kb` is the size of the database in
/// kilobytes.
pub fn print_table(r: &StatsReport, size_kb: &str) -> (lines: Vec<String>)
    requires
        0 <= r.backfill_pending_bytes <= i64::MAX - 167_999,
    ensures
        text::texts(lines@) == table(*r, size_kb@),
{
    let mut out: Vec<String> = Vec::new();
    proof {
        assert(text::texts(out@) =~= Seq::<Seq<char>>::empty());
    }
    push_line(&mut out, "=== Memory Database Stats ===".to_owned());
    push_line(&mut out, "".to_owned());
    push_line(
        &mut out,
        line2("Files indexed:     ", signed_decimal(r.files_indexed).as_str()),
    );
    push_line(
        &mut out,
        line3(
            "Unembedded chunks: ",
            signed_decimal(r.unembedded_chunks).as_str(),
            "   (semantic recall misses these — index backfills ≤500/run)",
        ),
    );
    push_line(
        &mut out,
        line3(
            "Orphan vectors:    ",
            signed_decimal(r.orphan_vectors).as_str(),
            "   (swept by hex memory maintain)",
        ),
    );
    push_line(&mut out, line2("Facts (live):      ", signed_decimal(r.total_facts).as_str()));
    push_line(&mut out, line3("DB size:           ", size_kb, " KB"));
    let version = match r.schema_version {
        Some(v) => signed_decimal(v),
        None => "unknown".to_owned(),
    };
    push_line(&mut out, line2("Schema version:    ", version.as_str()));
    let last = match &r.last_consolidated {
        Some(s) => s.clone(),
        None => "never".to_owned(),
    };
    push_line(&mut out, line2("Last consolidated: ", last.as_str()));
    let n: i64 = (r.backfill_pending_bytes + 167_999) / 168_000;
    let mut l = line3(
        "Backfill pending:  ",
        signed_decimal(r.backfill_pending_bytes).as_str(),
        " bytes (~",
    );
    l.append(signed_decimal(n).as_str());
    l.append(" slices @ 48k tokens)");
    push_line(&mut out, l);
    proof {
        assert(text::texts(out@) =~= head_lines(*r, size_kb@));
    }
    push_line(&mut out, "".to_owned());
    push_line(&mut out, "Top predicates:".to_owned());
    proof {
        assert(text::texts(out@) =~= head_lines(*r, size_kb@) + seq![""@, "Top predicates:"@]);
    }
    push_count_lines(&mut out, &r.top_predicates);
    let ghost mid = text::texts(out@);
    push_line(&mut out, "".to_owned());
    push_line(&mut out, "Top subjects:".to_owned());
    proof {
        assert(text::texts(out@) =~= mid + seq![""@, "Top subjects:"@]);
    }
    push_count_lines(&mut out, &r.top_subjects);
    out
}

// ── JSON ─────────────────────────────────────────────────────────────────────
pub open spec fn is_opt_int(v: Json, n: Option<i64>) -> bool {
    match n {
        Some(x) => v == Json::Int(x),
        None => v == Json::Null,
    }
}

pub open spec fn is_opt_text(v: Json, s: Option<String>) -> bool {
    match s {
        Some(x) => json::text_of(v) == Some(x@),
        None => v == Json::Null,
    }
}

/// A list of objects with a name and a count.
pub open spec fn is_counts(v: Json, key: Seq<char>, rows: Seq<(String, i64)>) -> bool {
    &&& v matches Json::Array(a)
    &&& a@.len() == rows.len()
    &&& forall|i: int| 0 <= i < rows.len() ==> is_count(#[trigger] a@[i], key, rows[i])
}

pub open spec fn is_count(v: Json, key: Seq<char>, row: (String, i64)) -> bool {
    &&& v matches Json::Object(m)
    &&& m@.len() == 2
    &&& m@[0].0@ == key
    &&& json::text_of(m@[0].1) == Some(row.0@)
    &&& m@[1].0@ == "count"@
    &&& m@[1].1 == Json::Int(row.1)
}

/// A number of bytes, which may be larger than an integer of the report.
pub open spec fn is_size(v: Json, n: u64) -> bool {
    if n <= i64::MAX {
        v == Json::Int(n as i64)
    } else {
        v matches Json::Number(t) && t@ == text::numeral(n as nat)
    }
}

pub open spec fn is_report(v: Json, r: StatsReport) -> bool {
    &&& v matches Json::Object(m)
    &&& m@.len() == 10
    &&& m@[0].0@ == "files_indexed"@ && m@[0].1 == Json::Int(r.files_indexed)
    &&& m@[1].0@ == "total_facts"@ && m@[1].1 == Json::Int(r.total_facts)
    &&& m@[2].0@ == "db_size_bytes"@ && is_size(m@[2].1, r.db_size_bytes)
    &&& m@[3].0@ == "schema_version"@ && is_opt_int(m@[3].1, r.schema_version)
    &&& m@[4].0@ == "last_consolidated"@ && is_opt_text(m@[4].1, r.last_consolidated)
    &&& m@[5].0@ == "backfill_pending_bytes"@ && m@[5].1 == Json::Int(r.backfill_pending_bytes)
    &&& m@[6].0@ == "unembedded_chunks"@ && m@[6].1 == Json::Int(r.unembedded_chunks)
    &&& m@[7].0@ == "orphan_vectors"@ && m@[7].1 == Json::Int(r.orphan_vectors)
    &&& m@[8].0@ == "top_predicates"@ && is_counts(m@[8].1, "predicate"@, r.top_predicates@)
    &&& m@[9].0@ == "top_subjects"@ && is_counts(m@[9].1, "subject"@, r.top_subjects@)
}

fn counts_json(key: &str, rows: &Vec<(String, i64)>) -> (v: Json)
    ensures
        is_counts(v, key@, rows@),
{
    let mut a: Vec<Json> = Vec::new();
    let mut i: usize = 0;
    while i < rows.len()
        invariant
            i <= rows@.len(),
            a@.len() == i,
            forall|k: int| 0 <= k < i ==> is_count(#[trigger] a@[k], key@, rows@[k]),
        decreases rows.len() - i,
    {
        let mut m: Vec<(String, Json)> = Vec::new();
        m.push((key.to_owned(), str_value(rows[i].0.as_str())));
        m.push(("count".to_owned(), Json::Int(rows[i].1)));
        let item = Json::Object(m);
        proof {
            assert(is_count(item, key@, rows@[i as int]));
        }
        a.push(item);
        i += 1;
    }
    Json::Array(a)
}

/// The report as one object.
pub fn print_json(r: &StatsReport) -> (v: Json)
    ensures
        is_report(v, *r),
{
    let mut m: Vec<(String, Json)> = Vec::new();
    m.push(("files_indexed".to_owned(), Json::Int(r.files_indexed)));
    m.push(("total_facts".to_owned(), Json::Int(r.total_facts)));
    m.push(
        (
            "db_size_bytes".to_owned(),
            if r.db_size_bytes <= i64::MAX as u64 {
                Json::Int(r.db_size_bytes as i64)
            } else {
                Json::Number(text::decimal(r.db_size_bytes))
            },
        ),
    );
    m.push(
        (
            "schema_version".to_owned(),
            match r.schema_version {
                Some(n) => Json::Int(n),
                None => Json::Null,
            },
        ),
    );
    m.push(
        (
            "last_consolidated".to_owned(),
            match &r.last_consolidated {
                Some(s) => str_value(s.as_str()),
                None => Json::Null,
            },
        ),
    );
    m.push(("backfill_pending_bytes".to_owned(), Json::Int(r.backfill_pending_bytes)));
    m.push(("unembedded_chunks".to_owned(), Json::Int(r.unembedded_chunks)));
    m.push(("orphan_vectors".to_owned(), Json::Int(r.orphan_vectors)));
    m.push(("top_predicates".to_owned(), counts_json("predicate", &r.top_predicates)));
    m.push(("top_subjects".to_owned(), counts_json("subject", &r.top_subjects)));
    Json::Object(m)
}

// ── Laws ─────────────────────────────────────────────────────────────────────
/// What is pending is, of each transcript that is there, what lies behind its
/// watermark, taken together; one that is gone or fully read adds nothing.
pub proof fn law_pending(rows: Seq<(Option<i64>, i64)>, size: i64, watermark: i64, n: int)
    requires
        0 <= n <= rows.len(),
    ensures
        pending(rows, 0) == 0,
        pending(rows.push((None, watermark)), (rows.len() + 1) as int) == pending(rows, rows.len() as int),
        size >= watermark ==> pending(rows.push((Some(size), watermark)), (rows.len() + 1) as int) == pending(
            rows,
            rows.len() as int,
        ) + size - watermark,
        size < watermark ==> pending(rows.push((Some(size), watermark)), (rows.len() + 1) as int) == pending(
            rows,
            rows.len() as int,
        ),
        0 <= pending(rows, n) <= pending(rows, rows.len() as int),
{
    lemma_pending_front(rows, (None, watermark), rows.len() as int);
    lemma_pending_front(rows, (Some(size), watermark), rows.len() as int);
    lemma_pending_monotone(rows, n, rows.len() as int);
}

proof fn lemma_pending_front(rows: Seq<(Option<i64>, i64)>, t: (Option<i64>, i64), n: int)
    requires
        0 <= n <= rows.len(),
    ensures
        pending(rows.push(t), n) == pending(rows, n),
    decreases n,
{
    if n > 0 {
        lemma_pending_front(rows, t, n - 1);
    }
}

/// The slices are as many of 168,000 bytes as it takes to hold all, and no more.
pub proof fn law_slices(bytes: int)
    requires
        bytes >= 0,
    ensures
        slices(bytes) * 168_000 >= bytes,
        bytes > 0 ==> (slices(bytes) - 1) * 168_000 < bytes,
        slices(0) == 0,
{
}

/// The names of a list are padded to the longest of them, in bytes.
pub proof fn law_name_width(rows: Seq<(String, i64)>, n: int)
    requires
        0 <= n <= rows.len(),
    ensures
        forall|i: int|
            0 <= i < n ==> vstd::utf8::encode_utf8((#[trigger] rows[i]).0@).len() <= name_width(
                rows,
                n,
            ),
        n > 0 ==> name_width(rows, n) == 0 || exists|i: int|
            0 <= i < n && vstd::utf8::encode_utf8((#[trigger] rows[i]).0@).len() == name_width(
                rows,
                n,
            ),
    decreases n,
{
    if n > 0 {
        law_name_width(rows, n - 1);
        let w = vstd::utf8::encode_utf8(rows[n - 1].0@).len() as int;
        if w <= name_width(rows, n - 1) && n > 1 && name_width(rows, n - 1) != 0 {
            let i = choose|i: int|
                0 <= i < n - 1 && vstd::utf8::encode_utf8((#[trigger] rows[i]).0@).len()
                    == name_width(rows, n - 1);
            assert(vstd::utf8::encode_utf8(rows[i].0@).len() == name_width(rows, n));
        } else {
            assert(name_width(rows, n) == 0 || vstd::utf8::encode_utf8(rows[n - 1].0@).len()
                == name_width(rows, n));
        }
    }
}

/// A list has a line for each row, in order, with the name and behind it the count; an
/// empty one says that there is none.
pub proof fn law_count_lines(rows: Seq<(String, i64)>, k: int)
    ensures
        rows.len() == 0 ==> count_lines(rows) == seq!["  (none)"@],
        rows.len() > 0 ==> count_lines(rows).len() == rows.len(),
        0 <= k < rows.len() ==> count_lines(rows)[k] == "  "@ + text::padded(
            rows[k].0@,
            name_width(rows, rows.len() as int),
        ) + "  "@ + text::signed_numeral(rows[k].1 as int),
{
}

/// The table tells each number under its own name.
pub proof fn law_table(r: StatsReport, size_kb: Seq<char>)
    ensures
        table(r, size_kb).len() == 14 + count_lines(r.top_predicates@).len() + count_lines(
            r.top_subjects@,
        ).len(),
        text::ends_with(table(r, size_kb)[2], text::signed_numeral(r.files_indexed as int)),
        text::starts_with(
            table(r, size_kb)[3],
            "Unembedded chunks: "@ + text::signed_numeral(r.unembedded_chunks as int),
        ),
        text::starts_with(
            table(r, size_kb)[4],
            "Orphan vectors:    "@ + text::signed_numeral(r.orphan_vectors as int),
        ),
        text::ends_with(table(r, size_kb)[5], text::signed_numeral(r.total_facts as int)),
        table(r, size_kb)[8] == "Last consolidated: "@ + match r.last_consolidated {
            Some(s) => s@,
            None => "never"@,
        },
        table(r, size_kb)[7] == "Schema version:    "@ + match r.schema_version {
            Some(v) => text::signed_numeral(v as int),
            None => "unknown"@,
        },
        text::starts_with(
            table(r, size_kb)[9],
            "Backfill pending:  "@ + text::signed_numeral(r.backfill_pending_bytes as int),
        ),
        forall|k: int|
            0 <= k < count_lines(r.top_predicates@).len() ==> #[trigger] table(r, size_kb)[12 + k]
                == count_lines(r.top_predicates@)[k],
{
    let t = table(r, size_kb);
    let a = text::signed_numeral(r.files_indexed as int);
    assert(t[2].subrange(t[2].len() - a.len(), t[2].len() as int) =~= a);
    let f = text::signed_numeral(r.total_facts as int);
    assert(t[5].subrange(t[5].len() - f.len(), t[5].len() as int) =~= f);
    let u = "Unembedded chunks: "@ + text::signed_numeral(r.unembedded_chunks as int);
    assert(t[3].subrange(0, u.len() as int) =~= u);
    let o = "Orphan vectors:    "@ + text::signed_numeral(r.orphan_vectors as int);
    assert(t[4].subrange(0, o.len() as int) =~= o);
    let b = "Backfill pending:  "@ + text::signed_numeral(r.backfill_pending_bytes as int);
    assert(t[9].subrange(0, b.len() as int) =~= b);
}

/// A report is printed with each number under its own name; the counts keep their order,
/// each with what it counts.
pub proof fn law_report_json(v: Json, r: StatsReport, k: int)
    requires
        is_report(v, r),
    ensures
        json::member(v, "files_indexed"@) == Some(Json::Int(r.files_indexed)),
        json::member(v, "total_facts"@) == Some(Json::Int(r.total_facts)),
        r.db_size_bytes <= i64::MAX ==> json::member(v, "db_size_bytes"@) == Some(
            Json::Int(r.db_size_bytes as i64),
        ),
        json::member(v, "schema_version"@) == Some(
            match r.schema_version {
                Some(n) => Json::Int(n),
                None => Json::Null,
            },
        ),
        json::member(v, "backfill_pending_bytes"@) == Some(Json::Int(r.backfill_pending_bytes)),
        json::member(v, "unembedded_chunks"@) == Some(Json::Int(r.unembedded_chunks)),
        json::member(v, "orphan_vectors"@) == Some(Json::Int(r.orphan_vectors)),
        r.last_consolidated is Some ==> json::text_member(v, "last_consolidated"@) == Some(
            r.last_consolidated->0@,
        ),
        r.last_consolidated is None ==> json::member(v, "last_consolidated"@) == Some(Json::Null),
        json::member(v, "top_predicates"@) is Some && json::member(v, "top_predicates"@)->0 is Array,
        json::member(v, "top_subjects"@) is Some && json::member(v, "top_subjects"@)->0 is Array,
        ({
            let p = (json::member(v, "top_predicates"@)->0)->Array_0@;
            &&& p.len() == r.top_predicates@.len()
            &&& 0 <= k < p.len() ==> json::text_member(p[k], "predicate"@) == Some(
                r.top_predicates@[k].0@,
            ) && json::member(p[k], "count"@) == Some(Json::Int(r.top_predicates@[k].1))
        }),
        ({
            let s = (json::member(v, "top_subjects"@)->0)->Array_0@;
            &&& s.len() == r.top_subjects@.len()
            &&& 0 <= k < s.len() ==> json::text_member(s[k], "subject"@) == Some(
                r.top_subjects@[k].0@,
            ) && json::member(s[k], "count"@) == Some(Json::Int(r.top_subjects@[k].1))
        }),
{
    reveal_strlit("files_indexed");
    reveal_strlit("total_facts");
    reveal_strlit("db_size_bytes");
    reveal_strlit("schema_version");
    reveal_strlit("last_consolidated");
    reveal_strlit("backfill_pending_bytes");
    reveal_strlit("unembedded_chunks");
    reveal_strlit("orphan_vectors");
    reveal_strlit("top_predicates");
    reveal_strlit("top_subjects");
    reveal_strlit("predicate");
    reveal_strlit("subject");
    reveal_strlit("count");
    assert("files_indexed"@.len() == 13 && "files_indexed"@[0] == 'f');
    assert("db_size_bytes"@.len() == 13 && "db_size_bytes"@[0] == 'd' && "total_facts"@.len() == 11);
    assert("schema_version"@.len() == 14 && "schema_version"@[0] == 's');
    assert("last_consolidated"@.len() == 17 && "last_consolidated"@[0] == 'l');
    assert("backfill_pending_bytes"@.len() == 22);
    assert("unembedded_chunks"@.len() == 17 && "unembedded_chunks"@[0] == 'u');
    assert("orphan_vectors"@.len() == 14 && "orphan_vectors"@[0] == 'o');
    assert("top_predicates"@.len() == 14 && "top_predicates"@[0] == 't' && "top_subjects"@.len()
        == 12);
    assert("predicate"@.len() == 9 && "subject"@.len() == 7 && "count"@.len() == 5);
    reveal_with_fuel(json::member_index, 11);
    let m = v->Object_0@;
    let p = m[8].1->Array_0@;
    let s = m[9].1->Array_0@;
    if 0 <= k < p.len() {
        assert(is_count(p[k], "predicate"@, r.top_predicates@[k]));
    }
    if 0 <= k < s.len() {
        assert(is_count(s[k], "subject"@, r.top_subjects@[k]));
    }
}

} // verus!
