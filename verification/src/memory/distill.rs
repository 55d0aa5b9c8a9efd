//! Distilling facts from a growing transcript: where a run resumes, how large
//! a slice it takes, what a failure of the extraction does to the file's
//! strikes and watermark, and what a judged candidate writes.
use crate::memory::provider::ProviderError;
use crate::stamp;
use crate::telemetry::{self, note, TelemetryEvent, TelemetryText};
use crate::text::{self, decimal, str_eq};
use vstd::arithmetic::power2::pow2;
use vstd::prelude::*;
use vstd::string::StringSliceAdditionalSpecFns;
use vstd::utf8;

verus! {

/// What one run has done to the facts.
#[derive(Debug, Clone, Copy, PartialEq, Eq, Structural)]
pub struct DistillReport {
    pub adds: u32,
    pub updates: u32,
    pub noops: u32,
    pub flags: u32,
}

impl Default for DistillReport {
    fn default() -> (r: DistillReport)
        ensures
            r == (DistillReport { adds: 0, updates: 0, noops: 0, flags: 0 }),
    {
        DistillReport { adds: 0, updates: 0, noops: 0, flags: 0 }
    }
}

/// Smallest input budget.
pub const BUDGET_FLOOR_TOKENS: u32 = 2_000;

/// Input budget where none is configured.
pub const DEFAULT_INPUT_BUDGET_TOKENS: u32 = 48_000;

/// Failures in a row after which a slice is passed over.
pub const STRIKE_LIMIT: u32 = 3;

/// Characters of a reason that a telemetry row keeps.
pub const REASON_MAX_CHARS: usize = 150;

/// Characters of a flag that a telemetry row keeps.
pub const FLAG_MAX_CHARS: usize = 300;

// ── Where a run resumes ──────────────────────────────────────────────────────
/// The last character boundary at or before byte `i`.
pub open spec fn boundary_floor(bytes: Seq<u8>, i: int) -> int
    decreases i,
{
    if i <= 0 || utf8::is_char_boundary(bytes, i) {
        i
    } else {
        boundary_floor(bytes, i - 1)
    }
}

/// The byte offset that a run starts at: a stored offset behind the end of the
/// file starts over, one inside a character moves back to its start.
pub open spec fn resume_at(bytes: Seq<u8>, stored: int) -> int {
    if stored > bytes.len() {
        0
    } else {
        boundary_floor(bytes, stored)
    }
}

/// The text from byte `i` on.
pub open spec fn text_from(bytes: Seq<u8>, i: int) -> Seq<char> {
    utf8::decode_utf8(bytes.subrange(i, bytes.len() as int))
}

/// What a run tells of a stored offset that it does not use as it stands.
pub open spec fn resume_note(bytes: Seq<u8>, stored: int, path: Seq<char>) -> Option<Seq<char>> {
    if stored > bytes.len() {
        Some(
            "[distill] resume reset: stored offset "@ + text::numeral(stored as nat)
                + " > file length "@ + text::numeral(bytes.len()) + " for "@ + path
                + " — restarting at 0"@,
        )
    } else if boundary_floor(bytes, stored) != stored {
        Some(
            "[distill] resume reset: stored offset "@ + text::numeral(stored as nat)
                + " not a UTF-8 boundary for "@ + path + " — rounding down to "@ + text::numeral(
                boundary_floor(bytes, stored) as nat,
            ),
        )
    } else {
        None
    }
}

/// What a run does with a file before it asks the model.
#[derive(Debug, Clone, Copy, PartialEq, Eq, Structural)]
pub enum SpanStep {
    /// Nothing new.
    AtEnd,
    /// Too few new words for a call.
    TooShort,
    /// The new text starts at this byte.
    From(usize),
}

/// The step, and what to print of the stored offset.
#[derive(Debug)]
pub struct Resume {
    pub step: SpanStep,
    pub note: Option<String>,
}

proof fn lemma_boundary_floor(bytes: Seq<u8>, i: int)
    requires
        0 <= i <= bytes.len(),
        utf8::valid_utf8(bytes),
    ensures
        0 <= boundary_floor(bytes, i) <= i,
        utf8::is_char_boundary(bytes, boundary_floor(bytes, i)),
    decreases i,
{
    utf8::is_char_boundary_start_end_of_seq(bytes);
    if i > 0 && !utf8::is_char_boundary(bytes, i) {
        lemma_boundary_floor(bytes, i - 1);
    }
}

/// A run goes on within the text, at the start of a character.
pub proof fn lemma_resume_at(full: Seq<char>, stored: int)
    requires
        0 <= stored,
    ensures
        0 <= resume_at(utf8::encode_utf8(full), stored) <= utf8::encode_utf8(full).len(),
        utf8::is_char_boundary(utf8::encode_utf8(full), resume_at(utf8::encode_utf8(full), stored)),
{
    let b = utf8::encode_utf8(full);
    utf8::encode_utf8_valid_utf8(full);
    utf8::is_char_boundary_start_end_of_seq(b);
    if stored <= b.len() {
        lemma_boundary_floor(b, stored);
    }
}

/// Where to go on in a file whose content is `full`, given the stored byte
/// offset; a text of fewer than `min_tokens` words waits.
pub fn resume(full: &str, path: &str, stored: u64, min_tokens: usize) -> (r: Resume)
    ensures
        crate::json::is_text(r.note, resume_note(full.spec_bytes(), stored as int, path@)),
        ({
            let start = resume_at(full.spec_bytes(), stored as int);
            match r.step {
                SpanStep::AtEnd => start >= full.spec_bytes().len(),
                SpanStep::TooShort => start < full.spec_bytes().len() && text::words(
                    text_from(full.spec_bytes(), start),
                ).len() < min_tokens,
                SpanStep::From(o) => o == start && start < full.spec_bytes().len() && text::words(
                    text_from(full.spec_bytes(), start),
                ).len() >= min_tokens,
            }
        }),
{
    let bytes = full.as_bytes();
    let len: usize = bytes.len();
    proof {
        utf8::encode_utf8_valid_utf8(full@);
        utf8::is_char_boundary_start_end_of_seq(full.spec_bytes());
    }
    let mut message: Option<String> = None;
    let offset: usize = if stored > len as u64 {
        let mut m = "[distill] resume reset: stored offset ".to_owned();
        m.append(decimal(stored).as_str());
        m.append(" > file length ");
        m.append(decimal(len as u64).as_str());
        m.append(" for ");
        m.append(path);
        m.append(" — restarting at 0");
        message = Some(m);
        0
    } else {
        let at: usize = stored as usize;
        let mut o: usize = at;
        while o > 0 && !full.is_char_boundary(o)
            invariant
                o <= at <= full.spec_bytes().len(),
                boundary_floor(full.spec_bytes(), at as int) == boundary_floor(
                    full.spec_bytes(),
                    o as int,
                ),
            decreases o,
        {
            o -= 1;
        }
        proof {
            lemma_boundary_floor(full.spec_bytes(), at as int);
        }
        if o != at {
            let mut m = "[distill] resume reset: stored offset ".to_owned();
            m.append(decimal(stored).as_str());
            m.append(" not a UTF-8 boundary for ");
            m.append(path);
            m.append(" — rounding down to ");
            m.append(decimal(o as u64).as_str());
            message = Some(m);
        }
        o
    };
    if offset >= len {
        return Resume { step: SpanStep::AtEnd, note: message };
    }
    let (_, span) = full.split_at(offset);
    proof {
        utf8::encode_utf8_decode_utf8(span@);
        assert(span.spec_bytes() == full.spec_bytes().subrange(
            offset as int,
            full.spec_bytes().len() as int,
        ));
        assert(span@ == text_from(full.spec_bytes(), offset as int));
    }
    let found = text::split_words(span);
    proof {
        assert(text::texts(found@).len() == found@.len());
    }
    if found.len() < min_tokens {
        return Resume { step: SpanStep::TooShort, note: message };
    }
    Resume { step: SpanStep::From(offset), note: message }
}

// ── The slice ────────────────────────────────────────────────────────────────
/// The input budget: the configured one halved for each strike, not below the
/// floor.
pub open spec fn slice_budget(base: Option<u32>, strikes: u32) -> int {
    let full = match base {
        Some(b) => b,
        None => DEFAULT_INPUT_BUDGET_TOKENS,
    };
    let halvings = if strikes <= 20 {
        strikes as nat
    } else {
        20
    };
    let cut = full as int / pow2(halvings) as int;
    if cut >= BUDGET_FLOOR_TOKENS {
        cut
    } else {
        BUDGET_FLOOR_TOKENS as int
    }
}

pub fn input_budget(base: Option<u32>, strikes: u32) -> (b: u32)
    ensures
        b == slice_budget(base, strikes),
{
    let full: u32 = match base {
        Some(b) => b,
        None => DEFAULT_INPUT_BUDGET_TOKENS,
    };
    let shift: u32 = if strikes <= 20 {
        strikes
    } else {
        20
    };
    let cut: u32 = full >> shift;
    proof {
        vstd::bits::lemma_u32_shr_is_div(full, shift);
    }
    if cut >= BUDGET_FLOOR_TOKENS {
        cut
    } else {
        BUDGET_FLOOR_TOKENS
    }
}

/// Estimated tokens of a slice at three and a half bytes each, rounded up.
pub open spec fn estimate(bytes: int) -> int {
    let n = (2 * bytes + 6) / 7;
    if n <= u32::MAX {
        n
    } else {
        u32::MAX as int
    }
}

pub fn estimated_tokens(bytes: u64) -> (n: u32)
    ensures
        n == estimate(bytes as int),
{
    let n: u128 = (2 * bytes as u128 + 6) / 7;
    if n <= u32::MAX as u128 {
        n as u32
    } else {
        u32::MAX
    }
}

/// The slice that a call is made on.
#[derive(Debug, Clone)]
pub struct Slice {
    pub path: String,
    /// First byte of the slice.
    pub offset: u64,
    /// Bytes in the slice.
    pub bytes: u64,
    pub budget: u32,
    /// Failures so far.
    pub strikes: u32,
}

/// A slice over texts and numbers.
pub struct SliceText {
    pub path: Seq<char>,
    pub offset: int,
    pub bytes: int,
    pub budget: int,
    pub strikes: int,
}

impl View for Slice {
    type V = SliceText;

    open spec fn view(&self) -> SliceText {
        SliceText {
            path: self.path@,
            offset: self.offset as int,
            bytes: self.bytes as int,
            budget: self.budget as int,
            strikes: self.strikes as int,
        }
    }
}

impl SliceText {
    pub open spec fn end(self) -> int {
        self.offset + self.bytes
    }

    pub open spec fn est_tokens(self) -> int {
        estimate(self.bytes)
    }

    /// The slice ends within the range of offsets.
    pub open spec fn wf(self) -> bool {
        0 <= self.offset && 0 <= self.bytes && self.end() <= u64::MAX && 0 <= self.strikes
            < u32::MAX
    }
}

/// What is told of a slice that leaves a rest of the new text.
pub open spec fn partial_note(s: SliceText, span_bytes: int) -> Seq<char> {
    "[distill] partial slice: file="@ + s.path + " slice_bytes="@ + text::numeral(s.bytes as nat)
        + " est_tokens="@ + text::numeral(s.est_tokens() as nat) + " bytes_remaining="@
        + text::numeral((span_bytes - s.bytes) as nat) + " budget_tokens="@ + text::numeral(
        s.budget as nat,
    ) + " strikes="@ + text::numeral(s.strikes as nat)
}

pub open spec fn slice_note(s: SliceText, span_bytes: int) -> Option<Seq<char>> {
    if s.bytes < span_bytes {
        Some(partial_note(s, span_bytes))
    } else {
        None
    }
}

pub open spec fn slice_of(
    path: Seq<char>,
    offset: int,
    bytes: int,
    base: Option<u32>,
    strikes: u32,
) -> SliceText {
    SliceText {
        path,
        offset,
        bytes,
        budget: slice_budget(base, strikes),
        strikes: strikes as int,
    }
}

/// The slice of a text of `span_bytes` bytes from `offset` on, where the cap
/// allows `cap_len` of them, and what to print of it.
pub fn take_slice(
    path: &str,
    offset: u64,
    span_bytes: u64,
    cap_len: u64,
    base: Option<u32>,
    strikes: u32,
) -> (r: (Slice, Option<String>))
    requires
        cap_len <= span_bytes,
    ensures
        r.0@ == slice_of(path@, offset as int, cap_len as int, base, strikes),
        crate::json::is_text(r.1, slice_note(r.0@, span_bytes as int)),
{
    let budget: u32 = input_budget(base, strikes);
    let s = Slice { path: path.to_owned(), offset, bytes: cap_len, budget, strikes };
    if cap_len < span_bytes {
        let mut m = "[distill] partial slice: file=".to_owned();
        m.append(path);
        m.append(" slice_bytes=");
        m.append(decimal(cap_len).as_str());
        m.append(" est_tokens=");
        m.append(decimal(estimated_tokens(cap_len) as u64).as_str());
        m.append(" bytes_remaining=");
        m.append(decimal(span_bytes - cap_len).as_str());
        m.append(" budget_tokens=");
        m.append(decimal(budget as u64).as_str());
        m.append(" strikes=");
        m.append(decimal(strikes as u64).as_str());
        (s, Some(m))
    } else {
        (s, None)
    }
}

// ── Telemetry ────────────────────────────────────────────────────────────────
/// The detail of a telemetry row on a slice.
pub open spec fn slice_detail(s: SliceText, strikes: int, reason: Option<Seq<char>>) -> Seq<char> {
    let head = "path="@ + s.path + " offset="@ + text::numeral(s.offset as nat) + " bytes="@
        + text::numeral(s.bytes as nat) + " est_tokens="@ + text::numeral(s.est_tokens() as nat)
        + " strikes="@ + text::numeral(strikes as nat);
    match reason {
        Some(r) => head + " reason="@ + text::first_chars(
            text::replace_char(r, '\n', ' '),
            REASON_MAX_CHARS as nat,
        ),
        None => head,
    }
}

/// A telemetry row on a slice.
pub open spec fn slice_row(
    s: SliceText,
    outcome: Seq<char>,
    strikes: int,
    reason: Option<Seq<char>>,
) -> TelemetryText {
    telemetry::note_text(
        "memory::distill"@,
        "distill::slice"@,
        outcome,
        slice_detail(s, strikes, reason),
    )
}

/// A telemetry row on a slice. A reason is kept on one line and cut short,
/// never dropped.
pub fn telemetry_slice(s: &Slice, outcome: &str, strikes: u32, reason: Option<&str>) -> (e:
    TelemetryEvent)
    ensures
        e@ == slice_row(
            s@,
            outcome@,
            strikes as int,
            crate::memory::provider::opt_str(reason),
        ),
{
    let mut d = "path=".to_owned();
    d.append(s.path.as_str());
    d.append(" offset=");
    d.append(decimal(s.offset).as_str());
    d.append(" bytes=");
    d.append(decimal(s.bytes).as_str());
    d.append(" est_tokens=");
    d.append(decimal(estimated_tokens(s.bytes) as u64).as_str());
    d.append(" strikes=");
    d.append(decimal(strikes as u64).as_str());
    if let Some(r) = reason {
        let flat = text::replace(r, '\n', ' ');
        let clipped = text::take_chars(flat.as_str(), REASON_MAX_CHARS);
        d.append(" reason=");
        d.append(clipped.as_str());
    }
    note("memory::distill", "distill::slice", outcome, d)
}

/// A telemetry row for an observation that no stored fact can carry.
pub open spec fn flag_row(event: Seq<char>, status: Seq<char>, detail: Seq<char>) -> TelemetryText {
    telemetry::note_text(
        "memory::distill"@,
        event,
        status,
        text::first_chars(detail, FLAG_MAX_CHARS as nat),
    )
}

/// A telemetry row for an observation that no stored fact can carry.
pub fn record_flag_event(event: &str, status: &str, detail: &str) -> (e: TelemetryEvent)
    ensures
        e@ == flag_row(event@, status@, detail@),
{
    note("memory::distill", event, status, text::take_chars(detail, FLAG_MAX_CHARS))
}

// ── What an outcome does ─────────────────────────────────────────────────────
/// What is stored and told after a call on a slice.
#[derive(Debug)]
pub struct SlicePlan {
    /// The watermark moves to this byte.
    pub advance_to: Option<u64>,
    /// The failures in a row become this many.
    pub set_strikes: Option<u32>,
    /// Telemetry rows, in order.
    pub events: Vec<TelemetryEvent>,
    /// What to print.
    pub log: Option<String>,
}

/// What happens to the watermark.
pub open spec fn advance_after(s: SliceText, e: ProviderError) -> Option<u64> {
    match e {
        ProviderError::Deferred(_) => None,
        _ => if s.strikes + 1 >= STRIKE_LIMIT {
            Some(s.end() as u64)
        } else {
            None
        },
    }
}

/// What happens to the count of failures.
pub open spec fn strikes_after(s: SliceText, e: ProviderError) -> Option<u32> {
    match e {
        ProviderError::Deferred(_) => None,
        _ => if s.strikes + 1 >= STRIKE_LIMIT {
            Some(0u32)
        } else {
            Some((s.strikes + 1) as u32)
        },
    }
}

pub open spec fn byte_range(s: SliceText) -> Seq<char> {
    text::numeral(s.offset as nat) + ".."@ + text::numeral(s.end() as nat)
}

/// What is printed after a failure.
pub open spec fn failure_log(s: SliceText, e: ProviderError) -> Seq<char> {
    let n = text::numeral((s.strikes + 1) as nat);
    match e {
        ProviderError::Deferred(_) => {
            "[distill] DEFERRED (config problem — waiting for ops, NOT striking): file="@ + s.path
                + " bytes="@ + byte_range(s) + " budget_tokens="@ + text::numeral(s.budget as nat)
                + " reason="@ + e.text()
        },
        _ => if s.strikes + 1 >= STRIKE_LIMIT {
            "[distill] POISON SLICE SKIP: file="@ + s.path + " bytes="@ + byte_range(s)
                + " strikes="@ + n + " budget_tokens="@ + text::numeral(s.budget as nat)
                + " reason="@ + e.text()
        } else {
            "[distill] extract failed (strike "@ + n + " of 3): file="@ + s.path
                + " budget_tokens="@ + text::numeral(s.budget as nat) + " err="@ + e.text()
        },
    }
}

/// The warning one strike before a slice is passed over.
pub open spec fn strike_warning(s: SliceText, e: ProviderError) -> TelemetryText {
    flag_row(
        "distill::strike-warning"@,
        "error"@,
        "file at "@ + text::numeral((s.strikes + 1) as nat) + " of 3 strikes: "@ + s.path
            + " reason="@ + e.text(),
    )
}

/// The row that says that a slice is passed over.
pub open spec fn poison_skip(s: SliceText, e: ProviderError) -> TelemetryText {
    flag_row(
        "distill::poison-skip"@,
        "error"@,
        "POISON SLICE SKIP file="@ + s.path + " bytes="@ + byte_range(s) + " reason="@ + e.text(),
    )
}

/// The telemetry rows after a failure.
pub open spec fn failure_events(s: SliceText, e: ProviderError) -> Seq<TelemetryText> {
    match e {
        ProviderError::Deferred(_) => seq![
            slice_row(s, "deferred"@, s.strikes, Some(e.text())),
        ],
        _ => if s.strikes + 1 >= STRIKE_LIMIT {
            seq![slice_row(s, "skipped"@, s.strikes + 1, Some(e.text())), poison_skip(s, e)]
        } else if s.strikes + 1 == STRIKE_LIMIT - 1 {
            seq![strike_warning(s, e), slice_row(s, "failed"@, s.strikes + 1, Some(e.text()))]
        } else {
            seq![slice_row(s, "failed"@, s.strikes + 1, Some(e.text()))]
        },
    }
}

pub open spec fn event_texts(v: Seq<TelemetryEvent>) -> Seq<TelemetryText> {
    v.map_values(|e: TelemetryEvent| e@)
}

fn range_text(s: &Slice) -> (r: String)
    requires
        s@.wf(),
    ensures
        r@ == byte_range(s@),
{
    let mut r = decimal(s.offset);
    r.append("..");
    r.append(decimal(s.offset + s.bytes).as_str());
    r
}

/// What a failed extraction does. A problem of configuration waits: it leaves
/// strikes and watermark alone. Any other failure is a strike, and the third
/// in a row passes the slice over, loudly.
pub fn after_failure(s: &Slice, e: &ProviderError) -> (r: SlicePlan)
    requires
        s@.wf(),
    ensures
        r.advance_to == advance_after(s@, *e),
        r.set_strikes == strikes_after(s@, *e),
        event_texts(r.events@) == failure_events(s@, *e),
        r.log is Some,
        r.log->0@ == failure_log(s@, *e),
{
    let reason = e.message();
    let mut events: Vec<TelemetryEvent> = Vec::new();
    let deferred = match e {
        ProviderError::Deferred(_) => true,
        ProviderError::Upstream(_) => false,
        ProviderError::Truncated(_) => false,
    };
    if deferred {
        let mut m =
            "[distill] DEFERRED (config problem — waiting for ops, NOT striking): file=".to_owned();
        m.append(s.path.as_str());
        m.append(" bytes=");
        m.append(range_text(s).as_str());
        m.append(" budget_tokens=");
        m.append(decimal(s.budget as u64).as_str());
        m.append(" reason=");
        m.append(reason.as_str());
        events.push(telemetry_slice(s, "deferred", s.strikes, Some(reason.as_str())));
        return SlicePlan { advance_to: None, set_strikes: None, events, log: Some(m) };
    }
    let strikes: u32 = s.strikes + 1;
    if strikes == STRIKE_LIMIT - 1 {
        let mut d = "file at ".to_owned();
        d.append(decimal(strikes as u64).as_str());
        d.append(" of 3 strikes: ");
        d.append(s.path.as_str());
        d.append(" reason=");
        d.append(reason.as_str());
        events.push(record_flag_event("distill::strike-warning", "error", d.as_str()));
    }
    if strikes >= STRIKE_LIMIT {
        let mut m = "[distill] POISON SLICE SKIP: file=".to_owned();
        m.append(s.path.as_str());
        m.append(" bytes=");
        m.append(range_text(s).as_str());
        m.append(" strikes=");
        m.append(decimal(strikes as u64).as_str());
        m.append(" budget_tokens=");
        m.append(decimal(s.budget as u64).as_str());
        m.append(" reason=");
        m.append(reason.as_str());
        events.push(telemetry_slice(s, "skipped", strikes, Some(reason.as_str())));
        let mut d = "POISON SLICE SKIP file=".to_owned();
        d.append(s.path.as_str());
        d.append(" bytes=");
        d.append(range_text(s).as_str());
        d.append(" reason=");
        d.append(reason.as_str());
        events.push(record_flag_event("distill::poison-skip", "error", d.as_str()));
        SlicePlan {
            advance_to: Some(s.offset + s.bytes),
            set_strikes: Some(0),
            events,
            log: Some(m),
        }
    } else {
        let mut m = "[distill] extract failed (strike ".to_owned();
        m.append(decimal(strikes as u64).as_str());
        m.append(" of 3): file=");
        m.append(s.path.as_str());
        m.append(" budget_tokens=");
        m.append(decimal(s.budget as u64).as_str());
        m.append(" err=");
        m.append(reason.as_str());
        events.push(telemetry_slice(s, "failed", strikes, Some(reason.as_str())));
        SlicePlan { advance_to: None, set_strikes: Some(strikes), events, log: Some(m) }
    }
}

/// What a slice whose candidates were taken in does: the watermark passes it
/// and the strikes are forgotten.
pub fn after_success(s: &Slice) -> (r: SlicePlan)
    requires
        s@.wf(),
    ensures
        r.advance_to == Some(s@.end() as u64),
        r.set_strikes == Some(0u32),
        event_texts(r.events@) == seq![slice_row(s@, "ok"@, 0, None)],
        r.log is None,
{
    let mut events: Vec<TelemetryEvent> = Vec::new();
    events.push(telemetry_slice(s, "ok", 0, None));
    SlicePlan {
        advance_to: Some(s.offset + s.bytes),
        set_strikes: Some(0),
        events,
        log: None,
    }
}

/// The failure that the setting `HEX_DISTILL_FORCE_EXTRACT_FAIL` asks for in
/// place of a call.
pub fn forced_failure(setting: Option<&str>) -> (r: Option<ProviderError>)
    ensures
        match r {
            None => setting is None || setting->0@.len() == 0,
            Some(ProviderError::Deferred(m)) => setting is Some && text::ascii_lowered(setting->0@)
                == "deferred"@ && m@
                == "forced extract Deferred (HEX_DISTILL_FORCE_EXTRACT_FAIL=deferred test seam)"@,
            Some(ProviderError::Upstream(m)) => setting is Some && setting->0@.len() > 0
                && text::ascii_lowered(setting->0@) != "deferred"@ && m@
                == "forced extract failure (HEX_DISTILL_FORCE_EXTRACT_FAIL test seam)"@,
            Some(ProviderError::Truncated(_)) => false,
        },
{
    match setting {
        None => None,
        Some(v) => {
            if v.is_empty() {
                return None;
            }
            let low = text::to_ascii_lower(v);
            if str_eq(low.as_str(), "deferred") {
                return Some(
                    ProviderError::Deferred(
                        "forced extract Deferred (HEX_DISTILL_FORCE_EXTRACT_FAIL=deferred test seam)".to_owned(),
                    ),
                );
            }
            Some(
                ProviderError::Upstream(
                    "forced extract failure (HEX_DISTILL_FORCE_EXTRACT_FAIL test seam)".to_owned(),
                ),
            )
        },
    }
}

// ── Candidates ───────────────────────────────────────────────────────────────
/// A fact that the model has proposed.
#[derive(Debug, Clone)]
pub struct Candidate {
    pub subject: String,
    pub predicate: String,
    pub object: String,
}

pub struct CandidateText {
    pub subject: Seq<char>,
    pub predicate: Seq<char>,
    pub object: Seq<char>,
}

impl View for Candidate {
    type V = CandidateText;

    open spec fn view(&self) -> CandidateText {
        CandidateText {
            subject: self.subject@,
            predicate: self.predicate@,
            object: self.object@,
        }
    }
}

/// The predicate and object that a candidate is stored with: an unknown
/// predicate is kept in the object.
pub open spec fn effective(c: CandidateText, predicate_known: bool) -> (Seq<char>, Seq<char>) {
    if predicate_known {
        (c.predicate, c.object)
    } else {
        ("_unmapped"@, c.predicate + ": "@ + c.object)
    }
}

/// The predicate and object that a candidate is stored with.
pub fn effective_fact(c: &Candidate, predicate_known: bool) -> (r: (String, String))
    ensures
        (r.0@, r.1@) == effective(c@, predicate_known),
{
    if predicate_known {
        (c.predicate.clone(), c.object.clone())
    } else {
        let mut o = c.predicate.clone();
        o.append(": ");
        o.append(c.object.as_str());
        ("_unmapped".to_owned(), o)
    }
}

/// What the judge may say of a candidate.
#[derive(Debug, Clone, Copy, PartialEq, Eq, Structural)]
pub enum Action {
    Add,
    Update,
    Noop,
    Flag,
}

#[derive(Debug, Clone)]
pub struct Decision {
    pub action: Action,
    /// The stored fact that the decision is about.
    pub target_id: Option<String>,
    pub reason: String,
}

/// What a decision writes.
#[derive(Debug)]
pub enum FactWrite {
    /// A new fact with its history row.
    Insert,
    /// The fact with this id gets the new object, and a history row.
    Update(String),
    /// A history row on the fact with this id, with this text.
    FlagRow(String, String),
    /// No fact can carry it: a telemetry row.
    Event(TelemetryEvent),
    Nothing,
}

/// The rows of a new fact: the fact, and the first entry of its history, which
/// has the same id.
#[derive(Debug)]
pub struct FactRows {
    pub id: String,
    pub subject: String,
    pub predicate: String,
    pub object: String,
    pub source_ref: String,
    pub history_id: String,
    pub history_op: &'static str,
    pub history_value: String,
}

pub open spec fn is_fact_rows(
    r: FactRows,
    id: Seq<char>,
    subject: Seq<char>,
    pred: Seq<char>,
    obj: Seq<char>,
    path: Seq<char>,
) -> bool {
    &&& r.id@ == id
    &&& r.subject@ == subject
    &&& r.predicate@ == pred
    &&& r.object@ == obj
    &&& r.source_ref@ == path
    &&& r.history_id@ == id
    &&& r.history_op@ == "ADD"@
    &&& r.history_value@ == obj
}

/// The rows of a new fact under a given id.
pub fn fact_rows(id: String, subject: &str, pred: &str, obj: &str, path: &str) -> (r: FactRows)
    ensures
        is_fact_rows(r, id@, subject@, pred@, obj@, path@),
{
    FactRows {
        history_id: id.as_str().to_owned(),
        id,
        subject: subject.to_owned(),
        predicate: pred.to_owned(),
        object: obj.to_owned(),
        source_ref: path.to_owned(),
        history_op: "ADD",
        history_value: obj.to_owned(),
    }
}

/// The rows of a new fact under an id of its own.
pub fn insert_fact_with_history(subject: &str, pred: &str, obj: &str, path: &str) -> (r: FactRows)
    ensures
        stamp::base32_digits(r.id@),
        is_fact_rows(r, r.id@, subject@, pred@, obj@, path@),
{
    fact_rows(stamp::fresh_ulid(), subject, pred, obj, path)
}

/// A candidate in brackets.
pub open spec fn triple(subject: Seq<char>, pred: Seq<char>, obj: Seq<char>) -> Seq<char> {
    "("@ + subject + ","@ + pred + ","@ + obj + ")"@
}

pub(crate) fn triple_text(subject: &str, pred: &str, obj: &str) -> (r: String)
    ensures
        r@ == triple(subject@, pred@, obj@),
{
    let mut r = "(".to_owned();
    r.append(subject);
    r.append(",");
    r.append(pred);
    r.append(",");
    r.append(obj);
    r.append(")");
    r
}

/// A decision that names a stored fact.
pub open spec fn has_target(d: Decision) -> bool {
    d.target_id is Some && d.target_id->0@.len() > 0
}

/// What a decision writes, over texts.
pub enum WriteText {
    Insert,
    Update(Seq<char>),
    FlagRow(Seq<char>, Seq<char>),
    Event(TelemetryText),
    Nothing,
}

impl View for FactWrite {
    type V = WriteText;

    open spec fn view(&self) -> WriteText {
        match self {
            FactWrite::Insert => WriteText::Insert,
            FactWrite::Update(id) => WriteText::Update(id@),
            FactWrite::FlagRow(id, m) => WriteText::FlagRow(id@, m@),
            FactWrite::Event(e) => WriteText::Event(e@),
            FactWrite::Nothing => WriteText::Nothing,
        }
    }
}

/// What a decision on a candidate writes.
pub open spec fn write_for(
    subject: Seq<char>,
    pred: Seq<char>,
    obj: Seq<char>,
    d: Decision,
    path: Seq<char>,
) -> WriteText {
    let who = triple(subject, pred, obj);
    match d.action {
        Action::Add => WriteText::Insert,
        Action::Update => match d.target_id {
            Some(id) => WriteText::Update(id@),
            None => WriteText::Event(
                flag_row(
                    "distill::flag-untargeted"@,
                    "ok"@,
                    "judge said UPDATE without target_id for "@ + who + " in "@ + path + ": "@
                        + d.reason@,
                ),
            ),
        },
        Action::Noop => WriteText::Nothing,
        Action::Flag => if has_target(d) {
            WriteText::FlagRow(
                d.target_id->0@,
                "contested by: "@ + who + " — "@ + d.reason@,
            )
        } else {
            WriteText::Event(
                flag_row(
                    "distill::flag-untargeted"@,
                    "ok"@,
                    "contested, no target: "@ + who + " in "@ + path + " — "@ + d.reason@,
                ),
            )
        },
    }
}

/// The counters after a decision.
pub open spec fn counted(r: DistillReport, d: Decision) -> DistillReport {
    match d.action {
        Action::Add => DistillReport { adds: (r.adds + 1) as u32, ..r },
        Action::Update => if d.target_id is Some {
            DistillReport { updates: (r.updates + 1) as u32, ..r }
        } else {
            DistillReport { flags: (r.flags + 1) as u32, ..r }
        },
        Action::Noop => DistillReport { noops: (r.noops + 1) as u32, ..r },
        Action::Flag => DistillReport { flags: (r.flags + 1) as u32, ..r },
    }
}

/// No counter is about to overflow.
pub open spec fn has_room(r: DistillReport) -> bool {
    r.adds < u32::MAX && r.updates < u32::MAX && r.noops < u32::MAX && r.flags < u32::MAX
}

/// What the judge's decision on a candidate writes; `report` counts it as
/// written. A flag or an update that names no fact writes no history row: it
/// goes to telemetry.
pub fn apply_judge_decision(
    c: &Candidate,
    pred: &str,
    obj: &str,
    decision: &Decision,
    path: &str,
    report: &mut DistillReport,
) -> (w: FactWrite)
    requires
        has_room(*old(report)),
    ensures
        w@ == write_for(c.subject@, pred@, obj@, *decision, path@),
        *final(report) == counted(*old(report), *decision),
{
    match decision.action {
        Action::Add => {
            report.adds = report.adds + 1;
            FactWrite::Insert
        },
        Action::Update => match &decision.target_id {
            Some(id) => {
                report.updates = report.updates + 1;
                FactWrite::Update(id.clone())
            },
            None => {
                let mut m = "judge said UPDATE without target_id for ".to_owned();
                m.append(triple_text(c.subject.as_str(), pred, obj).as_str());
                m.append(" in ");
                m.append(path);
                m.append(": ");
                m.append(decision.reason.as_str());
                report.flags = report.flags + 1;
                FactWrite::Event(record_flag_event("distill::flag-untargeted", "ok", m.as_str()))
            },
        },
        Action::Noop => {
            report.noops = report.noops + 1;
            FactWrite::Nothing
        },
        Action::Flag => {
            report.flags = report.flags + 1;
            if let Some(id) = &decision.target_id {
                if !id.as_str().is_empty() {
                    let mut m = "contested by: ".to_owned();
                    m.append(triple_text(c.subject.as_str(), pred, obj).as_str());
                    m.append(" — ");
                    m.append(decision.reason.as_str());
                    return FactWrite::FlagRow(id.clone(), m);
                }
            }
            let mut m = "contested, no target: ".to_owned();
            m.append(triple_text(c.subject.as_str(), pred, obj).as_str());
            m.append(" in ");
            m.append(path);
            m.append(" — ");
            m.append(decision.reason.as_str());
            FactWrite::Event(record_flag_event("distill::flag-untargeted", "ok", m.as_str()))
        },
    }
}

/// What the search for similar facts says of a candidate.
#[derive(Debug)]
pub enum DedupOutcome {
    /// The fact with this id says the same.
    Noop(String),
    CleanAdd,
    /// The judge decides, or has failed with this error.
    Judged(Result<Decision, String>),
}

/// What a candidate writes.
#[derive(Debug)]
pub enum CandidateWrite {
    /// The fact with this id counts one access more.
    Touch(String),
    Fact(FactWrite),
}

/// What a candidate writes, over texts.
pub enum CandidateWriteText {
    Touch(Seq<char>),
    Fact(WriteText),
}

impl View for CandidateWrite {
    type V = CandidateWriteText;

    open spec fn view(&self) -> CandidateWriteText {
        match self {
            CandidateWrite::Touch(id) => CandidateWriteText::Touch(id@),
            CandidateWrite::Fact(w) => CandidateWriteText::Fact(w@),
        }
    }
}

pub open spec fn candidate_write(
    subject: Seq<char>,
    pred: Seq<char>,
    obj: Seq<char>,
    o: DedupOutcome,
    path: Seq<char>,
) -> CandidateWriteText {
    match o {
        DedupOutcome::Noop(id) => CandidateWriteText::Touch(id@),
        DedupOutcome::CleanAdd => CandidateWriteText::Fact(WriteText::Insert),
        DedupOutcome::Judged(Ok(d)) => CandidateWriteText::Fact(
            write_for(subject, pred, obj, d, path),
        ),
        DedupOutcome::Judged(Err(e)) => CandidateWriteText::Fact(
            WriteText::Event(
                flag_row(
                    "distill::judge-error"@,
                    "error"@,
                    "judge-error on "@ + triple(subject, pred, obj) + " in "@ + path + ": "@ + e@,
                ),
            ),
        ),
    }
}

/// The counters after a candidate.
pub open spec fn counted_outcome(r: DistillReport, o: DedupOutcome) -> DistillReport {
    match o {
        DedupOutcome::Noop(_) => DistillReport { noops: (r.noops + 1) as u32, ..r },
        DedupOutcome::CleanAdd => DistillReport { adds: (r.adds + 1) as u32, ..r },
        DedupOutcome::Judged(Ok(d)) => counted(r, d),
        DedupOutcome::Judged(Err(_)) => DistillReport { flags: (r.flags + 1) as u32, ..r },
    }
}

/// What one candidate of a slice writes; `report` counts it as written. A judge
/// that fails costs this candidate only, and says so in telemetry.
pub fn take_candidate(
    c: &Candidate,
    pred: &str,
    obj: &str,
    outcome: &DedupOutcome,
    path: &str,
    report: &mut DistillReport,
) -> (w: CandidateWrite)
    requires
        has_room(*old(report)),
    ensures
        *final(report) == counted_outcome(*old(report), *outcome),
        w@ == candidate_write(c.subject@, pred@, obj@, *outcome, path@),
{
    match outcome {
        DedupOutcome::Noop(id) => {
            report.noops = report.noops + 1;
            CandidateWrite::Touch(id.clone())
        },
        DedupOutcome::CleanAdd => {
            report.adds = report.adds + 1;
            CandidateWrite::Fact(FactWrite::Insert)
        },
        DedupOutcome::Judged(Ok(d)) => CandidateWrite::Fact(
            apply_judge_decision(c, pred, obj, d, path, report),
        ),
        DedupOutcome::Judged(Err(e)) => {
            let mut m = "judge-error on ".to_owned();
            m.append(triple_text(c.subject.as_str(), pred, obj).as_str());
            m.append(" in ");
            m.append(path);
            m.append(": ");
            m.append(e.as_str());
            report.flags = report.flags + 1;
            CandidateWrite::Fact(
                FactWrite::Event(record_flag_event("distill::judge-error", "error", m.as_str())),
            )
        },
    }
}

/// The row on a candidate whose writes failed and were rolled back.
pub open spec fn candidate_row(c: CandidateText, path: Seq<char>, error: Seq<char>) -> TelemetryText {
    flag_row(
        "distill::candidate-error"@,
        "error"@,
        "candidate rolled back "@ + triple(c.subject, c.predicate, c.object) + " in "@ + path
            + ": "@ + error,
    )
}

/// The row on a candidate whose writes failed and were rolled back: the rest
/// of the slice goes on.
pub fn candidate_error(c: &Candidate, path: &str, error: &str) -> (e: TelemetryEvent)
    ensures
        e@ == candidate_row(c@, path@, error@),
{
    let mut m = "candidate rolled back ".to_owned();
    m.append(
        triple_text(c.subject.as_str(), c.predicate.as_str(), c.object.as_str()).as_str(),
    );
    m.append(" in ");
    m.append(path);
    m.append(": ");
    m.append(error);
    record_flag_event("distill::candidate-error", "error", m.as_str())
}

// ── Laws ─────────────────────────────────────────────────────────────────────
/// The slice that the next run takes when nothing was added to the file: it
/// starts at the stored watermark and counts the stored strikes.
pub open spec fn retried(s: SliceText, e: ProviderError) -> SliceText {
    SliceText {
        offset: match advance_after(s, e) {
            Some(o) => o as int,
            None => s.offset,
        },
        strikes: match strikes_after(s, e) {
            Some(n) => n as int,
            None => s.strikes,
        },
        ..s
    }
}

/// A slice that fails every time is tried three times and then passed over:
/// the first two failures leave the watermark where it is, the third moves it
/// behind the slice and forgets the strikes.
pub proof fn law_three_strikes(s: SliceText, e1: ProviderError, e2: ProviderError, e3: ProviderError)
    requires
        s.wf(),
        s.strikes == 0,
        !(e1 is Deferred),
        !(e2 is Deferred),
        !(e3 is Deferred),
    ensures
        retried(s, e1).offset == s.offset,
        retried(s, e1).strikes == 1,
        retried(retried(s, e1), e2).offset == s.offset,
        retried(retried(s, e1), e2).strikes == 2,
        retried(retried(retried(s, e1), e2), e3).offset == s.end(),
        retried(retried(retried(s, e1), e2), e3).strikes == 0,
{
}

/// A problem of configuration never costs a strike and never moves the
/// watermark, however often it comes.
pub proof fn law_deferred_waits(s: SliceText, e: ProviderError)
    requires
        s.wf(),
        e is Deferred,
    ensures
        retried(s, e) == s,
        advance_after(s, e) is None,
        strikes_after(s, e) is None,
{
}

/// The input budget never falls below the floor nor grows with the strikes.
pub proof fn law_budget(base: Option<u32>, strikes: u32)
    requires
        strikes < u32::MAX,
    ensures
        slice_budget(base, strikes) >= BUDGET_FLOOR_TOKENS,
        slice_budget(base, (strikes + 1) as u32) <= slice_budget(base, strikes),
{
    let full = match base {
        Some(b) => b as int,
        None => DEFAULT_INPUT_BUDGET_TOKENS as int,
    };
    if strikes < 20 {
        vstd::arithmetic::power2::lemma_pow2_pos(strikes as nat);
        vstd::arithmetic::power2::lemma_pow2_strictly_increases(strikes as nat, (strikes + 1) as nat);
        vstd::arithmetic::div_mod::lemma_div_is_ordered_by_denominator(
            full,
            pow2(strikes as nat) as int,
            pow2((strikes + 1) as nat) as int,
        );
    }
}

/// How many candidates a report speaks of.
pub open spec fn candidates_counted(r: DistillReport) -> int {
    r.adds + r.updates + r.noops + r.flags
}

/// Every candidate is counted exactly once, whatever came of it, and the other
/// counters stay.
pub proof fn law_each_candidate_counts_once(r: DistillReport, o: DedupOutcome)
    requires
        has_room(r),
    ensures
        candidates_counted(counted_outcome(r, o)) == candidates_counted(r) + 1,
        counted_outcome(r, o).adds >= r.adds,
        counted_outcome(r, o).updates >= r.updates,
        counted_outcome(r, o).noops >= r.noops,
        counted_outcome(r, o).flags >= r.flags,
{
}

/// A run goes on at the last start of a character at or before the stored offset, so
/// that nothing is passed over; an offset behind the end starts over.
pub proof fn law_resume(full: Seq<char>, stored: int)
    requires
        0 <= stored,
    ensures
        ({
            let b = utf8::encode_utf8(full);
            &&& stored > b.len() ==> resume_at(b, stored) == 0
            &&& stored <= b.len() ==> 0 <= resume_at(b, stored) <= stored
            &&& utf8::is_char_boundary(b, resume_at(b, stored))
            &&& stored <= b.len() && utf8::is_char_boundary(b, stored) ==> resume_at(b, stored)
                == stored
            &&& stored <= b.len() ==> forall|j: int|
                resume_at(b, stored) < j <= stored ==> !(#[trigger] utf8::is_char_boundary(b, j))
        }),
{
    let b = utf8::encode_utf8(full);
    lemma_resume_at(full, stored);
    utf8::encode_utf8_valid_utf8(full);
    if stored <= b.len() {
        lemma_floor_is_last(b, stored);
    }
}

proof fn lemma_floor_is_last(bytes: Seq<u8>, i: int)
    requires
        0 <= i,
    ensures
        boundary_floor(bytes, i) <= i,
        forall|j: int|
            boundary_floor(bytes, i) < j <= i ==> !(#[trigger] utf8::is_char_boundary(bytes, j)),
    decreases i,
{
    if i > 0 && !utf8::is_char_boundary(bytes, i) {
        lemma_floor_is_last(bytes, i - 1);
    }
}

/// The budget without a strike is the configured one, 48,000 where none is; the first
/// strike halves it, the second halves it again, and it never falls below 2,000.
pub proof fn law_each_strike_halves(base: u32)
    ensures
        slice_budget(None, 0) == 48_000,
        base >= 2_000 ==> slice_budget(Some(base), 0) == base,
        base >= 4_000 ==> slice_budget(Some(base), 1) == base / 2,
        base >= 8_000 ==> slice_budget(Some(base), 2) == base / 4,
        base < 2_000 ==> slice_budget(Some(base), 0) == 2_000,
{
    vstd::arithmetic::power2::lemma2_to64();
    assert(DEFAULT_INPUT_BUDGET_TOKENS as int / pow2(0) as int == 48_000);
}

/// A token is estimated at three and a half bytes, and a part of one counts as one.
pub proof fn law_estimate(bytes: int)
    requires
        0 <= bytes,
        2 * bytes + 6 <= 7 * u32::MAX,
    ensures
        2 * bytes <= 7 * estimate(bytes),
        bytes > 0 ==> 7 * (estimate(bytes) - 1) < 2 * bytes,
        estimate(0) == 0,
{
}

/// What is told of a slice names its file, where it starts, how long it is and how often
/// it failed; a reason stands on one line and is cut to 150 characters, and a flag to 300.
pub proof fn law_what_is_told_of_a_slice(s: SliceText, strikes: int, reason: Seq<char>, d: Seq<char>)
    requires
        0 <= strikes,
    ensures
        slice_detail(s, strikes, None) == "path="@ + s.path + " offset="@ + text::numeral(
            s.offset as nat,
        ) + " bytes="@ + text::numeral(s.bytes as nat) + " est_tokens="@ + text::numeral(
            estimate(s.bytes) as nat,
        ) + " strikes="@ + text::numeral(strikes as nat),
        reason.len() <= 150 && !reason.contains('\n') ==> slice_detail(s, strikes, Some(reason))
            == slice_detail(s, strikes, None) + " reason="@ + reason,
        slice_detail(s, strikes, Some(reason)).len() <= slice_detail(s, strikes, None).len() + 8
            + 150,
        flag_row("e"@, "ok"@, d).detail->0.len() <= 300,
        d.len() <= 300 ==> flag_row("e"@, "ok"@, d).detail == Some(d),
{
    reveal_strlit(" reason=");
    let one = text::replace_char(reason, '\n', ' ');
    if !reason.contains('\n') {
        assert(one =~= reason);
    }
}

/// A failure is told as what it is: one that waits as deferred, one that counts as
/// failed, with a warning at the second of three, and the last as skipped, loudly.
pub proof fn law_what_is_told_of_a_failure(s: SliceText, e: ProviderError)
    requires
        s.wf(),
    ensures
        e is Deferred ==> failure_events(s, e).len() == 1 && failure_events(s, e)[0].status
            == "deferred"@,
        !(e is Deferred) && s.strikes == 0 ==> failure_events(s, e).len() == 1 && failure_events(
            s,
            e,
        )[0].status == "failed"@,
        !(e is Deferred) && s.strikes == 1 ==> failure_events(s, e).len() == 2 && failure_events(
            s,
            e,
        )[0].event == "distill::strike-warning"@ && failure_events(s, e)[1].status == "failed"@,
        !(e is Deferred) && s.strikes >= 2 ==> failure_events(s, e).len() == 2 && failure_events(
            s,
            e,
        )[0].status == "skipped"@ && failure_events(s, e)[1].event == "distill::poison-skip"@,
{
}

/// A candidate with a known predicate is stored as it is; one with another keeps the
/// predicate in its object.
pub proof fn law_effective(c: CandidateText)
    ensures
        effective(c, true) == (c.predicate, c.object),
        effective(c, false).0 == "_unmapped"@,
        text::starts_with(effective(c, false).1, c.predicate),
        text::ends_with(effective(c, false).1, c.object),
{
    let o = effective(c, false).1;
    assert(o.subrange(0, c.predicate.len() as int) =~= c.predicate);
    assert(o.subrange(o.len() - c.object.len(), o.len() as int) =~= c.object);
}

/// A decision to add inserts, one to update changes the fact that it names, one to do
/// nothing writes nothing, and one to flag marks the fact that it names; where an update
/// or a flag names none, it goes to telemetry and touches no fact.
pub proof fn law_decisions(
    subject: Seq<char>,
    pred: Seq<char>,
    obj: Seq<char>,
    d: Decision,
    path: Seq<char>,
)
    ensures
        (write_for(subject, pred, obj, d, path) is Insert) == (d.action is Add),
        (write_for(subject, pred, obj, d, path) is Nothing) == (d.action is Noop),
        (write_for(subject, pred, obj, d, path) is Update) == (d.action is Update
            && d.target_id is Some),
        d.action is Update && d.target_id is Some ==> write_for(subject, pred, obj, d, path)
            == WriteText::Update(d.target_id->0@),
        (write_for(subject, pred, obj, d, path) is FlagRow) == (d.action is Flag
            && d.target_id is Some && d.target_id->0@.len() > 0),
        d.action is Flag && d.target_id is Some && d.target_id->0@.len() > 0 ==> write_for(
            subject,
            pred,
            obj,
            d,
            path,
        )->FlagRow_0 == d.target_id->0@,
{
}

/// What came of a candidate is counted under its own name.
pub proof fn law_counted_under_its_name(r: DistillReport, d: Decision, id: String, e: String)
    requires
        has_room(r),
    ensures
        counted_outcome(r, DedupOutcome::CleanAdd).adds == r.adds + 1,
        counted_outcome(r, DedupOutcome::Noop(id)).noops == r.noops + 1,
        counted_outcome(r, DedupOutcome::Judged(Err(e))).flags == r.flags + 1,
        d.action is Add ==> counted_outcome(r, DedupOutcome::Judged(Ok(d))).adds == r.adds + 1,
        d.action is Noop ==> counted_outcome(r, DedupOutcome::Judged(Ok(d))).noops == r.noops + 1,
        d.action is Flag ==> counted_outcome(r, DedupOutcome::Judged(Ok(d))).flags == r.flags + 1,
        d.action is Update && d.target_id is Some ==> counted_outcome(
            r,
            DedupOutcome::Judged(Ok(d)),
        ).updates == r.updates + 1,
        d.action is Update && d.target_id is None ==> counted_outcome(
            r,
            DedupOutcome::Judged(Ok(d)),
        ).flags == r.flags + 1,
{
}

/// What came of a candidate decides what it writes: an equal fact is touched, a new one
/// inserted, and a judge that failed is told in telemetry alone.
pub proof fn law_candidate_writes(
    subject: Seq<char>,
    pred: Seq<char>,
    obj: Seq<char>,
    o: DedupOutcome,
    path: Seq<char>,
)
    ensures
        o is Noop ==> candidate_write(subject, pred, obj, o, path) == CandidateWriteText::Touch(
            o->Noop_0@,
        ),
        o is CleanAdd ==> candidate_write(subject, pred, obj, o, path) == CandidateWriteText::Fact(
            WriteText::Insert,
        ),
        o is Judged && o->Judged_0 is Err ==> candidate_write(subject, pred, obj, o, path) is Fact
            && candidate_write(subject, pred, obj, o, path)->Fact_0 is Event,
{
}

/// That a slice is but a part of the new text is told if and only if it is, with how many
/// bytes are left.
pub proof fn law_a_partial_slice_is_told(s: SliceText, span_bytes: int)
    ensures
        (slice_note(s, span_bytes) is Some) == (s.bytes < span_bytes),
        slice_note(s, span_bytes) is Some ==> text::starts_with(
            slice_note(s, span_bytes)->0,
            "[distill] partial slice: file="@ + s.path + " slice_bytes="@ + text::numeral(
                s.bytes as nat,
            ),
        ) && text::contains(
            slice_note(s, span_bytes)->0,
            " bytes_remaining="@ + text::numeral((span_bytes - s.bytes) as nat)
                + " budget_tokens="@ + text::numeral(s.budget as nat),
        ),
{
    if s.bytes < span_bytes {
        let t = slice_note(s, span_bytes)->0;
        let a = "[distill] partial slice: file="@ + s.path + " slice_bytes="@ + text::numeral(
            s.bytes as nat,
        );
        let b = " est_tokens="@ + text::numeral(s.est_tokens() as nat);
        let c = " bytes_remaining="@ + text::numeral((span_bytes - s.bytes) as nat)
            + " budget_tokens="@ + text::numeral(s.budget as nat);
        assert(t.subrange(0, a.len() as int) =~= a);
        let i = (a.len() + b.len()) as int;
        assert(t.subrange(i, i + c.len()) =~= c);
        assert(text::occurs_at(t, c, i));
    }
}

/// A fact is stored with its three parts and its file, and its history begins with its
/// addition, under the same identifier and with its object.
pub proof fn law_fact_rows(
    r: FactRows,
    id: Seq<char>,
    subject: Seq<char>,
    pred: Seq<char>,
    obj: Seq<char>,
    path: Seq<char>,
)
    requires
        is_fact_rows(r, id, subject, pred, obj, path),
    ensures
        r.id@ == id && r.subject@ == subject && r.predicate@ == pred && r.object@ == obj,
        r.source_ref@ == path,
        r.history_id@ == r.id@ && r.history_value@ == r.object@ && r.history_op@ == "ADD"@,
{
}

/// A row on a slice tells its file, where it starts and how long it is; a reason is told
/// on one line and by its first 150 characters.
pub proof fn law_slice_row(s: SliceText, outcome: Seq<char>, strikes: int, reason: Seq<char>)
    ensures
        slice_row(s, outcome, strikes, None).event == "distill::slice"@,
        slice_row(s, outcome, strikes, None).status == outcome,
        slice_row(s, outcome, strikes, None).detail is Some,
        text::starts_with(
            slice_row(s, outcome, strikes, None).detail->0,
            "path="@ + s.path + " offset="@ + text::numeral(s.offset as nat) + " bytes="@
                + text::numeral(s.bytes as nat),
        ),
        text::ends_with(
            slice_row(s, outcome, strikes, None).detail->0,
            " strikes="@ + text::numeral(strikes as nat),
        ),
        reason.len() <= 150 && !reason.contains('\n') ==> slice_row(
            s,
            outcome,
            strikes,
            Some(reason),
        ).detail->0 == slice_row(s, outcome, strikes, None).detail->0 + " reason="@ + reason,
        slice_row(s, outcome, strikes, Some(reason)).detail->0.len() <= slice_row(
            s,
            outcome,
            strikes,
            None,
        ).detail->0.len() + " reason="@.len() + 150,
{
    let t = slice_row(s, outcome, strikes, None).detail->0;
    let a = "path="@ + s.path + " offset="@ + text::numeral(s.offset as nat) + " bytes="@
        + text::numeral(s.bytes as nat);
    let b = " strikes="@ + text::numeral(strikes as nat);
    assert(t.subrange(0, a.len() as int) =~= a);
    assert(t.subrange(t.len() - b.len(), t.len() as int) =~= b);
    if !reason.contains('\n') {
        assert forall|i: int| 0 <= i < reason.len() implies reason[i] != '\n' by {
            assert(reason.contains(reason[i]));
        }
        assert(text::replace_char(reason, '\n', ' ') =~= reason);
    }
}

/// A candidate that was rolled back is told as an error with its three parts, its file
/// and what went wrong, 300 characters of it at most.
pub proof fn law_candidate_row(c: CandidateText, path: Seq<char>, error: Seq<char>)
    ensures
        candidate_row(c, path, error).event == "distill::candidate-error"@,
        candidate_row(c, path, error).status == "error"@,
        candidate_row(c, path, error).detail is Some,
        candidate_row(c, path, error).detail->0.len() <= 300,
        ({
            let whole = "candidate rolled back "@ + triple(c.subject, c.predicate, c.object)
                + " in "@ + path + ": "@ + error;
            whole.len() <= 300 ==> candidate_row(c, path, error).detail->0 == whole
        }),
{
}

/// That reading does not go on where it stopped is told if and only if it does not, with
/// where it stopped and the file.
pub proof fn law_resume_note(bytes: Seq<u8>, stored: int, path: Seq<char>)
    ensures
        (resume_note(bytes, stored, path) is Some) == (stored > bytes.len() || boundary_floor(
            bytes,
            stored,
        ) != stored),
        resume_note(bytes, stored, path) is Some ==> text::starts_with(
            resume_note(bytes, stored, path)->0,
            "[distill] resume reset: stored offset "@ + text::numeral(stored as nat),
        ),
        stored > bytes.len() ==> text::ends_with(
            resume_note(bytes, stored, path)->0,
            path + " — restarting at 0"@,
        ),
        stored <= bytes.len() && boundary_floor(bytes, stored) != stored ==> text::ends_with(
            resume_note(bytes, stored, path)->0,
            path + " — rounding down to "@ + text::numeral(boundary_floor(bytes, stored) as nat),
        ),
{
    if resume_note(bytes, stored, path) is Some {
        let s = resume_note(bytes, stored, path)->0;
        let p = "[distill] resume reset: stored offset "@ + text::numeral(stored as nat);
        assert(s.subrange(0, p.len() as int) =~= p);
        let e = if stored > bytes.len() {
            path + " — restarting at 0"@
        } else {
            path + " — rounding down to "@ + text::numeral(boundary_floor(bytes, stored) as nat)
        };
        assert(s.subrange(s.len() - e.len(), s.len() as int) =~= e);
    }
}

} // verus!
