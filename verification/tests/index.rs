use hex_harness::assistant::Assistant;
use hex_harness::memory::index::{
    chunk_by_heading, chunks_step, collect_source_root, content_hash, extract_summaries, find_ci,
    get_indexable_files, get_source_weight, is_old_transcript, is_private, keep_discovery_entry,
    needs_content_hash, no_index, parse_heading, plan_file, run_banner, run_budget, should_skip,
    show_stats, source_roots, transcript_is_old, vec_gap_message, BatchOutcome, BatchStep,
    ChunksStep, EmbedRun, EntryStep, FoundEntry, IndexStats,
};
use hex_harness::memory::run::{
    run_index, Action, Event, IndexRun, LockState, Move, Record, Removal, SourceFile,
};
use hex_harness::memory::sources::{checked_source_root, NodeKind, RootMove};

fn s(v: &str) -> String {
    v.to_string()
}

fn scribe() -> Assistant {
    Assistant::named("scribe")
}

fn heading(level: usize, text: &str) -> Option<(usize, String)> {
    Some((level, s(text)))
}

// ── Cutting a file ───────────────────────────────────────────────────────────

#[test]
fn test_parse_heading_basic() {
    assert_eq!(parse_heading("# Hello"), heading(1, "Hello"));
    assert_eq!(parse_heading("## Section"), heading(2, "Section"));
    assert_eq!(parse_heading("#### Deep"), heading(4, "Deep"));
    assert_eq!(parse_heading("##### TooDeep"), None);
    assert_eq!(parse_heading("Not a heading"), None);
    assert_eq!(parse_heading("#NoSpace"), None);
}

#[test]
fn test_chunk_by_heading_simple() {
    let content = "# Title\nSome content here.\n## Section\nMore content.";
    let chunks = chunk_by_heading(content, false);
    assert_eq!(chunks.len(), 2);
    assert_eq!(chunks[0].heading, "Title");
    assert!(chunks[0].content.contains("Some content"));
    assert_eq!(chunks[1].heading, "Section");
    assert_eq!(chunks[1].content, "## Section\nMore content.");
}

#[test]
fn test_chunk_large_content_splits_with_overlap() {
    let many_words = vec!["word"; 500].join(" ");
    let content = format!("# Big\n{}", many_words);
    let chunks = chunk_by_heading(content.as_str(), false);
    assert_eq!(chunks.len(), 2);
    assert_eq!(chunks[0].heading, "Big");
    assert_eq!(chunks[1].heading, "Big (part 2)");
    assert_eq!(chunks[0].content.split_whitespace().count(), 400);
    assert_eq!(chunks[1].content.split_whitespace().count(), 182);
}

#[test]
fn every_word_of_a_long_section_is_kept() {
    let words: Vec<String> = (0..1500).map(|i| format!("w{i}")).collect();
    let chunks = chunk_by_heading(&format!("# Long\n{}", words.join(" ")), false);
    let kept: Vec<&str> = chunks.iter().flat_map(|c| c.content.split_whitespace()).collect();
    assert!(words.iter().all(|w| kept.contains(&w.as_str())));
    assert!(chunks.iter().all(|c| c.content.split_whitespace().count() <= 400));
}

#[test]
fn the_words_of_a_file_are_told_once_and_in_order() {
    let long: Vec<String> = (0..1500).map(|i| format!("w{i}")).collect();
    let content = format!("intro text\n# Long\n{}\n\n## Next\nlast  words", long.join(" "));
    let mut told: Vec<&str> = Vec::new();
    let chunks = chunk_by_heading(&content, false);
    for c in &chunks {
        let shared = if c.heading.contains("(part ") && !c.heading.ends_with("(part 1)") {
            80
        } else {
            0
        };
        told.extend(c.content.split_whitespace().skip(shared));
    }
    let all: Vec<&str> = content.split_whitespace().collect();
    assert_eq!(told, all);
    assert!(chunks.len() > 4);
}

#[test]
fn consecutive_parts_share_eighty_words() {
    let words: Vec<String> = (0..900).map(|i| format!("w{i}")).collect();
    let chunks = chunk_by_heading(&words.join(" "), false);
    for pair in chunks.windows(2) {
        let a: Vec<&str> = pair[0].content.split_whitespace().collect();
        let b: Vec<&str> = pair[1].content.split_whitespace().collect();
        assert_eq!(a[a.len() - 80..], b[..80]);
    }
    let last: Vec<&str> = chunks.last().unwrap().content.split_whitespace().collect();
    assert_eq!(*last.last().unwrap(), "w899");
}

#[test]
fn test_chunk_deduplication() {
    let content = "# A\nSame content.\n# A\nSame content.";
    let chunks_dedup = chunk_by_heading(content, true);
    let chunks_no_dedup = chunk_by_heading(content, false);
    assert_eq!(chunks_no_dedup.len(), 2);
    assert_eq!(chunks_dedup.len(), 1);
}

#[test]
fn text_before_the_first_heading_is_a_chunk_of_its_own() {
    let chunks = chunk_by_heading("intro\n# A\nbody", false);
    assert_eq!(chunks.len(), 2);
    assert_eq!(chunks[0].content, "intro");
    assert_eq!(chunks[1].heading, "A");
    assert!(chunk_by_heading("  \n \n", false).is_empty());
}

#[test]
fn test_extract_summaries_handles_case_folding_length_change() {
    let prefix = "İ".repeat(30);
    let content = format!(
        "{prefix}\n<!-- ECC:SUMMARY:START -->\nThe actual summary text.\n<!-- ECC:SUMMARY:END -->\n"
    );
    let result = extract_summaries(&content);
    assert_eq!(result.trim(), "The actual summary text.");
}

#[test]
fn summaries_are_found_in_any_case_and_joined() {
    let content = "x <!-- ecc:summary:start -->one<!-- ECC:Summary:End --> y <!-- ECC:SUMMARY:START -->two<!-- ECC:SUMMARY:END -->";
    let result = extract_summaries(content);
    assert!(result.contains("one") && result.contains("two"));
    assert!(!result.contains('x') && !result.contains('y'));
    assert_eq!(extract_summaries("nothing here"), "");
    assert_eq!(find_ci("aBcD", "bc"), Some(1));
    assert_eq!(find_ci("abc", "zz"), None);
    assert_eq!(find_ci("İé😀 ABC", "abc"), Some(9));
    assert_eq!(find_ci("é", ""), Some(0));
}

#[test]
fn test_content_hash_deterministic() {
    let h1 = content_hash("hello world");
    let h2 = content_hash("hello world");
    let h3 = content_hash("different");
    assert_eq!(h1, h2);
    assert_ne!(h1, h3);
    assert_eq!(h1.len(), 64);
    assert_eq!(h1, "b94d27b9934d3e08a52e52d7da7dabfac484efe37a5380ee9088f7ace2efcde9");
}

// ── Which files, and how much they count ─────────────────────────────────────

#[test]
fn test_source_weight_matching() {
    // A weight is a number of tenths.
    assert_eq!(get_source_weight("me/decisions/foo.md", false), 15);
    assert_eq!(get_source_weight("people/alice.md", false), 15);
    assert_eq!(get_source_weight("me/journal.md", false), 12);
    assert_eq!(get_source_weight("projects/foo/bar.md", false), 12);
    assert_eq!(get_source_weight("evolution/x.md", false), 12);
    assert_eq!(get_source_weight("landings/today.md", false), 10);
    assert_eq!(get_source_weight("raw/research/paper.md", false), 10);
    assert_eq!(get_source_weight("raw/captures/clip.md", false), 8);
    assert_eq!(get_source_weight("raw/transcripts/2020-01-01.md", true), 3);
    assert_eq!(get_source_weight("raw/transcripts/2026-05-01.md", false), 5);
    assert_eq!(get_source_weight("misc/unknown.md", false), 10);
}

#[test]
fn test_is_private_paths() {
    assert!(is_private("me/decisions/foo.md"));
    assert!(is_private("people/alice/profile.md"));
    assert!(is_private("raw/transcripts/2026-05-01.md"));
    assert!(!is_private("projects/foo/context.md"));
    assert!(!is_private("SCRIBE.md"));
}

#[test]
fn test_should_skip_excludes_archives() {
    assert!(should_skip(&scribe(), "projects/_archive/foo/context.md"));
    assert!(should_skip(&scribe(), "projects/_archive/integrations-bakeoff/x.md"));
    assert!(should_skip(&scribe(), "hex-archive/projects/foo/bar.md"));
    assert!(!should_skip(&scribe(), "projects/active-thing/context.md"));
    assert!(!should_skip(&scribe(), "me/decisions/foo.md"));
    assert!(should_skip(&scribe(), "x/.scribe/y.md"));
    assert!(should_skip(&scribe(), ".hex/memory/a.md"));
}

#[test]
fn transcripts_age_by_name_or_by_modification() {
    // 2026-05-01 is day 739737 of the common era.
    let day = 739_737;
    assert!(!is_old_transcript("2026-05-01.md", day + 7, true));
    assert!(is_old_transcript("2026-05-01.md", day + 8, false));
    assert!(is_old_transcript("notes.md", day, true));
    assert!(!is_old_transcript("notes.md", day, false));
    assert!(transcript_is_old(Some(10), 18, false));
    assert!(!transcript_is_old(Some(10), 17, true));
    assert!(transcript_is_old(None, 0, true));
    assert!(!transcript_is_old(Some(i32::MAX), i32::MIN, true));
}

fn entry(path: &str, old: bool) -> FoundEntry {
    let name = path.rsplit('/').next().map(|n| n.to_string());
    FoundEntry { path: s(path), name, depth: 1, is_file: true, old }
}

/// Where a root lies in a workspace whose paths are of the given kinds, and the
/// paths that were looked at.
fn source_root(
    relative: &str,
    kinds: &[(&str, NodeKind)],
) -> (Vec<String>, Result<Option<String>, String>) {
    let (mut walk, mut step) = checked_source_root("/h", relative, Ok(true));
    let mut looked = Vec::new();
    loop {
        match step {
            RootMove::Settled(r) => return (looked, r),
            RootMove::Look(p) => {
                let kind = kinds.iter().find(|(k, _)| *k == p).map_or(NodeKind::Missing, |k| k.1);
                looked.push(p);
                step = walk.step(Ok(kind));
            }
        }
    }
}

#[test]
fn a_root_takes_part_when_no_component_is_a_link() {
    let dirs = [("/h/raw", NodeKind::Directory), ("/h/raw/docs", NodeKind::Directory)];
    let (looked, r) = source_root("raw/docs", &dirs);
    assert_eq!(looked, vec![s("/h/raw"), s("/h/raw/docs")]);
    assert_eq!(r, Ok(Some(s("/h/raw/docs"))));
    assert_eq!(source_root(".", &[]), (vec![], Ok(Some(s("/h")))));
    assert_eq!(source_root("raw/./docs", &dirs).1, Ok(Some(s("/h/raw/docs"))));

    let (looked, r) = source_root("raw/docs", &[("/h/raw", NodeKind::Symlink)]);
    assert_eq!((looked, r), (vec![s("/h/raw")], Ok(None)), "a link is not followed");
    assert_eq!(source_root("me", &[]).1, Ok(None), "a missing root is optional");
    assert_eq!(
        source_root("me", &[("/h/me", NodeKind::Other)]).1,
        Err(s("configured memory source component is not a directory: /h/me"))
    );
}

#[test]
fn a_root_that_cannot_be_checked_fails_discovery() {
    for relative in ["../x", "/x", "./x", "raw/../x"] {
        let (_, r) = source_root(relative, &[("/h/raw", NodeKind::Directory)]);
        assert_eq!(r, Err(format!("invalid configured memory source root: {relative}")));
    }
    let settled = |m: RootMove| match m {
        RootMove::Settled(r) => r,
        RootMove::Look(p) => panic!("looks at {p}"),
    };
    let (_, m) = checked_source_root("/h", "me", Ok(false));
    assert_eq!(settled(m), Err(s("memory source root is not a directory: /h")));
    let (_, m) = checked_source_root("/h", "me", Err(s("denied")));
    assert_eq!(settled(m), Err(s("denied")));
    let (mut walk, m) = checked_source_root("/h", "me", Ok(true));
    assert!(matches!(m, RootMove::Look(p) if p == "/h/me"));
    assert_eq!(settled(walk.step(Err(s("denied")))), Err(s("denied")));
}

#[test]
fn discovery_takes_markdown_once_and_by_strategy() {
    let roots = source_roots();
    assert!(roots.iter().any(|r| r.relative == "raw/transcripts" && r.strategy == "tiered"));
    assert_eq!(keep_discovery_entry(&scribe(), 1, false, Some("me/a.md")), EntryStep::Keep);
    assert_eq!(keep_discovery_entry(&scribe(), 1, true, Some("me/a.md")), EntryStep::Drop);
    assert_eq!(keep_discovery_entry(&scribe(), 1, false, Some("projects/_archive")), EntryStep::Drop);
    assert_eq!(keep_discovery_entry(&scribe(), 1, false, None), EntryStep::Escaped);
    let found = collect_source_root(vec![entry("/h/me/a.md", false), entry("/h/me/b.png", false)], "full");
    assert_eq!(found, vec![(s("/h/me/a.md"), s("full"))]);
}

/// What the walk of a root meets in a workspace of those files: the files and
/// directories below it, as deep as it goes, whose way nothing bars.
fn walk(root: &str, recursive: bool, files: &[String], today: i32) -> Vec<FoundEntry> {
    let mut met: Vec<FoundEntry> = Vec::new();
    for file in files {
        let below = if root == "." {
            Some(file.as_str())
        } else {
            file.strip_prefix(root).and_then(|r| r.strip_prefix('/'))
        };
        let Some(below) = below else { continue };
        let parts: Vec<&str> = below.split('/').collect();
        let deepest = if recursive { parts.len() } else { 1 };
        for depth in 1..=deepest {
            let tail = parts[..depth].join("/");
            let path = if root == "." { tail } else { format!("{root}/{tail}") };
            if keep_discovery_entry(&scribe(), depth, false, Some(&path)) != EntryStep::Keep {
                break;
            }
            if !met.iter().any(|e| e.path == path) {
                let name = parts[depth - 1];
                met.push(FoundEntry {
                    path,
                    name: Some(s(name)),
                    depth,
                    is_file: depth == parts.len(),
                    old: is_old_transcript(name, today, false),
                });
            }
        }
    }
    met
}

#[test]
fn memory_source_eligibility_characterizes_ordinary_selection() {
    let expected = [
        (".md", "full"),
        (".root-hidden.md", "full"),
        ("SCRIBE.md", "full"),
        (".txt", "full"),
        ("notes.txt", "full"),
        ("me/.profile.md", "full"),
        ("me/me.md", "full"),
        ("me/.notes/nested.txt", "full"),
        ("projects/example/.evidence.md", "full"),
        ("projects/example/context.md", "full"),
        ("people/alice/profile.txt", "full"),
        ("evolution/observations.md", "full"),
        ("landings/2099-01-01.md", "full"),
        ("raw/research/paper.md", "full"),
        ("raw/captures/clip.txt", "full"),
        ("raw/transcripts/2000-01-01.md", "summary"),
        ("raw/transcripts/2999-01-01.md", "full"),
        ("raw/docs/reference.md", "full"),
        ("raw/messages/message.txt", "full"),
        ("raw/calendar/event.md", "full"),
    ];
    let excluded = [
        "misc/deep.md",
        "me/UPPER.MD",
        "me/image.png",
        "projects/example/.scribe/ignored.md",
        "projects/example/.git/ignored.md",
        "projects/example/.hex/ignored.md",
        "projects/example/.sessions/ignored.md",
        "projects/example/_archive/ignored.md",
        "projects/example/hex-archive/ignored.md",
        "projects/example/node_modules/ignored.md",
        "raw/handoffs/ignored.md",
        "raw/reflect-runs/ignored.md",
        "raw/reflections/ignored.md",
        "raw/root.md",
    ];
    let today = chrono::NaiveDate::from_ymd_opt(2026, 6, 11).unwrap();
    let today = chrono::Datelike::num_days_from_ce(&today);
    let mut files: Vec<String> = expected.iter().map(|(p, _)| s(p)).collect();
    files.extend(excluded.iter().map(|p| s(p)));
    files.reverse();
    let found: Vec<Vec<FoundEntry>> = source_roots()
        .iter()
        .map(|r| walk(&r.relative, r.recursive, &files, today))
        .collect();
    let selected = get_indexable_files(found);
    let expected: Vec<(String, String)> =
        expected.iter().map(|(path, strategy)| (s(path), s(strategy))).collect();
    assert_eq!(selected.len(), expected.len());
    assert_eq!(selected, expected);
}

#[test]
fn indexable_files_cover_every_root() {
    let mut found: Vec<Vec<FoundEntry>> = source_roots().iter().map(|_| Vec::new()).collect();
    found[0].push(entry("/h/one.md", false));
    let files = get_indexable_files(found);
    assert_eq!(files.len(), 1);
    assert_eq!(files[0].0, "/h/one.md");
}

#[test]
fn a_file_is_planned_from_its_content() {
    let p = plan_file("me/decisions/a.md", "# A\nx\n# A\nx", "full");
    assert!(p.private);
    assert_eq!(p.weight, 15);
    assert_eq!(p.hash, content_hash("# A\nx\n# A\nx"));
    assert_eq!(p.chunks.len(), 1);
    let p = plan_file("raw/transcripts/2020-01-01.md", "no markers", "summary");
    assert!(p.chunks.is_empty());
}

// ── Embedding in batches ─────────────────────────────────────────────────────

/// Drives a run over chunks with an embedder that says, batch by batch, how
/// many vectors it gave; every accepted vector is stored.
fn embed_and_store<F: FnMut(usize) -> Option<usize>>(total: usize, mut embedder: F) -> (usize, usize) {
    let mut run = EmbedRun::new(total);
    let mut rows = 0;
    loop {
        match run.step() {
            BatchStep::Done => return (run.stored(), rows),
            BatchStep::Embed(from, to) => match embedder(to - from) {
                None => run.record(BatchOutcome::Failed),
                Some(got) => {
                    let stored = if run.accepts(got) { got } else { 0 };
                    rows += stored;
                    run.record(BatchOutcome::Vectors { got, stored });
                }
            },
        }
    }
}

#[test]
fn embed_and_store_persists_earlier_batches_when_a_later_batch_fails() {
    let mut calls = 0;
    let (stored, rows) = embed_and_store(20, |n| {
        calls += 1;
        if calls == 2 {
            None
        } else {
            Some(n)
        }
    });
    assert_eq!(stored, 8, "only the first batch should be stored");
    assert_eq!(rows, 8, "batch-1 vectors must be durable despite batch-2 failure");
}

#[test]
fn embed_and_store_persists_all_batches_on_success() {
    assert_eq!(embed_and_store(20, Some), (20, 20));
}

#[test]
fn embed_and_store_is_loud_and_skips_only_the_mismatched_batch() {
    let mut calls = 0;
    let (stored, rows) = embed_and_store(20, |n| {
        calls += 1;
        Some(if calls == 2 { n - 1 } else { n })
    });
    assert_eq!(stored, 12, "mismatched batch 2 skipped; batches 1 and 3 stored");
    assert_eq!(rows, 12);
}

#[test]
fn embed_and_store_skips_overcount_batch_without_truncating() {
    let (stored, rows) = embed_and_store(8, |n| Some(n + 1));
    assert_eq!(stored, 0, "over-count batch must be skipped, not truncated");
    assert_eq!(rows, 0);
}

#[test]
fn embed_and_store_handles_empty_and_exact_multiple_boundaries() {
    assert_eq!(embed_and_store(0, Some), (0, 0));
    assert_eq!(embed_and_store(16, Some), (16, 16));
}

#[test]
fn a_backfill_goes_on_after_a_failure() {
    let mut run = EmbedRun::backfill(12);
    assert_eq!(run.step(), BatchStep::Embed(0, 8));
    run.record(BatchOutcome::Failed);
    assert_eq!(run.step(), BatchStep::Embed(8, 12));
    run.record(BatchOutcome::Vectors { got: 4, stored: 4 });
    assert_eq!(run.step(), BatchStep::Done);
    assert_eq!(run.stored(), 4);
}

// ── A run ────────────────────────────────────────────────────────────────────

#[test]
fn vec_gap_message_distinguishes_deficit_surplus_and_match() {
    assert_eq!(vec_gap_message(10, 10), None, "equal counts → no message");
    let deficit = vec_gap_message(10, 7).expect("deficit must report");
    assert!(deficit.contains("3 chunk(s) without a vector"), "got: {deficit}");
    let surplus = vec_gap_message(16688, 18522).expect("surplus must report");
    assert!(surplus.contains("1834 orphan vector(s)"), "got: {surplus}");
    assert!(surplus.contains("surplus"), "got: {surplus}");
}

#[test]
fn run_budget_default_disable_tune_and_garbage_fallback() {
    assert_eq!(run_budget(None), Some(600), "default 10min");
    assert_eq!(run_budget(Some("0")), None, "0 disables the cap");
    assert_eq!(run_budget(Some("30")), Some(30), "explicit value honored");
    assert_eq!(run_budget(Some("notanumber")), Some(600), "garbage falls back to the default, never panics");
}

fn source(path: &str, strategy: &str) -> SourceFile {
    SourceFile { path: format!("/h/{path}"), rel: Some(s(path)), strategy: s(strategy) }
}

/// A run that has found these files and these records, and its next move.
fn begun(full: bool, budget: Option<u64>, files: Vec<SourceFile>, records: Vec<(&str, &str)>) -> (IndexRun, Move) {
    let (mut run, m) = run_index("/h", full, budget);
    assert!(matches!(m.action, Action::MakeDir(p) if p == "/h/.hex"));
    let m = run.step(Event::Directory(Ok(())));
    assert!(matches!(m.action, Action::TakeLock(p) if p == "/h/.hex/memory-index.lock"));
    let m = run.step(Event::Lock(LockState::Taken));
    assert!(matches!(m.action, Action::Discover));
    let n = files.len();
    let m = run.step(Event::Files(Ok(files)));
    assert!(matches!(m.action, Action::OpenDb(p) if p == "/h/.hex/memory.db"));
    assert!(matches!(run.step(Event::Database(Ok(()))).action, Action::InitDb));
    assert!(matches!(run.step(Event::Schema(Ok(()))).action, Action::LoadModel));
    assert!(matches!(run.step(Event::Model(Ok(()))).action, Action::ReadRecords));
    let records = records.into_iter().map(|(p, h)| Record { path: s(p), hash: s(h) }).collect();
    let m = run.step(Event::Records(records));
    assert_eq!(said(&m), Some((format!("Found {n} files to check"), false)));
    (run, m)
}

fn said(m: &Move) -> Option<(String, bool)> {
    m.line.as_ref().map(|l| (l.text.clone(), l.error))
}

fn told(m: &Move) -> String {
    said(m).unwrap().0
}

#[test]
fn a_run_that_cannot_be_prepared_exits_with_its_reason() {
    let fails = |m: Move, line: &str| {
        assert!(matches!(m.action, Action::Exit(1)));
        assert_eq!(said(&m), Some((s(line), true)));
    };
    let e = || Err(s("boom"));
    let (mut run, _) = run_index("/h", false, None);
    fails(run.step(Event::Directory(e())), "hex memory index: cannot create .hex dir: boom");
    let at_lock = || {
        let (mut run, _) = run_index("/h", false, None);
        run.step(Event::Directory(Ok(())));
        run
    };
    fails(
        at_lock().step(Event::Lock(LockState::Failed(s("boom")))),
        "hex memory index: cannot open lock /h/.hex/memory-index.lock: boom",
    );
    let m = at_lock().step(Event::Lock(LockState::Busy));
    assert!(matches!(m.action, Action::Exit(0)));
    assert_eq!(said(&m), Some((s("hex memory index: another run is in progress — skipping"), false)));
    let at_discovery = || {
        let mut run = at_lock();
        run.step(Event::Lock(LockState::Taken));
        run
    };
    fails(at_discovery().step(Event::Files(Err(s("boom")))), "hex memory index: source discovery failed: boom");
    let mut run = at_discovery();
    run.step(Event::Files(Ok(Vec::new())));
    fails(run.step(Event::Database(e())), "hex memory index: cannot open /h/.hex/memory.db: boom");
    let mut run = at_discovery();
    run.step(Event::Files(Ok(Vec::new())));
    run.step(Event::Database(Ok(())));
    fails(run.step(Event::Schema(e())), "hex memory index: schema init failed: boom");
    let mut run = at_discovery();
    run.step(Event::Files(Ok(Vec::new())));
    run.step(Event::Database(Ok(())));
    run.step(Event::Schema(Ok(())));
    fails(run.step(Event::Model(e())), "hex memory index: embedding model failed to load: boom");
}

#[test]
fn a_run_over_budget_says_so_and_exits_nonzero() {
    let (mut run, m) = begun(true, Some(1), vec![source("me/a.md", "full")], vec![("old.md", "")]);
    assert!(matches!(m.action, Action::Clock));
    let m = run.step(Event::Elapsed(1_000_000_001));
    assert!(told(&m).starts_with(
        "hex memory index: EXCEEDED 1s wall-clock budget after 0 indexed (1 of 1 files unprocessed)"
    ));
    assert!(matches!(m.action, Action::Stamp { mode: "full", decimals: 1 }));
    let m = run.step(Event::Stamped(s("1.0")));
    assert!(matches!(m.action, Action::Exit(1)));
    assert_eq!(
        said(&m),
        Some((
            s("hex memory index: BAILED after 1.0s over budget — 0 indexed, 0 unchanged (mtime), 0 unchanged (hash), 0 new chunks; cleanup + backfill skipped, resuming next tick"),
            true
        ))
    );
    // Exactly the budget is not over it, and without one there is no end.
    let (mut run, _) = begun(true, Some(1), vec![source("me/a.md", "full")], vec![]);
    assert!(matches!(run.step(Event::Elapsed(1_000_000_000)).action, Action::Read(_)));
    let (mut run, _) = begun(true, None, vec![source("me/a.md", "full")], vec![]);
    assert!(matches!(run.step(Event::Elapsed(u128::MAX)).action, Action::Read(_)));
}

#[test]
fn an_incremental_run_passes_over_what_has_not_changed() {
    let files = vec![
        source("same_mtime.md", "full"),
        source("same_hash.md", "full"),
        source("changed.md", "full"),
        source("new.md", "summary"),
        source("blank.md", "full"),
        source("unreadable.md", "full"),
        SourceFile { path: s("/elsewhere.md"), rel: None, strategy: s("full") },
        source("old.md", "summary"),
        source("broken.md", "full"),
    ];
    let hash = content_hash("x");
    let records = vec![("same_mtime.md", ""), ("same_hash.md", hash.as_str()), ("changed.md", "h"), ("lost.md", "h"), ("gone.md", "h")];
    let (mut run, m) = begun(false, None, files, records);
    assert!(matches!(m.action, Action::Clock));
    // The time of modification is the recorded one.
    let m = run.step(Event::Elapsed(0));
    assert!(matches!(m.action, Action::CompareMtime { path, rel } if path == "/h/same_mtime.md" && rel == "same_mtime.md"));
    assert!(matches!(run.step(Event::SameMtime(true)).action, Action::Clock));
    // The content is the recorded one.
    run.step(Event::Elapsed(0));
    assert!(matches!(run.step(Event::SameMtime(false)).action, Action::Read(p) if p == "/h/same_hash.md"));
    let m = run.step(Event::Content(Ok(s("x"))));
    assert!(matches!(m.action, Action::RefreshMtime { rel, .. } if rel == "same_hash.md"));
    let m = run.step(Event::Refreshed(Err(s("busy"))));
    assert_eq!(said(&m), Some((s("[memory index] mtime refresh failed for same_hash.md: busy"), true)));
    // The content is another one.
    run.step(Event::Elapsed(0));
    run.step(Event::SameMtime(false));
    let m = run.step(Event::Content(Ok(s("y"))));
    assert!(matches!(m.action, Action::Index { rel, content, strategy, .. } if rel == "changed.md" && content == "y" && strategy == "full"));
    let m = run.step(Event::Indexed(Ok(2)));
    assert_eq!(said(&m), Some((s("  Indexed: changed.md (2 chunks)"), false)));
    // A file that nothing is recorded of.
    assert!(matches!(run.step(Event::Elapsed(0)).action, Action::Read(p) if p == "/h/new.md"));
    run.step(Event::Content(Ok(s("z"))));
    assert_eq!(told(&run.step(Event::Indexed(Ok(3)))), "  Indexed: new.md (3 chunks [summary])");
    run.step(Event::Elapsed(0));
    assert!(said(&run.step(Event::Content(Ok(s(" \n"))))).is_none());
    run.step(Event::Elapsed(0));
    let m = run.step(Event::Content(Err(s("denied"))));
    assert_eq!(said(&m), Some((s("  SKIP unreadable.md: denied"), true)));
    // A file that is not below the workspace is passed over in silence.
    let m = run.step(Event::Elapsed(0));
    assert!(said(&m).is_none() && matches!(m.action, Action::Clock));
    run.step(Event::Elapsed(0));
    run.step(Event::Content(Ok(s("t"))));
    assert_eq!(
        told(&run.step(Event::Indexed(Ok(0)))),
        "  Indexed: old.md (0 chunks, no summaries found [summary])"
    );
    run.step(Event::Elapsed(0));
    run.step(Event::Content(Ok(s("t"))));
    let m = run.step(Event::Indexed(Err(s("locked"))));
    assert_eq!(said(&m), Some((s("  ERROR indexing broken.md: locked"), true)));
    // What is recorded and not on disk any more goes.
    assert!(matches!(m.action, Action::Remove(p) if p == "lost.md"));
    let m = run.step(Event::Removed(Removal::Done));
    assert_eq!(said(&m), Some((s("  Removed: lost.md"), false)));
    assert!(matches!(m.action, Action::Remove(p) if p == "gone.md"));
    let m = run.step(Event::Removed(Removal::ChunksFailed(s("e"))));
    assert_eq!(said(&m), Some((s("  ERROR removing chunks for gone.md: e"), true)));
    assert!(matches!(m.action, Action::Backfill(500)));
    let m = run.step(Event::Backfilled(Ok(4)));
    assert_eq!(said(&m), Some((s("index: backfilled 4 missing chunk vector(s)"), false)));
    assert!(matches!(m.action, Action::Stamp { mode: "incremental", decimals: 2 }));
    let m = run.step(Event::Stamped(s("0.25")));
    assert!(matches!(m.action, Action::Exit(0)));
    assert_eq!(
        said(&m),
        Some((s("\nDone in 0.25s: 2 indexed, 1 unchanged (mtime), 1 unchanged (hash), 1 removed, 5 new chunks"), false))
    );
}

#[test]
fn a_full_run_reads_every_file() {
    let hash = content_hash("x");
    let (mut run, _) = begun(true, None, vec![source("a.md", "full")], vec![("a.md", hash.as_str()), ("b.md", "")]);
    assert!(matches!(run.step(Event::Elapsed(0)).action, Action::Read(_)));
    assert!(matches!(run.step(Event::Content(Ok(s("x")))).action, Action::Index { .. }));
    let m = run.step(Event::Indexed(Ok(0)));
    assert!(said(&m).is_none());
    assert!(matches!(m.action, Action::Remove(p) if p == "b.md"));
    let m = run.step(Event::Removed(Removal::RecordFailed(s("e"))));
    assert_eq!(told(&m), "  ERROR removing file record b.md: e");
    let m = run.step(Event::Backfilled(Err(s("e"))));
    assert_eq!(said(&m), Some((s("index: vector backfill FAILED: e"), true)));
    let m = run.step(Event::Stamped(s("0.00")));
    assert_eq!(told(&m), "\nDone in 0.00s: 0 indexed, 0 unchanged (mtime), 0 unchanged (hash), 0 removed, 0 new chunks");
}

#[test]
fn a_record_that_is_already_gone_is_not_counted() {
    let (mut run, m) = begun(false, None, Vec::new(), vec![("a.md", "")]);
    assert!(matches!(m.action, Action::Remove(p) if p == "a.md"));
    assert!(said(&run.step(Event::Removed(Removal::Absent))).is_none());
    assert!(said(&run.step(Event::Backfilled(Ok(0)))).is_none());
    assert!(told(&run.step(Event::Stamped(s("0.00")))).contains("0 removed"));
}

#[test]
fn the_table_of_chunks_is_migrated_once() {
    assert_eq!(chunks_step(false, false, false), ChunksStep::MarkNew);
    assert_eq!(chunks_step(true, true, true), ChunksStep::Keep);
    assert_eq!(chunks_step(true, false, false), ChunksStep::Rebuild);
    assert!(needs_content_hash(&vec![s("path"), s("mtime")]));
    assert!(!needs_content_hash(&vec![s("path"), s("content_hash")]));
}

#[test]
fn stats_are_shown_with_their_gap() {
    let lines = show_stats(&IndexStats {
        db_path: s("/h/.hex/memory.db"),
        size_kb: s("12.5"),
        files: 2,
        hashed: 2,
        chunks: 10,
        vectors: 7,
        last_run: Some(s("yesterday")),
        last_mode: Some(s("full")),
        dirs: vec![(s("me"), 2, 10)],
    });
    let all = lines.join("\n");
    assert!(all.contains("/h/.hex/memory.db"));
    assert!(all.contains("12.5"));
    assert!(!no_index().is_empty());
    assert_ne!(run_banner(true), run_banner(false));
}
