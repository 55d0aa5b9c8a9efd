use hex_harness::memory::authority::{
    effective_sources, extract_excerpt, is_generic_topic_token, markdown_heading, query_intent,
    select, tokens, topic_tokens, valid_relative_path, validate_registry, AuthorityStatus, Pick,
    QueryIntent, Registry, RegistryRead, RegistrySource, Resolution, ResolutionKind, Selection,
    MAX_ENTRIES, MAX_EXCERPT_CHARS, REGISTRY_RELATIVE, SOURCE_AGGREGATE_LIMIT,
};
use hex_harness::memory::migration::{
    apply_authority_schema, validate_authority_schema, Action, Event, Seen,
};
use hex_harness::memory::resolving::{self, resolve};
use hex_harness::memory::safe_read::{self, read_root_relative, Fault, FileIdentity, Node};
use hex_harness::memory::schema::{
    additions, after_additions, backfill_note, facts_fts_needs_widening, has_status,
    status_error, validate_columns, ColumnDefinition, AUTHORITY_SCHEMA_VERSION,
};
use rusqlite::Connection;

fn s(v: &str) -> String {
    v.to_string()
}

// ── Reading below a root ─────────────────────────────────────────────────────

fn dir(inode: u64) -> Node {
    Node {
        is_file: false,
        is_dir: true,
        is_symlink: false,
        links: 2,
        identity: FileIdentity { device: 1, inode },
    }
}

fn file(inode: u64) -> Node {
    Node { is_file: true, is_dir: false, links: 1, ..dir(inode) }
}

fn link(inode: u64) -> Node {
    Node { is_symlink: true, is_file: false, is_dir: false, ..dir(inode) }
}

/// What is at the paths `/r`, `/r/docs` and `/r/docs/source.md`, before and after
/// the file is read, and what opening the file gives.
#[derive(Clone)]
struct Disk {
    before: [Node; 3],
    opened: Node,
    bytes: usize,
    after: [Node; 3],
}

fn disk() -> Disk {
    let nodes = [dir(1), dir(2), file(3)];
    Disk { before: nodes, opened: file(3), bytes: 5, after: nodes }
}

/// What a read of at most 128 bytes gives, and whether it opened the file.
fn read(relative: &str, d: &Disk) -> (bool, Result<usize, String>) {
    let (mut r, mut action) = read_root_relative("/r", relative, 128);
    let mut opened = false;
    let mut done = false;
    loop {
        let event = match action {
            safe_read::Action::Look(p) => {
                let i = ["/r", "/r/docs", "/r/docs/source.md"].iter().position(|x| *x == p);
                let nodes = if done { d.after } else { d.before };
                safe_read::Event::Node(Ok(nodes[i.expect("a path on the way")]))
            }
            safe_read::Action::Open(p) => {
                assert_eq!(p, "/r/docs/source.md");
                opened = true;
                safe_read::Event::Node(Ok(d.opened))
            }
            safe_read::Action::Read(n) => {
                assert_eq!(n, 129);
                done = true;
                safe_read::Event::Bytes(Ok(vec![b'x'; d.bytes]))
            }
            safe_read::Action::Finish(r) => {
                return (opened, r.map(|b| b.len()).map_err(|f| f.text));
            }
        };
        action = r.step(event);
    }
}

#[test]
fn reader_rejects_final_ancestor_hardlink_and_replacement_aliases() {
    let read = |d: Disk| read("docs/source.md", &d);
    assert_eq!(read(disk()), (true, Ok(5)));
    // A link in place of the file, of the root and of a directory on the way,
    // and a second name for the file: it is not even opened.
    for (i, n) in [(2, link(3)), (0, link(1)), (1, link(2)), (2, Node { links: 2, ..file(3) })] {
        let mut d = disk();
        d.before[i] = n;
        let (opened, r) = read(d);
        assert!(!opened && r.is_err());
    }
    // Another file in its place while it was read.
    let mut d = disk();
    d.after[2] = file(9);
    assert_eq!(read(d).1, Err(s("authority source path changed during read")));
    for (i, inode) in [(0, 7), (1, 8)] {
        let mut d = disk();
        d.after[i] = dir(inode);
        assert_eq!(read(d).1, Err(s("authority source ancestry changed during read")));
    }
    let swapped = Disk { opened: file(9), ..disk() };
    assert_eq!(read(swapped).1, Err(s("authority source changed during open")));
    assert_eq!(read(Disk { bytes: 128, ..disk() }).1, Ok(128));
    let large = Disk { bytes: 129, ..disk() };
    assert_eq!(read(large).1, Err(s("authority file exceeds its byte limit")));
}

#[test]
fn only_bounded_paths_are_read() {
    let outside = (false, Err(s("authority path is not a bounded relative path")));
    assert_eq!(read("../x", &disk()), outside);
    assert!(valid_relative_path(REGISTRY_RELATIVE));
    assert!(!valid_relative_path("/etc/passwd"));
    assert!(!valid_relative_path("a/../b"));
    assert!(!valid_relative_path(""));
    let (mut r, action) = read_root_relative("/r", "a.md", 9);
    assert!(matches!(action, safe_read::Action::Look(p) if p == "/r"));
    let gone = Fault { missing: true, text: s("no such file") };
    match r.step(safe_read::Event::Node(Err(gone))) {
        safe_read::Action::Finish(Err(f)) => assert!(f.missing),
        a => panic!("{a:?}"),
    }
}

// ── The registry ─────────────────────────────────────────────────────────────

fn source(id: &str, path: &str) -> RegistrySource {
    RegistrySource {
        id: s(id),
        path: s(path),
        heading: None,
        topics: vec![s("memory recall")],
        authority_status: Some(s("current")),
        effective_date: None,
        superseded_by: None,
        private: Some(false),
    }
}

fn registry(sources: Vec<RegistrySource>) -> RegistryRead {
    RegistryRead::Parsed(Registry { version: 1, sources })
}

const QUERY: &str = "memory recall procedure";

fn fault(missing: bool) -> Fault {
    Fault { missing, text: s("denied") }
}

/// The answer to a query of [`QUERY`], with the bodies of the sources in the
/// order in which they are asked for; and the paths that were asked for.
fn answer(
    query: &str,
    for_agent: bool,
    registry: Result<RegistryRead, Fault>,
    bodies: Vec<Result<Vec<u8>, Fault>>,
) -> (Resolution, Vec<String>, Vec<String>) {
    let (mut r, mut step) = resolve(query, for_agent);
    let mut bodies = bodies.into_iter();
    let mut registry = Some(registry);
    let mut parsed = None;
    let mut paths = Vec::new();
    let mut logs = Vec::new();
    loop {
        logs.extend(step.log.take());
        let event = match step.action {
            resolving::Action::Read(p, _) if p == REGISTRY_RELATIVE => {
                resolving::Event::Bytes(registry.take().unwrap().map(|r| {
                    parsed = Some(r);
                    vec![b'x']
                }))
            }
            resolving::Action::Read(p, _) => {
                paths.push(p);
                resolving::Event::Bytes(bodies.next().expect("a source that is not asked for"))
            }
            resolving::Action::Parse(t) => {
                assert_eq!(t, "x");
                resolving::Event::Parsed(match parsed.take() {
                    Some(RegistryRead::Parsed(r)) => Ok(r),
                    _ => Err(s("no table")),
                })
            }
            resolving::Action::Finish(a) => return (a, paths, logs),
        };
        step = r.step(event);
    }
}

#[test]
fn metadata_conflicts_and_limits_open_no_source_bodies() {
    let conflict = registry(vec![source("a", "docs/a.md"), source("b", "docs/b.md")]);
    match select(&conflict, QUERY, false) {
        Selection::Settled(r, _) => assert_eq!(r.kind, ResolutionKind::Conflict),
        Selection::Read(p) => panic!("no source is to be read: {p:?}"),
    }
    let many: Vec<RegistrySource> =
        (0..=MAX_ENTRIES).map(|i| source(&format!("s{i}"), &format!("docs/s{i}.md"))).collect();
    match select(&registry(many), QUERY, false) {
        Selection::Settled(r, _) => assert_eq!(r.kind, ResolutionKind::Invalid),
        Selection::Read(p) => panic!("no source is to be read: {p:?}"),
    }
}

#[test]
fn a_current_source_answers_with_its_excerpt() {
    let reg = registry(vec![source("a", "docs/a.md")]);
    assert!(matches!(select(&reg, QUERY, false), Selection::Read(p)
        if p == vec![Pick { index: 0, status: AuthorityStatus::Current }]));
    let (r, paths, _) = answer(QUERY, false, Ok(reg.clone()), vec![Ok(b"text".to_vec())]);
    assert_eq!(paths, vec![s("docs/a.md")]);
    assert_eq!(r.kind, ResolutionKind::Matched);
    assert_eq!((r.sources[0].id.as_str(), r.sources[0].excerpt.as_str()), ("a", "text"));
    assert!(!r.is_degraded());
    let (r, _, logs) = answer(QUERY, false, Ok(reg.clone()), vec![Err(fault(true))]);
    assert_eq!(r.notice.as_deref(), Some("Authority degraded: source a unavailable"));
    assert_eq!(logs, vec![s("[memory authority] source a read failed: denied")]);
    assert!(r.is_degraded());
    let (r, _, _) = answer(QUERY, false, Ok(reg.clone()), vec![Ok(vec![0xff])]);
    assert_eq!(r.notice.as_deref(), Some("Authority degraded: source a is invalid"));
    let (r, _, _) = answer(QUERY, false, Ok(reg.clone()), vec![Ok(Vec::new())]);
    assert_eq!(r.notice.as_deref(), Some("Authority degraded: source a heading unavailable"));
    let large = vec![b'x'; SOURCE_AGGREGATE_LIMIT as usize + 1];
    let (r, _, _) = answer(QUERY, false, Ok(reg), vec![Ok(large)]);
    assert_eq!(r.notice.as_deref(), Some("Authority degraded: aggregate source limit"));
}

#[test]
fn an_answer_is_bounded() {
    let many = || {
        let old = |id: &str| RegistrySource {
            authority_status: Some(s("historical")),
            ..source(id, &format!("docs/{id}.md"))
        };
        registry(vec![old("a"), old("b"), old("c")])
    };
    let long = || Ok(vec![b'x'; 5000]);
    let (r, paths, _) = answer(QUERY, true, Ok(many()), vec![long(), long()]);
    assert_eq!((r.kind, r.sources.len(), paths.len()), (ResolutionKind::Matched, 2, 2));
    assert!(r.notice.is_none());
    assert!(r.sources.iter().all(|x| x.excerpt.chars().count() == 900));
    let (r, _, _) = answer(QUERY, true, Ok(many()), vec![long(), Ok(Vec::new())]);
    assert_eq!((r.kind, r.sources.len()), (ResolutionKind::Invalid, 0));
    assert!(r.notice.is_some());
    let (r, _, _) = answer("something else", true, Ok(many()), Vec::new());
    assert_eq!((r.kind, r.sources.len()), (ResolutionKind::Unmatched, 0));
    assert!(r.notice.is_none());
}

#[test]
fn what_is_wrong_with_a_registry_is_told() {
    let many: Vec<RegistrySource> =
        (0..=MAX_ENTRIES).map(|i| source(&format!("s{i}"), &format!("docs/s{i}.md"))).collect();
    let (r, _, logs) = answer(QUERY, false, Ok(registry(many)), Vec::new());
    assert_eq!(r.notice.as_deref(), Some("Authority degraded: registry entry limit"));
    assert_eq!(logs, vec![s("[memory authority] registry entry limit")]);
    let outside = registry(vec![source("a", "/etc/passwd")]);
    let (_, _, logs) = answer(QUERY, false, Ok(outside), Vec::new());
    assert_eq!(logs, vec![s("[memory authority] invalid registry")]);
    let lost = RegistrySource {
        authority_status: Some(s("historical")),
        superseded_by: Some(s("gone")),
        ..source("a", "docs/a.md")
    };
    let (r, _, logs) = answer(QUERY, false, Ok(registry(vec![lost])), Vec::new());
    assert_eq!(r.kind, ResolutionKind::Invalid);
    assert_eq!(logs.len(), 1);
    assert_eq!(
        Some(logs[0].replace("[memory authority] ", "Authority degraded: ").as_str()),
        r.notice.as_deref()
    );
    let (_, _, logs) =
        answer(QUERY, false, Ok(registry(vec![source("a", "docs/a.md")])), vec![Ok(vec![b'x', 0xff])]);
    assert_eq!(
        logs,
        vec![s("[memory authority] source a is not UTF-8: invalid utf-8 sequence of 1 bytes from index 1")]
    );
    let mut large = vec![b'x'; SOURCE_AGGREGATE_LIMIT as usize];
    large.push(0xff);
    let (_, _, logs) =
        answer(QUERY, false, Ok(registry(vec![source("a", "docs/a.md")])), vec![Ok(large)]);
    assert!(logs.is_empty(), "{logs:?}");
}

#[test]
fn a_source_that_cannot_be_used_is_the_last_one_read() {
    let unknown = |id: &str, path: &str| RegistrySource { authority_status: None, ..source(id, path) };
    let reg = registry(vec![unknown("a", "docs/a.md"), unknown("b", "docs/b.md")]);
    let bodies = vec![Ok(b"one".to_vec()), Ok(b"two".to_vec())];
    let (r, paths, _) = answer(QUERY, false, Ok(reg.clone()), bodies);
    assert_eq!((r.sources.len(), paths.len()), (2, 2));
    let (r, paths, _) = answer(QUERY, false, Ok(reg), vec![Err(fault(false))]);
    assert_eq!((r.kind, r.sources.len()), (ResolutionKind::Invalid, 0));
    assert_eq!(paths, vec![s("docs/a.md")]);
}

#[test]
fn what_is_not_registered_leaves_the_generic_path() {
    let (r, _, logs) = answer(QUERY, false, Err(fault(true)), Vec::new());
    assert_eq!(r.kind, ResolutionKind::Absent);
    assert!(r.preserves_generic() && logs.is_empty());
    let reg = registry(vec![source("a", "docs/a.md")]);
    let (r, _, _) = answer("weather tomorrow", false, Ok(reg), Vec::new());
    assert_eq!(r.kind, ResolutionKind::Unmatched);
    assert!(r.preserves_generic());
    for registry in [Err(fault(false)), Ok(RegistryRead::Unreadable)] {
        let (r, _, logs) = answer(QUERY, false, registry, Vec::new());
        assert_eq!(r.kind, ResolutionKind::Invalid);
        assert_eq!(r.notice.as_deref(), Some("Authority degraded: invalid registry"));
        assert_eq!(logs.len(), 1);
    }
    let (mut r, _) = resolve(QUERY, false);
    let step = r.step(resolving::Event::Bytes(Ok(vec![0xff])));
    assert!(matches!(step.action, resolving::Action::Finish(a) if a.is_degraded()));
    assert_eq!(step.log.as_deref(), Some("[memory authority] registry is not UTF-8: invalid utf-8 sequence of 1 bytes from index 0"));
}

#[test]
fn a_private_source_is_not_for_an_agent() {
    let reg = registry(vec![RegistrySource { private: Some(true), ..source("a", "docs/a.md") }]);
    let (r, paths, _) = answer(QUERY, true, Ok(reg.clone()), Vec::new());
    assert_eq!(r.kind, ResolutionKind::PrivateOnly);
    assert!(r.sources.is_empty() && paths.is_empty());
    assert!(matches!(select(&reg, QUERY, false), Selection::Read(_)));
}

#[test]
fn registries_are_checked() {
    let ok = Registry { version: 1, sources: vec![source("a", "docs/a.md")] };
    assert_eq!(validate_registry(&ok), Ok(()));
    let twice = Registry { version: 1, sources: vec![source("a", "docs/a.md"), source("a", "docs/b.md")] };
    assert_eq!(validate_registry(&twice), Err(s("invalid registry")));
    let outside = Registry { version: 1, sources: vec![source("a", "/etc/passwd")] };
    assert!(validate_registry(&outside).is_err());
    let odd = Registry { version: 1, sources: vec![RegistrySource { authority_status: Some(s("maybe")), ..source("a", "docs/a.md") }] };
    assert_eq!(effective_sources(&odd, &vec![0], false), Err(s("invalid registry status for a")));
    assert_eq!(
        effective_sources(&ok, &vec![0], false),
        Ok(vec![Pick { index: 0, status: AuthorityStatus::Current }])
    );
}

#[test]
fn texts_are_cut_for_an_excerpt() {
    assert_eq!(markdown_heading("## Two words "), Some((2, s("Two words"))));
    assert_eq!(markdown_heading("text"), None);
    let doc = "# A\none\n## B\ntwo\n# C\nthree";
    assert_eq!(extract_excerpt(doc, None).unwrap(), doc);
    let part = extract_excerpt(doc, Some("B")).unwrap();
    assert!(part.contains("two") && !part.contains("three") && !part.contains("one"));
    assert_eq!(extract_excerpt(doc, Some("Z")), None);
    assert_eq!(extract_excerpt(&"x".repeat(5000), None).unwrap().chars().count(), MAX_EXCERPT_CHARS);
    assert_eq!(tokens("Memory-recall, v2!"), vec![s("memory"), s("recall"), s("v2")]);
    assert!(is_generic_topic_token("the"));
    assert!(!is_generic_topic_token("recall"));
    assert_eq!(topic_tokens("memory recall"), Some(vec![s("memory"), s("recall")]));
    assert_eq!(query_intent("what was the previous procedure"), QueryIntent::Historical);
    assert_eq!(query_intent("what is the procedure"), QueryIntent::Current);
    assert_eq!(AuthorityStatus::from_db("current"), AuthorityStatus::Current);
    assert_eq!(AuthorityStatus::from_db("CURRENT"), AuthorityStatus::Unknown);
    assert_eq!(AuthorityStatus::from_registry(&None), Some(AuthorityStatus::Unknown));
    assert_eq!(AuthorityStatus::from_registry(&Some(s("maybe"))), None);
    assert_eq!(ResolutionKind::PrivateOnly.as_str(), "private_only");
}

// ── The columns of authority ─────────────────────────────────────────────────

fn columns(conn: &Connection) -> Vec<ColumnDefinition> {
    let mut stmt = conn.prepare("PRAGMA table_info(facts)").unwrap();
    let rows = stmt
        .query_map([], |r| {
            Ok(ColumnDefinition {
                name: r.get(1)?,
                declared_type: r.get(2)?,
                not_null: r.get::<_, i64>(3)? != 0,
                default_value: r.get(4)?,
                primary_key: r.get::<_, i64>(5)? != 0,
            })
        })
        .unwrap();
    rows.map(|r| r.unwrap()).collect()
}

fn look(conn: &Connection) -> Seen {
    let columns = columns(conn);
    let invalid = if has_status(&columns) {
        conn.query_row(
            "SELECT COUNT(*) FROM facts WHERE authority_status IS NULL OR authority_status COLLATE BINARY NOT IN ('current','historical','unknown')",
            [],
            |r| r.get(0),
        )
        .unwrap()
    } else {
        0
    };
    Seen { columns, invalid }
}

fn versions(conn: &Connection) -> i64 {
    conn.query_row(
        "SELECT COUNT(*) FROM schema_version WHERE version=?1",
        [AUTHORITY_SCHEMA_VERSION],
        |r| r.get(0),
    )
    .unwrap()
}

fn migrate(conn: &Connection) -> Result<(), String> {
    let run = |sql: &str| conn.execute_batch(sql).map_err(|e| e.to_string());
    let (mut m, mut step) = apply_authority_schema();
    loop {
        let event = match step.action {
            Action::Look => Event::Seen(Ok(look(conn))),
            Action::Version(_) => Event::Version(Ok(versions(conn) > 0)),
            Action::Begin => Event::Done(run("BEGIN IMMEDIATE")),
            Action::Execute(sql) => Event::Done(run(&sql)),
            Action::Record(v) => Event::Done(run(&format!(
                "INSERT INTO schema_version (version, applied_at) VALUES ({v}, datetime('now')) ON CONFLICT(version) DO NOTHING"
            ))),
            Action::Commit => Event::Done(run("COMMIT")),
            Action::Rollback => Event::Done(run("ROLLBACK")),
            Action::Finish(r) => return r,
        };
        step = m.step(event);
    }
}

#[test]
fn authority_migration_rejects_case_variant_under_nocase_collation() {
    let conn = Connection::open_in_memory().unwrap();
    conn.execute_batch(
        "CREATE TABLE schema_version (version INTEGER PRIMARY KEY, applied_at TEXT);
         CREATE TABLE facts (
            id TEXT PRIMARY KEY,
            source_origin TEXT,
            effective_date TEXT,
            superseded_by TEXT,
            authority_status TEXT COLLATE NOCASE NOT NULL DEFAULT 'unknown'
         );
         INSERT INTO facts (id,authority_status) VALUES ('f_case','CURRENT');",
    )
    .unwrap();
    let error = migrate(&conn).unwrap_err();
    assert!(error.contains("authority_status contains 1 invalid values"), "{error}");
    let stored: String =
        conn.query_row("SELECT authority_status FROM facts WHERE id='f_case'", [], |r| r.get(0)).unwrap();
    assert_eq!(stored, "CURRENT", "rejection must not rewrite the value");
    assert_eq!(versions(&conn), 0, "rejection must not record version 5");
    conn.execute("UPDATE facts SET authority_status='current' WHERE id='f_case'", []).unwrap();
    migrate(&conn).unwrap();
    let accepted: (String, i64) = conn
        .query_row(
            "SELECT authority_status,
                    (SELECT COUNT(*) FROM schema_version WHERE version=5)
               FROM facts WHERE id='f_case'",
            [],
            |row| Ok((row.get(0)?, row.get(1)?)),
        )
        .unwrap();
    assert_eq!(
        accepted,
        (s("current"), 1),
        "exact lowercase status must remain compatible and record version 5"
    );
    assert!(additions(&columns(&conn)).is_empty());
    assert_eq!(AUTHORITY_SCHEMA_VERSION, 5);
}

#[test]
fn columns_that_do_not_fit_are_refused() {
    let conn = Connection::open_in_memory().unwrap();
    conn.execute_batch("CREATE TABLE facts (id TEXT PRIMARY KEY, source_origin INTEGER);").unwrap();
    assert!(validate_columns(&columns(&conn)).is_err());
    assert!(validate_authority_schema(&look(&conn)).unwrap_err().starts_with("authority schema: incompatible column `source_origin`: ColumnDefinition { name: \"source_origin\", declared_type: \"INTEGER\""));
    assert!(migrate(&conn).is_err());
    assert!(after_additions(false).is_err());
    assert_eq!(status_error(0), None);
    assert_eq!(backfill_note("duplicate column name: x"), None);
    assert_eq!(
        backfill_note("disk full").as_deref(),
        Some("[schema] transcript_files.consecutive_failures backfill: disk full")
    );
    assert!(facts_fts_needs_widening(1, 0));
    assert!(!facts_fts_needs_widening(0, 0) && !facts_fts_needs_widening(1, 1));
}

#[test]
fn a_transaction_that_cannot_be_undone_is_told() {
    let (mut m, _) = apply_authority_schema();
    m.step(Event::Seen(Ok(Seen { columns: Vec::new(), invalid: 0 })));
    m.step(Event::Done(Ok(())));
    let step = m.step(Event::Seen(Err(s("locked"))));
    assert!(matches!(step.action, Action::Rollback));
    let step = m.step(Event::Done(Err(s("gone"))));
    assert_eq!(step.log.as_deref(), Some("[schema] authority migration rollback warning: gone"));
    assert!(matches!(step.action, Action::Finish(Err(e)) if e == "locked"));
}
