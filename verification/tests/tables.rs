use hex_harness::memory::clear::{self, delete_chunks_for_file};
use hex_harness::memory::file_run::{self, index_file};
use hex_harness::memory::init::{self, init_db};
use hex_harness::memory::migration::{self, apply_authority_schema, Seen};
use hex_harness::memory::open::{self, BUSY_TIMEOUT_MS};
use hex_harness::memory::plan2::{self, apply_plan2, IndexSeen};
use hex_harness::memory::schema::ColumnDefinition;
use rusqlite::Connection;

fn s(v: &str) -> String {
    v.to_string()
}

const FACTS_TABLES: &str = "
    CREATE TABLE IF NOT EXISTS schema_version (version INTEGER PRIMARY KEY, applied_at TEXT);
    CREATE TABLE IF NOT EXISTS facts (
        id TEXT PRIMARY KEY, subject TEXT NOT NULL, predicate TEXT NOT NULL, object TEXT NOT NULL,
        importance REAL NOT NULL DEFAULT 0.5, access_count INTEGER NOT NULL DEFAULT 0,
        last_accessed TEXT, created_at TEXT NOT NULL, updated_at TEXT NOT NULL, source_ref TEXT,
        private INTEGER NOT NULL DEFAULT 0, tombstone INTEGER NOT NULL DEFAULT 0, embedding BLOB,
        source_origin TEXT, effective_date TEXT, superseded_by TEXT,
        authority_status TEXT COLLATE BINARY NOT NULL DEFAULT 'unknown'
            CHECK (authority_status COLLATE BINARY IN ('current','historical','unknown')));
    CREATE TABLE IF NOT EXISTS fact_history (
        id INTEGER PRIMARY KEY AUTOINCREMENT, fact_id TEXT NOT NULL,
        op TEXT NOT NULL CHECK (op IN ('ADD','UPDATE','DELETE','FLAG')),
        prev_value TEXT, new_value TEXT, ts TEXT NOT NULL,
        FOREIGN KEY (fact_id) REFERENCES facts(id));
    CREATE TABLE IF NOT EXISTS sessions (id TEXT PRIMARY KEY);
    CREATE TABLE IF NOT EXISTS topics (id TEXT PRIMARY KEY);
    CREATE TABLE IF NOT EXISTS fact_topics (fact_id TEXT, topic_id TEXT);
    CREATE TABLE IF NOT EXISTS transcript_files (
        path TEXT PRIMARY KEY, consecutive_failures INTEGER NOT NULL DEFAULT 0);
";

/// The tables as they were before facts had an authority.
const LEGACY_TABLES: &str = "
    CREATE TABLE IF NOT EXISTS schema_version (version INTEGER PRIMARY KEY, applied_at TEXT);
    INSERT OR IGNORE INTO schema_version VALUES (3, datetime('now'));
    CREATE TABLE facts (
        id TEXT PRIMARY KEY, subject TEXT NOT NULL, predicate TEXT NOT NULL,
        object TEXT NOT NULL, importance REAL NOT NULL DEFAULT 0.5,
        access_count INTEGER NOT NULL DEFAULT 0, last_accessed TEXT,
        created_at TEXT NOT NULL, updated_at TEXT NOT NULL, source_ref TEXT,
        private INTEGER NOT NULL DEFAULT 0, tombstone INTEGER NOT NULL DEFAULT 0,
        embedding BLOB
    );
    CREATE TABLE fact_history (
        id INTEGER PRIMARY KEY AUTOINCREMENT, fact_id TEXT NOT NULL,
        op TEXT NOT NULL CHECK (op IN ('ADD','UPDATE','DELETE','FLAG')),
        prev_value TEXT, new_value TEXT, ts TEXT NOT NULL,
        FOREIGN KEY (fact_id) REFERENCES facts(id)
    );
";

const FACTS_VECTORS: &str =
    "CREATE TABLE IF NOT EXISTS facts_vec (fact_id TEXT PRIMARY KEY, embedding BLOB);";

const FACTS_INDEX: &str = "
    CREATE VIRTUAL TABLE IF NOT EXISTS facts_fts USING fts5(
        subject, predicate, object, content=facts, content_rowid=rowid,
        tokenize='porter unicode61');
    CREATE TRIGGER IF NOT EXISTS facts_fts_ai AFTER INSERT ON facts BEGIN
        INSERT INTO facts_fts(rowid, subject, predicate, object)
            VALUES (new.rowid, new.subject, new.predicate, new.object);
    END;
    CREATE TRIGGER IF NOT EXISTS facts_fts_ad AFTER DELETE ON facts BEGIN
        INSERT INTO facts_fts(facts_fts, rowid, subject, predicate, object)
            VALUES('delete', old.rowid, old.subject, old.predicate, old.object);
    END;
    CREATE TRIGGER IF NOT EXISTS facts_fts_au AFTER UPDATE ON facts BEGIN
        INSERT INTO facts_fts(facts_fts, rowid, subject, predicate, object)
            VALUES('delete', old.rowid, old.subject, old.predicate, old.object);
        INSERT INTO facts_fts(rowid, subject, predicate, object)
            VALUES (new.rowid, new.subject, new.predicate, new.object);
    END;
";

fn batch(conn: &Connection, sql: &str) -> Result<(), String> {
    conn.execute_batch(sql).map_err(|e| e.to_string())
}

fn count(conn: &Connection, sql: &str) -> i64 {
    conn.query_row(sql, [], |r| r.get(0)).unwrap()
}

fn columns(conn: &Connection) -> Vec<ColumnDefinition> {
    let mut statement = conn.prepare("PRAGMA table_info(facts)").unwrap();
    statement
        .query_map([], |row| {
            Ok(ColumnDefinition {
                name: row.get(1)?,
                declared_type: row.get(2)?,
                not_null: row.get::<_, i64>(3)? != 0,
                default_value: row.get(4)?,
                primary_key: row.get::<_, i64>(5)? != 0,
            })
        })
        .unwrap()
        .map(Result::unwrap)
        .collect()
}

fn look(conn: &Connection) -> Seen {
    let columns = columns(conn);
    let invalid = if columns.iter().any(|c| c.name == "authority_status") {
        count(
            conn,
            "SELECT COUNT(*) FROM facts WHERE authority_status IS NULL
                OR authority_status COLLATE BINARY NOT IN ('current','historical','unknown')",
        )
    } else {
        0
    };
    Seen { columns, invalid }
}

/// The migration to the columns of authority; where there is a marker, it fails
/// with it once the first column has been added.
fn migrate_with(conn: &Connection, marker: Option<&str>) -> Result<(), String> {
    let (mut m, mut step) = apply_authority_schema();
    let mut added = 0;
    loop {
        let event = match step.action {
            migration::Action::Look => migration::Event::Seen(Ok(look(conn))),
            migration::Action::Version(n) => migration::Event::Version(Ok(
                count(conn, &format!("SELECT COUNT(*) FROM schema_version WHERE version={n}")) > 0,
            )),
            migration::Action::Begin => migration::Event::Done(batch(conn, "BEGIN IMMEDIATE")),
            migration::Action::Execute(sql) => {
                added += 1;
                let done = batch(conn, &sql);
                migration::Event::Done(match marker {
                    Some(marker) => {
                        assert_eq!((added, done), (1, Ok(())));
                        Err(s(marker))
                    }
                    None => done,
                })
            }
            migration::Action::Record(n) => migration::Event::Done(batch(
                conn,
                &format!("INSERT INTO schema_version VALUES ({n}, 'now') ON CONFLICT DO NOTHING"),
            )),
            migration::Action::Commit => migration::Event::Done(batch(conn, "COMMIT")),
            migration::Action::Rollback => migration::Event::Done(batch(conn, "ROLLBACK")),
            migration::Action::Finish(r) => return r,
        };
        step = m.step(event);
    }
}

fn migrate_authority(conn: &Connection) -> Result<(), String> {
    migrate_with(conn, None)
}

/// Runs the setup of the facts; `fail` names an action that is made to fail.
fn plan2(conn: &Connection, fail: &str, logs: &mut Vec<String>) -> Result<(), String> {
    let (mut setup, mut step) = apply_plan2();
    loop {
        logs.extend(step.log.take());
        if let plan2::Action::Finish(r) = step.action {
            return r;
        }
        let name = format!("{:?}", step.action);
        let failing = !fail.is_empty() && name.starts_with(fail);
        let done = |r: Result<(), String>| {
            plan2::Event::Done(if failing { Err(format!("{name} failed")) } else { r })
        };
        let event = match &step.action {
            plan2::Action::MakeTables => done(batch(conn, FACTS_TABLES)),
            plan2::Action::MigrateAuthority => done(migrate_authority(conn)),
            plan2::Action::AddFailures => done(batch(
                conn,
                "ALTER TABLE transcript_files ADD COLUMN consecutive_failures INTEGER NOT NULL DEFAULT 0",
            )),
            plan2::Action::MakeVectors => done(batch(conn, FACTS_VECTORS)),
            plan2::Action::LookAtIndex => plan2::Event::Seen(Ok(IndexSeen {
                tables: count(conn, "SELECT COUNT(*) FROM sqlite_master WHERE type='table' AND name='facts_fts'"),
                subjects: count(conn, "SELECT COUNT(*) FROM pragma_table_info('facts_fts') WHERE name='subject'"),
            })),
            plan2::Action::Begin => done(batch(conn, "BEGIN IMMEDIATE")),
            plan2::Action::DropIndex => done(batch(
                conn,
                "DROP TRIGGER IF EXISTS facts_fts_ai; DROP TABLE IF EXISTS facts_fts;",
            )),
            plan2::Action::MakeIndex => done(batch(conn, FACTS_INDEX)),
            plan2::Action::FillIndex => done(batch(conn, "INSERT INTO facts_fts(facts_fts) VALUES('rebuild')")),
            plan2::Action::Commit => done(batch(conn, "COMMIT")),
            plan2::Action::Rollback => done(batch(conn, "ROLLBACK")),
            plan2::Action::Record(n) => done(batch(
                conn,
                &format!("INSERT INTO schema_version VALUES ({n}, 'now') ON CONFLICT(version) DO NOTHING"),
            )),
            plan2::Action::Finish(_) => unreachable!(),
        };
        step = setup.step(event);
    }
}

fn applied(conn: &Connection) {
    plan2(conn, "", &mut Vec::new()).unwrap();
}

#[test]
fn migration_creates_all_plan2_tables() {
    let conn = Connection::open_in_memory().unwrap();
    applied(&conn);
    for expected in ["facts", "fact_history", "sessions", "topics", "fact_topics", "transcript_files"] {
        assert_eq!(
            count(&conn, &format!("SELECT COUNT(*) FROM sqlite_master WHERE type='table' AND name='{expected}'")),
            1,
            "missing table: {expected}"
        );
    }
}

#[test]
fn apply_plan2_idempotent_without_preexisting_schema_version() {
    let conn = Connection::open_in_memory().unwrap();
    applied(&conn);
    let version = count(&conn, "SELECT MAX(version) FROM schema_version");
    assert_eq!(version, 5, "schema_version should record version=5 after apply_plan2");
    let mut logs = Vec::new();
    plan2(&conn, "", &mut logs).unwrap();
    assert!(logs.is_empty(), "{logs:?}");
    assert_eq!(count(&conn, "SELECT COUNT(*) FROM schema_version"), 2);
}

/// A database whose index covers objects alone, with one fact.
fn object_only() -> Connection {
    let conn = Connection::open_in_memory().unwrap();
    conn.execute_batch(FACTS_TABLES).unwrap();
    conn.execute_batch(
        "CREATE VIRTUAL TABLE facts_fts USING fts5(
            object, content=facts, content_rowid=rowid,
            tokenize='porter unicode61'
        );
        CREATE TRIGGER facts_fts_ai AFTER INSERT ON facts BEGIN
            INSERT INTO facts_fts(rowid, object) VALUES (new.rowid, new.object);
        END;",
    )
    .unwrap();
    conn.execute(
        "INSERT INTO facts (id,subject,predicate,object,created_at,updated_at)
         VALUES ('f1','Asterfall','is','an agent platform','2026-01-01','2026-01-01')",
        [],
    )
    .unwrap();
    conn
}

const ASTERFALL: &str = "SELECT COUNT(*) FROM facts_fts WHERE facts_fts MATCH 'asterfall'";

#[test]
fn facts_fts_widening_migrates_object_only_index() {
    let conn = object_only();
    assert_eq!(count(&conn, ASTERFALL), 0, "old index should not match subject tokens");
    let mut logs = Vec::new();
    plan2(&conn, "", &mut logs).unwrap();
    assert_eq!(logs, vec![s("[schema] facts_fts widened to subject+predicate+object and rebuilt")]);
    assert_eq!(count(&conn, ASTERFALL), 1, "widened index must match subject tokens after rebuild");
    conn.execute(
        "INSERT INTO facts (id,subject,predicate,object,created_at,updated_at)
         VALUES ('f2','Mossvale','is','a game','2026-01-01','2026-01-01')",
        [],
    )
    .unwrap();
    assert_eq!(
        count(&conn, "SELECT COUNT(*) FROM facts_fts WHERE facts_fts MATCH 'mossvale'"),
        1,
        "post-migration insert trigger must index subject"
    );
    applied(&conn);
}

#[test]
fn a_failed_widening_keeps_the_old_index() {
    for failing in ["DropIndex", "MakeIndex", "FillIndex"] {
        let conn = object_only();
        let mut logs = Vec::new();
        assert_eq!(plan2(&conn, failing, &mut logs), Err(format!("{failing} failed")));
        assert!(logs.is_empty());
        assert_eq!(count(&conn, "SELECT COUNT(*) FROM facts_fts WHERE facts_fts MATCH 'platform'"), 1);
        applied(&conn);
        assert_eq!(count(&conn, ASTERFALL), 1);
    }
    let conn = Connection::open_in_memory().unwrap();
    assert_eq!(plan2(&conn, "MakeVectors", &mut Vec::new()), Err(s("MakeVectors failed")));
    let mut logs = Vec::new();
    assert_eq!(plan2(&conn, "AddFailures", &mut logs), Ok(()));
    assert_eq!(logs, vec![s("[schema] transcript_files.consecutive_failures backfill: AddFailures failed")]);
}

#[test]
fn tombstone_requires_zero_access_and_age_over_threshold() {
    let conn = Connection::open_in_memory().unwrap();
    applied(&conn);
    let names: Vec<String> = columns(&conn).into_iter().map(|c| c.name).collect();
    assert!(names.contains(&s("access_count")));
    assert!(names.contains(&s("tombstone")));
}

#[test]
fn superseded_fact_is_historical_not_deleted() {
    let conn = Connection::open_in_memory().unwrap();
    applied(&conn);
    conn.execute_batch(
        "INSERT INTO facts (id,subject,predicate,object,importance,created_at,updated_at)
         VALUES ('f_old','Asterfall','deploy-command','run old-deploy.sh',0.5,'2026-01-01','2026-01-01');
         INSERT INTO facts (id,subject,predicate,object,importance,created_at,updated_at)
         VALUES ('f_new','Asterfall','deploy-command','run asterfallctl ship',0.5,'2026-03-01','2026-03-01');
         UPDATE facts SET authority_status='current' WHERE id='f_new';
         UPDATE facts SET authority_status='historical', superseded_by='f_new' WHERE id='f_old';",
    )
    .unwrap();
    let current: Vec<String> = conn
        .prepare(
            "SELECT id FROM facts WHERE subject='Asterfall' AND predicate='deploy-command'
             AND authority_status='current'",
        )
        .unwrap()
        .query_map([], |r| r.get::<_, String>(0))
        .unwrap()
        .map(Result::unwrap)
        .collect();
    assert_eq!(current, vec!["f_new".to_string()], "only the replacement is current");
    let historical: (String, String) = conn
        .query_row("SELECT id, superseded_by FROM facts WHERE authority_status='historical'", [], |r| {
            Ok((r.get(0)?, r.get(1)?))
        })
        .unwrap();
    assert_eq!(historical.0, "f_old", "the superseded fact stays queryable as history");
    assert_eq!(historical.1, "f_new", "the supersession link points to the replacement");
    assert_eq!(
        count(&conn, "SELECT COUNT(*) FROM facts WHERE subject='Asterfall' AND predicate='deploy-command'"),
        2
    );
}

#[test]
fn legacy_insert_path_defaults_to_unknown_authority() {
    let conn = Connection::open_in_memory().unwrap();
    applied(&conn);
    conn.execute(
        "INSERT INTO facts (id,subject,predicate,object,importance,created_at,updated_at)
         VALUES ('f_bare','Mossvale','is','a game',0.5,'2026-01-01','2026-01-01')",
        [],
    )
    .unwrap();
    let (status, effective, origin): (String, Option<String>, Option<String>) = conn
        .query_row(
            "SELECT authority_status,effective_date,source_origin FROM facts WHERE id='f_bare'",
            [],
            |r| Ok((r.get(0)?, r.get(1)?, r.get(2)?)),
        )
        .unwrap();
    assert_eq!(status, "unknown", "a bare legacy write must default to UNKNOWN authority");
    assert!(effective.is_none(), "a bare legacy write must not fabricate an effective_date");
    assert!(origin.is_none(), "a bare legacy write has unknown source_origin");
}

#[test]
fn private_fact_survives_authority_migration_and_is_not_promoted_to_current() {
    let conn = Connection::open_in_memory().unwrap();
    conn.execute_batch(LEGACY_TABLES).unwrap();
    conn.execute_batch(FACTS_VECTORS).unwrap();
    conn.execute_batch(FACTS_INDEX).unwrap();
    conn.execute(
        "INSERT INTO facts
           (id,subject,predicate,object,importance,created_at,updated_at,source_ref,private,tombstone)
         VALUES
           ('f_priv','Asterfall','internal-runbook','internal-only deploy step',0.5,
            '2026-01-01','2026-02-02','sources/asterfall-private-notes.md',1,0)",
        [],
    )
    .unwrap();
    applied(&conn);
    let (private, status): (i64, String) = conn
        .query_row("SELECT private,authority_status FROM facts WHERE id='f_priv'", [], |r| {
            Ok((r.get(0)?, r.get(1)?))
        })
        .unwrap();
    assert_eq!(private, 1, "the private flag must survive the additive authority migration");
    assert_eq!(
        status, "unknown",
        "a private, provenance-unknown legacy fact must stay UNKNOWN, never promoted to 'current'"
    );
}

// ── The columns of authority ─────────────────────────────────────────────────

/// Every row that a query gives, each value in its debug form.
fn dump(conn: &Connection, sql: &str) -> Vec<String> {
    let mut statement = conn.prepare(sql).unwrap();
    let width = statement.column_count();
    let rows = statement.query_map([], |r| {
        (0..width).map(|i| r.get::<_, rusqlite::types::Value>(i)).collect::<Result<Vec<_>, _>>()
    });
    rows.unwrap().map(|r| format!("{:?}", r.unwrap())).collect()
}

/// All that a database holds of its facts.
#[derive(Debug, PartialEq)]
struct State {
    facts: Vec<String>,
    history: Vec<String>,
    fts: Vec<String>,
    fts_matches: (i64, i64),
    vectors: Vec<String>,
    versions: Vec<String>,
}

fn snapshot(conn: &Connection, more_columns: &str) -> State {
    State {
        facts: dump(
            conn,
            &format!(
                "SELECT rowid,id,subject,predicate,object,importance,access_count,last_accessed,
                        created_at,updated_at,source_ref,private,tombstone,embedding{more_columns}
                   FROM facts ORDER BY id"
            ),
        ),
        history: dump(
            conn,
            "SELECT id,fact_id,op,prev_value,new_value,ts FROM fact_history ORDER BY id",
        ),
        fts: dump(conn, "SELECT rowid,subject,predicate,object FROM facts_fts ORDER BY rowid"),
        fts_matches: (
            count(conn, ASTERFALL),
            count(conn, "SELECT COUNT(*) FROM facts_fts WHERE facts_fts MATCH 'mossvale'"),
        ),
        vectors: dump(conn, "SELECT fact_id,embedding FROM facts_vec ORDER BY fact_id"),
        versions: dump(conn, "SELECT version FROM schema_version ORDER BY version"),
    }
}

fn snapshot_legacy_state(conn: &Connection) -> State {
    snapshot(conn, "")
}

fn snapshot_authority_state(conn: &Connection) -> State {
    snapshot(conn, ",source_origin,effective_date,superseded_by,authority_status")
}

/// The facts with all that belongs to them, the versions aside.
fn legacy_state(conn: &Connection) -> State {
    State { versions: Vec::new(), ..snapshot_legacy_state(conn) }
}

fn create_legacy_authority_fixture(conn: &Connection) {
    conn.execute_batch(LEGACY_TABLES).unwrap();
    conn.execute_batch(FACTS_VECTORS).unwrap();
    conn.execute_batch(FACTS_INDEX).unwrap();
    conn.execute_batch(
        "INSERT INTO facts
            (id,subject,predicate,object,importance,access_count,last_accessed,
             created_at,updated_at,source_ref,private,tombstone,embedding)
         VALUES
            ('f_live','Asterfall','deploy-command','run asterfallctl ship',0.8,3,
             '2026-02-03','2026-01-01','2026-02-02','sources/runbook.md',1,0,X'0102'),
            ('f_old','Mossvale','deploy-command','run old-deploy.sh',0.4,0,NULL,
             '2025-01-01','2025-02-02','sources/history.md',0,1,X'0304');
         INSERT INTO fact_history (fact_id,op,prev_value,new_value,ts) VALUES
            ('f_live','ADD',NULL,'run asterfallctl ship','2026-01-01'),
            ('f_old','FLAG','run old-deploy.sh','tombstoned','2026-03-01');
         INSERT INTO facts_vec VALUES ('f_live', zeroblob(3072)), ('f_old', X'0000803F');",
    )
    .unwrap();
}

#[test]
fn authority_columns_present_after_migration() {
    let conn = Connection::open_in_memory().unwrap();
    applied(&conn);
    let cols: Vec<String> = columns(&conn).into_iter().map(|c| c.name).collect();
    for expected in ["source_origin", "effective_date", "superseded_by", "authority_status"] {
        assert!(
            cols.contains(&s(expected)),
            "facts must gain authority column `{expected}` (present: {cols:?})"
        );
    }
}

#[test]
fn authority_migration_preserves_legacy_data_and_defaults_unknown() {
    let conn = Connection::open_in_memory().unwrap();
    conn.execute_batch(LEGACY_TABLES).unwrap();
    conn.execute_batch(FACTS_VECTORS).unwrap();
    conn.execute_batch(FACTS_INDEX).unwrap();
    conn.execute(
        "INSERT INTO facts
           (id,subject,predicate,object,importance,created_at,updated_at,source_ref,private,tombstone)
         VALUES
           ('f_legacy','Asterfall','deploy-command','run asterfallctl ship',0.7,
            '2026-01-01','2026-02-02','sources/asterfall-runbook.md',1,0)",
        [],
    )
    .unwrap();
    conn.execute(
        "INSERT INTO fact_history (fact_id,op,new_value,ts)
         VALUES ('f_legacy','ADD','run asterfallctl ship','2026-01-01')",
        [],
    )
    .unwrap();
    conn.execute("INSERT INTO facts_vec VALUES ('f_legacy', zeroblob(3072))", []).unwrap();
    let rowid_pre = count(&conn, "SELECT rowid FROM facts WHERE id='f_legacy'");
    let fts_pre = count(&conn, ASTERFALL);
    assert_eq!(fts_pre, 1, "legacy fixture should be FTS-searchable by subject");

    applied(&conn);

    let (subject, object, source_ref, private, tombstone): (String, String, String, i64, i64) = conn
        .query_row(
            "SELECT subject,object,source_ref,private,tombstone FROM facts WHERE id='f_legacy'",
            [],
            |r| Ok((r.get(0)?, r.get(1)?, r.get(2)?, r.get(3)?, r.get(4)?)),
        )
        .unwrap();
    assert_eq!(subject, "Asterfall");
    assert_eq!(object, "run asterfallctl ship");
    assert_eq!(
        source_ref, "sources/asterfall-runbook.md",
        "source_ref must survive migration"
    );
    assert_eq!(private, 1, "private flag must survive migration");
    assert_eq!(tombstone, 0, "tombstone flag must survive migration");
    let hist = count(&conn, "SELECT COUNT(*) FROM fact_history WHERE fact_id='f_legacy'");
    assert_eq!(hist, 1, "fact_history rows must survive migration");
    let rowid_post = count(&conn, "SELECT rowid FROM facts WHERE id='f_legacy'");
    assert_eq!(rowid_post, rowid_pre, "rowid must be stable (external-content FTS join key)");
    let fts_post = count(&conn, ASTERFALL);
    assert_eq!(fts_post, 1, "FTS must still match the subject token after migration");
    let vec_rows = count(&conn, "SELECT COUNT(*) FROM facts_vec WHERE fact_id='f_legacy'");
    assert_eq!(vec_rows, 1, "fact vector must survive migration");

    type Authority = (String, Option<String>, Option<String>, Option<String>);
    let (status, effective, origin, superseded): Authority = conn
        .query_row(
            "SELECT authority_status,effective_date,source_origin,superseded_by
               FROM facts WHERE id='f_legacy'",
            [],
            |r| Ok((r.get(0)?, r.get(1)?, r.get(2)?, r.get(3)?)),
        )
        .unwrap();
    assert_eq!(
        status, "unknown",
        "a migrated legacy fact must be UNKNOWN authority, never 'current'"
    );
    assert!(
        effective.is_none(),
        "effective_date must stay NULL — never fabricated from updated_at (got {effective:?})"
    );
    assert!(origin.is_none(), "source_origin must stay unknown/NULL for a legacy fact");
    assert!(superseded.is_none(), "a lone legacy fact is not superseded");
}

#[test]
fn authority_migration_repeat_preserves_all_state() {
    let conn = Connection::open_in_memory().unwrap();
    create_legacy_authority_fixture(&conn);
    applied(&conn);
    conn.execute_batch(
        "UPDATE facts SET
            source_origin='portable/runbook', effective_date='2026-02-01',
            authority_status='current'
         WHERE id='f_live';
         UPDATE facts SET
            source_origin='portable/history', effective_date='2025-01-01',
            superseded_by='f_live', authority_status='historical'
         WHERE id='f_old';",
    )
    .unwrap();
    let first = snapshot_authority_state(&conn);
    applied(&conn);
    let repeated = snapshot_authority_state(&conn);
    assert_eq!(repeated, first, "repeat migration must preserve every state value");
    assert_eq!(
        repeated.versions.iter().filter(|v| v.as_str() == "[Integer(5)]").count(),
        1,
        "schema version 5 must be recorded once"
    );
    assert_eq!(repeated.fts_matches, (1, 1));
}

#[test]
fn authority_migration_failure_rolls_back_and_returns_original_error() {
    let conn = Connection::open_in_memory().unwrap();
    create_legacy_authority_fixture(&conn);
    let before = snapshot_legacy_state(&conn);
    let marker = "authority-test-injected-after-first-add";
    let error = migrate_with(&conn, Some(marker)).unwrap_err();
    assert_eq!(error, marker, "migration must return the injected original error");
    assert!(conn.is_autocommit(), "failed migration must leave no transaction open");
    let authority_columns = count(
        &conn,
        "SELECT COUNT(*) FROM pragma_table_info('facts')
         WHERE name IN ('source_origin','effective_date','superseded_by','authority_status')",
    );
    assert_eq!(authority_columns, 0, "all authority DDL must roll back");
    let version = count(&conn, "SELECT COUNT(*) FROM schema_version WHERE version=5");
    assert_eq!(version, 0, "failed migration must not record version 5");
    let after = snapshot_legacy_state(&conn);
    assert_eq!(after, before, "rollback must preserve every legacy state value");
}

// ── Opening ──────────────────────────────────────────────────────────────────

/// Opens a database, of which the tables may be there already.
fn open_db(conn: &Connection, logs: &mut Vec<String>) -> Result<(), String> {
    let (mut opening, mut step) = open::open_db("memory.db");
    loop {
        logs.extend(step.log.take());
        let done = match step.action {
            open::Action::Open(p) => {
                assert_eq!(p, "memory.db");
                Ok(())
            }
            open::Action::SetTimeout(ms) => {
                assert_eq!(ms, BUSY_TIMEOUT_MS);
                Ok(())
            }
            open::Action::SetUpFacts => plan2(conn, "", logs),
            open::Action::MigrateAuthority => migrate_authority(conn),
            open::Action::MakeMessages => batch(
                conn,
                "CREATE TABLE IF NOT EXISTS messages (id TEXT PRIMARY KEY, reply_to TEXT);
                 CREATE INDEX IF NOT EXISTS idx_messages_reply_to ON messages(reply_to);",
            ),
            open::Action::Finish(r) => return r,
        };
        step = opening.step(done);
    }
}

#[test]
fn open_db_migrates_legacy_authority_on_disk_and_preserves_all_state() {
    let conn = Connection::open_in_memory().unwrap();
    create_legacy_authority_fixture(&conn);
    let before = legacy_state(&conn);
    open_db(&conn, &mut Vec::new()).unwrap();
    let after = legacy_state(&conn);
    assert_eq!(after, before, "open_db migration must preserve all legacy state");
    assert_eq!(after.fts_matches, (1, 1));
    type Authority = (String, Option<String>, Option<String>, Option<String>, String);
    let authority: Vec<Authority> = conn
        .prepare(
            "SELECT id,source_origin,effective_date,superseded_by,authority_status
               FROM facts ORDER BY id",
        )
        .unwrap()
        .query_map([], |r| Ok((r.get(0)?, r.get(1)?, r.get(2)?, r.get(3)?, r.get(4)?)))
        .unwrap()
        .map(Result::unwrap)
        .collect();
    assert_eq!(
        authority,
        vec![
            (s("f_live"), None, None, None, s("unknown")),
            (s("f_old"), None, None, None, s("unknown")),
        ],
        "legacy authority must remain unknown with no inferred metadata"
    );
}

#[test]
fn open_db_returns_persistent_authority_schema_error() {
    let conn = Connection::open_in_memory().unwrap();
    conn.execute_batch(
        "CREATE TABLE facts (
            id TEXT PRIMARY KEY, subject TEXT NOT NULL, predicate TEXT NOT NULL,
            object TEXT NOT NULL, importance REAL NOT NULL DEFAULT 0.5,
            access_count INTEGER NOT NULL DEFAULT 0, last_accessed TEXT,
            created_at TEXT NOT NULL, updated_at TEXT NOT NULL, source_ref TEXT,
            private INTEGER NOT NULL DEFAULT 0, tombstone INTEGER NOT NULL DEFAULT 0,
            embedding BLOB, authority_status INTEGER NOT NULL DEFAULT 0
         );",
    )
    .unwrap();
    let mut logs = Vec::new();
    let message = open_db(&conn, &mut logs).unwrap_err();
    assert!(message.contains("authority schema"), "unexpected error: {message}");
    assert!(message.contains("authority_status"), "unexpected error: {message}");
    assert!(logs[0].starts_with("[memory] Plan 2 schema migration warning: "));
}

#[test]
fn open_db_keeps_unrelated_message_migration_best_effort() {
    let conn = Connection::open_in_memory().unwrap();
    conn.execute_batch("CREATE TABLE messages (id TEXT PRIMARY KEY);").unwrap();
    let mut logs = Vec::new();
    open_db(&conn, &mut logs).expect("message migration failure must remain best effort");
    let authority_columns = count(
        &conn,
        "SELECT COUNT(*) FROM pragma_table_info('facts')
         WHERE name IN ('source_origin','effective_date','superseded_by','authority_status')",
    );
    assert_eq!(authority_columns, 4, "authority postcondition must still pass");
    let reply_to_columns =
        count(&conn, "SELECT COUNT(*) FROM pragma_table_info('messages') WHERE name='reply_to'");
    assert_eq!(reply_to_columns, 0, "fixture must retain the unrelated mismatch");
    assert!(logs.iter().any(|l| l.starts_with("[memory] messages schema migration warning: ")));
}

#[test]
fn a_database_that_cannot_be_opened_is_an_error() {
    let (mut opening, _) = open::open_db("x");
    let step = opening.step(Err(s("denied")));
    assert!(matches!(step.action, open::Action::Finish(Err(e)) if e == "denied"));
}

// ── The index ────────────────────────────────────────────────────────────────

fn set_up_index(conn: &Connection, logs: &mut Vec<String>) -> Result<(), String> {
    let (mut setup, mut step) = init_db();
    loop {
        logs.extend(step.log.take());
        let event = match step.action {
            init::Action::WriteAhead => init::Event::Done(Err(s("in memory"))),
            init::Action::MakeTables => init::Event::Done(batch(
                conn,
                "CREATE TABLE IF NOT EXISTS files (path TEXT UNIQUE NOT NULL);
                 CREATE TABLE IF NOT EXISTS metadata (key TEXT PRIMARY KEY, value TEXT NOT NULL);
                 CREATE TABLE IF NOT EXISTS chunk_meta (chunk_rowid INTEGER PRIMARY KEY);",
            )),
            init::Action::CountChunkTables => init::Event::Count(Some(count(
                conn,
                "SELECT COUNT(*) FROM sqlite_master WHERE type='table' AND name='chunks'",
            ))),
            init::Action::ReadPrivate => {
                init::Event::Readable(conn.prepare("SELECT private FROM chunks LIMIT 0").is_ok())
            }
            init::Action::CountMarks => init::Event::Count(Some(count(
                conn,
                "SELECT COUNT(*) FROM metadata WHERE key='schema_migrated_chunks_v3'",
            ))),
            init::Action::DropChunks => init::Event::Done(batch(
                conn,
                "BEGIN; DROP TABLE IF EXISTS chunks; DELETE FROM files;
                 INSERT OR REPLACE INTO metadata VALUES ('schema_migrated_chunks_v3', '1'); COMMIT;",
            )),
            init::Action::MarkMigrated => init::Event::Done(batch(
                conn,
                "INSERT OR IGNORE INTO metadata VALUES ('schema_migrated_chunks_v3', '1')",
            )),
            init::Action::MakeChunks => init::Event::Done(batch(
                conn,
                "CREATE VIRTUAL TABLE IF NOT EXISTS chunks USING fts5(content, private)",
            )),
            init::Action::FileColumns => {
                let mut statement = conn.prepare("PRAGMA table_info(files)").unwrap();
                let names = statement.query_map([], |r| r.get::<_, String>(1)).unwrap();
                init::Event::Columns(Ok(names.map(Result::unwrap).collect()))
            }
            init::Action::AddContentHash => init::Event::Done(batch(
                conn,
                "ALTER TABLE files ADD COLUMN content_hash TEXT NOT NULL DEFAULT ''",
            )),
            init::Action::MakeVectors => {
                init::Event::Done(batch(conn, "CREATE TABLE IF NOT EXISTS vec_chunks (chunk_id INTEGER)"))
            }
            init::Action::Finish(r) => return r,
        };
        step = setup.step(event);
    }
}

#[test]
fn test_init_db_creates_vec_and_private_schema() {
    let conn = Connection::open_in_memory().unwrap();
    let mut logs = Vec::new();
    set_up_index(&conn, &mut logs).unwrap();
    assert!(logs.is_empty());
    assert!(conn.prepare("SELECT private FROM chunks LIMIT 0").is_ok());
    assert_eq!(count(&conn, "SELECT COUNT(*) FROM vec_chunks"), 0);
    assert!(conn.prepare("SELECT content_hash FROM files LIMIT 0").is_ok());
}

#[test]
fn test_init_db_creates_schema() {
    let conn = Connection::open_in_memory().unwrap();
    set_up_index(&conn, &mut Vec::new()).unwrap();
    for table in ["files", "chunks", "chunk_meta"] {
        assert_eq!(count(&conn, &format!("SELECT COUNT(*) FROM {table}")), 0);
    }
    let val: Option<String> = conn
        .query_row("SELECT value FROM metadata WHERE key='schema_migrated_chunks_v3'", [], |r| r.get(0))
        .ok();
    assert_eq!(val.as_deref(), Some("1"));
}

#[test]
fn old_chunks_are_dropped_once() {
    let conn = Connection::open_in_memory().unwrap();
    conn.execute_batch(
        "CREATE VIRTUAL TABLE chunks USING fts5(content);
         CREATE TABLE files (path TEXT UNIQUE NOT NULL);
         INSERT INTO files VALUES ('a.md');",
    )
    .unwrap();
    let mut logs = Vec::new();
    set_up_index(&conn, &mut logs).unwrap();
    assert_eq!(logs.len(), 1);
    assert!(logs[0].contains("Files will be re-indexed."));
    assert_eq!(count(&conn, "SELECT COUNT(*) FROM files"), 0);
    conn.execute_batch("INSERT INTO files (path) VALUES ('a.md')").unwrap();
    set_up_index(&conn, &mut logs).unwrap();
    assert_eq!((logs.len(), count(&conn, "SELECT COUNT(*) FROM files")), (1, 1));
}

#[test]
fn a_step_that_fails_ends_the_setup() {
    let (mut setup, step) = init_db();
    assert!(matches!(step.action, init::Action::WriteAhead));
    let step = setup.step(init::Event::Done(Ok(())));
    assert!(matches!(step.action, init::Action::MakeTables));
    let step = setup.step(init::Event::Done(Err(s("full"))));
    assert!(matches!(step.action, init::Action::Finish(Err(e)) if e == "full"));
    let (mut setup, _) = apply_plan2();
    let step = setup.step(plan2::Event::Done(Err(s("full"))));
    assert!(matches!(step.action, plan2::Action::Finish(Err(e)) if e == "full"));
}

// ── One file ─────────────────────────────────────────────────────────────────

const FILE_TABLES: &str = "
    CREATE TABLE files (
        id INTEGER PRIMARY KEY AUTOINCREMENT, path TEXT UNIQUE NOT NULL, content_hash TEXT,
        chunk_count INTEGER);
    CREATE VIRTUAL TABLE chunks USING fts5(
        file_id, source_path, heading, chunk_index, content, private);
    CREATE TABLE chunk_meta (chunk_rowid INTEGER PRIMARY KEY, source_weight REAL NOT NULL);
    CREATE TABLE vec_chunks (rowid INTEGER PRIMARY KEY, embedding BLOB);
";

fn run(conn: &Connection, sql: &str, rows: &[i64]) -> Result<(), String> {
    for row in rows {
        conn.execute(sql, [row]).map_err(|e| e.to_string())?;
    }
    Ok(())
}

/// Removes the chunks of a file; fails before the action with the number `stop`.
fn clear(conn: &Connection, id: i64, stop: usize) -> Result<(), String> {
    let (mut c, mut action) = delete_chunks_for_file(id);
    let mut steps = 0;
    loop {
        if let clear::Action::Finish(r) = action {
            return r;
        }
        steps += 1;
        if steps == stop {
            action = c.step(match action {
                clear::Action::List(_) => clear::Event::Rows(Err(s("stopped"))),
                _ => clear::Event::Done(Err(s("stopped"))),
            });
            continue;
        }
        let event = match action {
            clear::Action::List(f) => {
                let mut q = conn.prepare("SELECT rowid FROM chunks WHERE file_id = ?").unwrap();
                let rows = q.query_map([f.to_string()], |r| r.get(0)).unwrap();
                clear::Event::Rows(Ok(rows.map(Result::unwrap).collect()))
            }
            clear::Action::DeleteWeights(v) => {
                assert!(v.len() <= 500);
                clear::Event::Done(run(conn, "DELETE FROM chunk_meta WHERE chunk_rowid = ?", &v))
            }
            clear::Action::DeleteVectors(v) => {
                clear::Event::Done(run(conn, "DELETE FROM vec_chunks WHERE rowid = ?", &v))
            }
            clear::Action::DeleteChunks(f) => clear::Event::Done(
                conn.execute("DELETE FROM chunks WHERE file_id = ?", [f.to_string()])
                    .map(|_| ())
                    .map_err(|e| e.to_string()),
            ),
            clear::Action::Finish(_) => unreachable!(),
        };
        action = c.step(event);
    }
}

fn existing_file_id(conn: &Connection, path: &str) -> Option<i64> {
    conn.query_row("SELECT id FROM files WHERE path = ?", [path], |r| r.get(0)).ok()
}

fn index_content(conn: &Connection, path: &str, content: &str) -> Result<usize, String> {
    let (mut f, mut action) = index_file(path, content, "full");
    loop {
        let event = match action {
            file_run::Action::Find(p) => file_run::Event::Found(existing_file_id(conn, &p)),
            file_run::Action::ClearChunks(id) => file_run::Event::Done(clear(conn, id, 0)),
            file_run::Action::DeleteRecord(id) => {
                file_run::Event::Done(run(conn, "DELETE FROM files WHERE id = ?", &[id]))
            }
            file_run::Action::InsertRecord { path, hash, chunk_count } => {
                conn.execute(
                    "INSERT INTO files (path, content_hash, chunk_count) VALUES (?, ?, ?)",
                    (path, hash, chunk_count as i64),
                )
                .unwrap();
                file_run::Event::Stored(Ok(conn.last_insert_rowid()))
            }
            file_run::Action::InsertChunk { file_id, path, index, chunk, private } => {
                conn.execute(
                    "INSERT INTO chunks (file_id, source_path, heading, chunk_index, content, private) \
                     VALUES (?, ?, ?, ?, ?, ?)",
                    (
                        file_id.to_string(),
                        path,
                        chunk.heading,
                        index.to_string(),
                        chunk.content,
                        private
                    ),
                )
                .unwrap();
                file_run::Event::Stored(Ok(conn.last_insert_rowid()))
            }
            file_run::Action::InsertWeight { rowid, weight } => {
                conn.execute(
                    "INSERT INTO chunk_meta (chunk_rowid, source_weight) VALUES (?, ?)",
                    (rowid, f64::from(weight) / 10.0),
                )
                .unwrap();
                file_run::Event::Done(Ok(()))
            }
            file_run::Action::Embed { rowids, contents } => {
                assert_eq!(rowids.len(), contents.len());
                run(conn, "INSERT INTO vec_chunks (rowid, embedding) VALUES (?, x'00')", &rowids)
                    .unwrap();
                file_run::Event::Embedded(rowids.len())
            }
            file_run::Action::Finish(r) => return r,
        };
        action = f.step(event);
    }
}

fn vec_count(conn: &Connection) -> i64 {
    count(conn, "SELECT COUNT(*) FROM vec_chunks")
}

fn orphan_vec_count(conn: &Connection) -> i64 {
    count(conn, "SELECT COUNT(*) FROM vec_chunks WHERE rowid NOT IN (SELECT rowid FROM chunks)")
}

/// Indexes a file of `n` sections.
fn reindex(conn: &Connection, path: &str, n: usize) {
    let sections: Vec<String> = (0..n).map(|i| format!("# {i}\nchunk {i} of {path}")).collect();
    assert_eq!(index_content(conn, path, &sections.join("\n")), Ok(n));
}

#[test]
fn reindex_cycles_leave_no_orphan_vectors() {
    let conn = Connection::open_in_memory().unwrap();
    conn.execute_batch(FILE_TABLES).unwrap();
    reindex(&conn, "b.md", 3);
    reindex(&conn, "a.md", 5);
    assert_eq!(vec_count(&conn), 8);
    assert_eq!(orphan_vec_count(&conn), 0);

    reindex(&conn, "a.md", 2);
    assert_eq!(orphan_vec_count(&conn), 0, "reindex-shrink stranded a vector");
    assert_eq!(vec_count(&conn), 5);

    reindex(&conn, "a.md", 6);
    assert_eq!(orphan_vec_count(&conn), 0, "reindex-grow stranded a vector");
    assert_eq!(vec_count(&conn), 9);

    let fid_b = existing_file_id(&conn, "b.md").unwrap();
    clear(&conn, fid_b, 0).unwrap();
    conn.execute("DELETE FROM files WHERE id = ?", [fid_b]).unwrap();
    assert_eq!(orphan_vec_count(&conn), 0, "file deletion stranded a vector");
    assert_eq!(vec_count(&conn), 6, "only A's six vectors remain");
}

#[test]
fn a_removal_that_stops_leaves_no_orphan_vectors() {
    for stop in 1..=4 {
        let conn = Connection::open_in_memory().unwrap();
        conn.execute_batch(FILE_TABLES).unwrap();
        reindex(&conn, "a.md", 3);
        let id = existing_file_id(&conn, "a.md").unwrap();
        assert_eq!(clear(&conn, id, stop), Err(s("stopped")));
        assert_eq!(orphan_vec_count(&conn), 0);
        assert_eq!(count(&conn, "SELECT COUNT(*) FROM chunks"), 3);
        assert_eq!(vec_count(&conn), if stop == 4 { 0 } else { 3 });
    }
}

#[test]
fn weights_are_removed_in_batches() {
    let (mut c, action) = delete_chunks_for_file(7);
    assert!(matches!(action, clear::Action::List(7)));
    let mut action = c.step(clear::Event::Rows(Ok((0..1200).collect())));
    let mut sizes = Vec::new();
    while let clear::Action::DeleteWeights(v) = action {
        sizes.push(v.len());
        action = c.step(clear::Event::Done(Ok(())));
    }
    assert_eq!(sizes, vec![500, 500, 200]);
    assert!(matches!(&action, clear::Action::DeleteVectors(v) if v.len() == 1200));
    assert!(matches!(c.step(clear::Event::Done(Ok(()))), clear::Action::DeleteChunks(7)));
    assert!(matches!(c.step(clear::Event::Done(Ok(()))), clear::Action::Finish(Ok(()))));
}

#[test]
fn a_file_is_stored_chunk_by_chunk() {
    let conn = Connection::open_in_memory().unwrap();
    conn.execute_batch(FILE_TABLES).unwrap();
    assert_eq!(index_content(&conn, "me/decisions/x.md", "# A\none\n# B\ntwo"), Ok(2));
    let rows: Vec<(String, String, i64, f64)> = conn
        .prepare(
            "SELECT chunk_index, content, private, source_weight FROM chunks
             JOIN chunk_meta ON chunk_rowid = chunks.rowid ORDER BY chunks.rowid",
        )
        .unwrap()
        .query_map([], |r| Ok((r.get(0)?, r.get(1)?, r.get(2)?, r.get(3)?)))
        .unwrap()
        .map(Result::unwrap)
        .collect();
    assert_eq!(rows.len(), 2);
    assert_eq!((rows[0].0.as_str(), rows[0].2, rows[0].3), ("0", 1, 1.5));
    assert!(rows[1].1.contains("two"));
    assert_eq!(index_content(&conn, "empty.md", ""), Ok(0));
    assert_eq!(count(&conn, "SELECT chunk_count FROM files WHERE path = 'empty.md'"), 0);
}

#[test]
fn a_file_whose_old_rows_stay_is_not_indexed() {
    let (mut f, action) = index_file("a.md", "# A\nx", "full");
    assert!(matches!(action, file_run::Action::Find(p) if p == "a.md"));
    assert!(matches!(f.step(file_run::Event::Found(Some(4))), file_run::Action::ClearChunks(4)));
    let action = f.step(file_run::Event::Done(Err(s("locked"))));
    assert!(matches!(action, file_run::Action::Finish(Err(e)) if e == "locked"));
}
