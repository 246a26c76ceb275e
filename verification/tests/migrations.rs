use engram::checksum::sha256_of_text;
use engram::storage::error::{
    Error, MigrationDirection, MigrationError, MigrationResult, MigrationWarning,
};
use engram::storage::files::{
    contains_breaking_marker, list_migration_files, version_of_file, DirEntry,
};
use engram::storage::manifest::{is_too_old, Manifest, ManifestMigration};
use engram::storage::migrations::{
    file_failure, ledger_failure, manifest_of_files, schema_version_failure, schema_version_of,
    Action, LedgerRow, MigrationRun,
};
use engram::time::Timestamp;

const MINIMAL_SCHEMA: &str = r#"
DEFINE TABLE test_record SCHEMAFULL;
DEFINE FIELD name ON test_record TYPE string
    ASSERT string::len($value) > 0;
DEFINE INDEX idx_test_record_name ON test_record FIELDS name;
"#;

fn entry(name: &str) -> DirEntry {
    DirEntry { name: name.to_string(), path: format!("schema/migrations/{name}") }
}

fn manifest(version: u32, files: &[(u32, &str)]) -> Manifest {
    Manifest {
        version,
        engram_version_min: "0.1.0".to_string(),
        applied_migrations: files
            .iter()
            .map(|(version, file)| ManifestMigration {
                version: *version,
                file: file.to_string(),
                description: "test".to_string(),
            })
            .collect(),
    }
}

/// A database with a ledger, and a directory of migration files.
struct World {
    files: Vec<(String, String)>,
    ledger: Vec<(u32, String, String)>,
    batches: Vec<String>,
    /// The versions that were warned of before they were applied.
    logged: Vec<u32>,
}

impl World {
    fn new(files: &[(&str, &str)]) -> World {
        World {
            files: files.iter().map(|(n, t)| (n.to_string(), t.to_string())).collect(),
            ledger: vec![],
            batches: vec![],
            logged: vec![],
        }
    }

    fn rows(&self) -> Vec<LedgerRow> {
        self.ledger
            .iter()
            .map(|(version, migration, checksum)| LedgerRow {
                version: *version,
                applied_at: Timestamp { seconds: 0, nanos: 0 },
                engram_ver: "0.1.0".to_string(),
                migration: migration.clone(),
                checksum: checksum.clone(),
                direction: "up".to_string(),
            })
            .collect()
    }

    fn text(&self, name: &str) -> String {
        let name = name.rsplit('/').next().unwrap();
        self.files.iter().find(|f| f.0 == name).unwrap().1.clone()
    }

    fn migrate(&mut self, manifest: &Manifest, strict: bool) -> Result<MigrationResult, Error> {
        let entries = self.files.iter().map(|f| entry(&f.0)).collect();
        let mut run =
            MigrationRun::begin(manifest, "schema/migrations", Some(entries), "0.1.0-test", strict)?;
        let mut action = run.ledger_read(self.rows())?;
        loop {
            action = match action {
                Action::ReadApplied { file } => run.file_read(self.text(&file))?,
                Action::ReadPending { path } => run.file_read(self.text(&path))?,
                Action::Apply { text, warning, .. } => {
                    self.logged.extend(warning.map(|w| w.version));
                    self.batches.push(text);
                    run.applied()
                }
                Action::Record { statement, migration, checksum, .. } => {
                    let version: u32 = statement
                        .strip_prefix("CREATE engram_schema SET version = ")
                        .unwrap()
                        .split(',')
                        .next()
                        .unwrap()
                        .parse()
                        .unwrap();
                    self.ledger.push((version, migration, checksum));
                    run.recorded()
                }
                Action::Finish(result) => return Ok(result),
            };
        }
    }
}

#[test]
fn direction_round_trip() {
    assert_eq!(MigrationDirection::Up.as_str(), "up");
    assert_eq!(MigrationDirection::Down.as_str(), "down");
    assert_eq!(
        "up".parse::<MigrationDirection>().unwrap(),
        MigrationDirection::Up
    );
    assert_eq!(
        "down".parse::<MigrationDirection>().unwrap(),
        MigrationDirection::Down
    );
}

#[test]
fn direction_rejects_unknown() {
    assert!("sideways".parse::<MigrationDirection>().is_err());
}

#[test]
fn destructive_marker_detection() {
    assert!(contains_breaking_marker(
        "-- BREAKING: drops the obsolete table\nDEFINE TABLE x;"
    ));
    assert!(contains_breaking_marker(
        "-- Some header\n-- breaking: this is destructive\nDEFINE TABLE x;"
    ));
    assert!(!contains_breaking_marker("-- Some header\nDEFINE TABLE x;"));
}

#[test]
fn sha256_is_stable() {
    let h1 = sha256_of_text("hello");
    let h2 = sha256_of_text("hello");
    assert_eq!(h1, h2);
    assert!(sha256_of_text("a") != sha256_of_text("b"));
    assert_eq!(
        sha256_of_text(""),
        "e3b0c44298fc1c149afbf4c8996fb92427ae41e4649b934ca495991b7852b855"
    );
}

#[test]
fn list_sorts_by_numeric_prefix() {
    let entries = vec![
        entry("0002_b.sql"),
        entry("0001_a.sql"),
        entry("not_a_migration.txt"),
        entry("README"),
    ];
    let listed = list_migration_files("schema/migrations", Some(entries)).unwrap();
    let versions: Vec<u32> = listed.iter().map(|f| f.version).collect();
    assert_eq!(versions, vec![1, 2]);
    assert_eq!(listed[0].path, "schema/migrations/0001_a.sql");
}

#[test]
fn ledger_row_direction_parses() {
    let row = LedgerRow {
        version: 1,
        applied_at: Timestamp { seconds: 0, nanos: 0 },
        engram_ver: "0.1.0".to_string(),
        migration: "0001_init.sql".to_string(),
        checksum: "x".to_string(),
        direction: "up".to_string(),
    };
    let parsed: MigrationDirection = row.direction.parse().unwrap();
    assert_eq!(parsed, MigrationDirection::Up);
}

#[test]
fn minimal_migration_applies_and_records_ledger() {
    let mut w = World::new(&[("0001_init.sql", MINIMAL_SCHEMA)]);
    let result = w.migrate(&manifest(1, &[(1, "0001_init.sql")]), false).expect("migrate");
    assert_eq!(result.current_version, 1, "synthetic migration 1 should be applied");
    assert_eq!(result.applied.len(), 1);
    assert_eq!(result.applied[0].file, "0001_init.sql");
    assert_eq!(result.applied[0].checksum, sha256_of_text(MINIMAL_SCHEMA));
    assert_eq!(result.applied[0].direction, MigrationDirection::Up);
    assert_eq!(w.batches.len(), 1);
    assert!(w.batches[0].contains(MINIMAL_SCHEMA));
    assert_eq!(w.ledger[0].2, sha256_of_text(MINIMAL_SCHEMA));
}

#[test]
fn embedded_migration_runner_is_idempotent() {
    let mut w = World::new(&[("0001_init.sql", MINIMAL_SCHEMA), ("0002_more.sql", "DEFINE TABLE y;")]);
    let m = manifest(2, &[(1, "0001_init.sql"), (2, "0002_more.sql")]);
    assert_eq!(w.migrate(&m, false).unwrap().applied.len(), 2);
    let again = w.migrate(&m, false).unwrap();
    assert!(again.applied.is_empty());
    assert_eq!(again.skipped, vec![1, 2]);
    assert_eq!(again.current_version, 2);
    assert_eq!(w.batches.len(), 2);
}

#[test]
fn schema_too_new_is_rejected() {
    let mut w = World::new(&[("0001_init.sql", MINIMAL_SCHEMA)]);
    w.ledger = vec![
        (1, "0001_init.sql".to_string(), sha256_of_text(MINIMAL_SCHEMA)),
        (2, "0002_extra.sql".to_string(), "x".to_string()),
    ];
    let e = w.migrate(&manifest(1, &[(1, "0001_init.sql")]), false).unwrap_err();
    assert_eq!(e.message(), "database schema version 2 is newer than supported version 1");
}

#[test]
fn breaking_marker_yields_warning_not_failure() {
    let body = format!(
        "-- BREAKING: this is intentionally marked destructive for the test\n{MINIMAL_SCHEMA}"
    );
    let mut w = World::new(&[("0001_init.sql", &body)]);
    let m = manifest(1, &[(1, "0001_init.sql")]);
    let result = w.migrate(&m, false).expect("breaking marker is a warning, not a failure");
    assert_eq!(result.warnings.len(), 1);
    assert_eq!(result.warnings[0].version, 1);
    let mut strict = World::new(&[("0001_init.sql", &body)]);
    let e = strict.migrate(&m, true).unwrap_err();
    assert!(e.message().contains("strict mode refuses destructive migration 1"));
    assert!(strict.batches.is_empty());
}

#[test]
fn rejects_manifest_and_disk_mismatch() {
    let m = manifest(1, &[(1, "9999_nonexistent.sql")]);
    let e = MigrationRun::begin(&m, "schema/migrations", None, "0.1.0-test", false)
        .err()
        .expect("expected the runner to refuse the inconsistent manifest");
    assert_eq!(
        e.message(),
        "manifest error: migrations directory does not exist: schema/migrations"
    );
    let mut empty = World::new(&[]);
    let e = empty.migrate(&m, false).unwrap_err();
    assert_eq!(
        e.message(),
        "migration invariant violated: manifest declares migration 1 but the file is missing from disk"
    );
    let mut extra = World::new(&[("0001_a.sql", ""), ("0002_b.sql", "")]);
    let e = extra.migrate(&manifest(1, &[(1, "0001_a.sql")]), false).unwrap_err();
    assert_eq!(
        e.message(),
        "migration invariant violated: migration file version 2 is on disk but not declared in the manifest"
    );
}

#[test]
fn a_migration_of_another_name_is_refused() {
    let mut world = World::new(&[("0001_other.sql", MINIMAL_SCHEMA)]);
    let e = world.migrate(&manifest(1, &[(1, "0001_init.sql")]), false).unwrap_err();
    assert_eq!(
        e.message(),
        "migration invariant violated: manifest declares migration 1 as 0001_init.sql but that file is missing from disk"
    );
    assert!(world.batches.is_empty() && world.ledger.is_empty());
    assert!(world.migrate(&manifest(1, &[(1, "0001_other.sql")]), false).is_ok());
}

#[test]
fn a_migration_is_one_transaction() {
    let mut world = World::new(&[("0001_init.sql", "DEFINE TABLE a;\nDEFINE TABLE b")]);
    world.migrate(&manifest(1, &[(1, "0001_init.sql")]), false).unwrap();
    assert_eq!(
        world.batches,
        vec![
            "BEGIN TRANSACTION;\nDEFINE TABLE a;\nDEFINE TABLE b\n;\nCOMMIT TRANSACTION;"
        ]
    );
    assert_eq!(world.ledger[0].2, sha256_of_text("DEFINE TABLE a;\nDEFINE TABLE b"));
}

#[test]
fn an_edited_migration_is_refused() {
    let mut w = World::new(&[("0001_init.sql", MINIMAL_SCHEMA)]);
    let m = manifest(1, &[(1, "0001_init.sql")]);
    w.migrate(&m, false).unwrap();
    w.files[0].1.push_str("-- edited");
    let e = w.migrate(&m, false).unwrap_err();
    let expected = format!(
        "checksum mismatch on already-applied migration 1 (0001_init.sql): stored={}, file={}",
        sha256_of_text(MINIMAL_SCHEMA),
        sha256_of_text(&format!("{MINIMAL_SCHEMA}-- edited")),
    );
    assert_eq!(e.message(), expected);
}

#[test]
fn versions_must_follow_each_other() {
    let mut twice = World::new(&[("0001_a.sql", ""), ("1_b.sql", "")]);
    let e = twice.migrate(&manifest(1, &[(1, "0001_a.sql")]), false).unwrap_err();
    assert_eq!(e.message(), "migration invariant violated: migration version 1 occurs twice");
    let mut gap = World::new(&[("0001_a.sql", ""), ("0003_c.sql", "")]);
    let e = gap.migrate(&manifest(3, &[(1, "0001_a.sql"), (3, "0003_c.sql")]), false).unwrap_err();
    assert_eq!(
        e.message(),
        "migration invariant violated: migration versions leave a gap between 1 and 3"
    );
}

#[test]
fn an_old_release_is_refused() {
    let mut m = manifest(1, &[(1, "0001_a.sql")]);
    m.engram_version_min = "0.2.0".to_string();
    let mut w = World::new(&[("0001_a.sql", "")]);
    let e = w.migrate(&m, false).unwrap_err();
    assert_eq!(
        e.message(),
        "manifest error: Engram 0.1.0-test is older than the manifest's minimum 0.2.0"
    );
    assert!(is_too_old("0.9.9", "0.10.0") && !is_too_old("0.10.0", "0.9.9"));
    assert!(!is_too_old("1.0.0-rc1", "1.0.0") && !is_too_old("dev", "1.0.0"));
}

#[test]
fn file_names_carry_versions() {
    assert_eq!(version_of_file("0001_init.sql"), Some(1));
    assert_eq!(version_of_file("42.sql"), Some(42));
    assert_eq!(version_of_file("x_1.sql"), None);
    assert_eq!(version_of_file("0001_init.txt"), None);
    assert_eq!(version_of_file("99999999999_x.sql"), None);
}

#[test]
fn markers_count_in_comments_at_the_top_only() {
    assert!(!contains_breaking_marker("DEFINE TABLE x; -- BREAKING: no"));
    assert!(contains_breaking_marker("\n-- a\r\n--   Breaking: yes\r\n"));
    assert!(!contains_breaking_marker(""));
    assert!(contains_breaking_marker("\u{3000}\t-- BREAKING: indented"));
    assert!(!contains_breaking_marker("\u{200b}-- BREAKING: behind a character without width"));
}

#[test]
fn a_manifest_of_the_files_agrees_with_them() {
    let files =
        list_migration_files("d", Some(vec![entry("0002_b.sql"), entry("0001_a.sql")])).unwrap();
    let m = manifest_of_files(&files);
    assert_eq!(m.version, 2);
    assert_eq!(m.applied_migrations[1].file, "0002_b.sql");
    let mut w = World::new(&[("0001_a.sql", ""), ("0002_b.sql", "")]);
    assert_eq!(w.migrate(&m, true).unwrap().current_version, 2);
}

#[test]
fn migrations_lie_beside_the_manifest() {
    let m = manifest(1, &[]);
    assert_eq!(m.migrations_dir("schema/manifest.toml"), "schema/migrations");
    assert_eq!(m.migrations_dir("manifest.toml"), "migrations");
    assert_eq!(m.migrations_dir("/manifest.toml"), "/migrations");
}

#[test]
fn a_missing_ledger_is_empty() {
    assert!(ledger_failure("The table 'engram_schema' does not exist").unwrap().is_empty());
    assert_eq!(ledger_failure("timeout").unwrap_err().message(), "surreal error: timeout");
    assert_eq!(schema_version_failure("does not exist").unwrap(), 0);
    assert_eq!(schema_version_failure("timeout").unwrap_err().message(), "surreal error: timeout");
    assert_eq!(schema_version_of(None), 0);
    assert_eq!(schema_version_of(Some(7)), 7);
}

#[test]
fn storage_errors_have_messages() {
    for (e, text) in [
        (Error::Manifest("m".to_string()), "manifest error: m"),
        (file_failure("p", "gone"), "migration file p: gone"),
        (Error::MigrationInvariant("m".to_string()), "migration invariant violated: m"),
        (Error::Surreal("m".to_string()), "surreal error: m"),
        (Error::LedgerMalformed("m".to_string()), "schema ledger is malformed: m"),
        (Error::Io("m".to_string()), "storage i/o: m"),
        (Error::Other("m".to_string()), "storage error: m"),
    ] {
        assert_eq!(e.message(), text);
    }
    let e = MigrationError::new(3, "0003_x.sql", 2, Error::Surreal("bad".to_string()));
    assert_eq!((e.version, e.statement_index), (3, 2));
    assert!(e.message().contains("0003_x.sql") && e.message().contains("bad"), "{}", e.message());
    assert!(e.into_error().message().contains("bad"));
    let w = MigrationWarning { version: 4, file: "f".to_string(), message: "careful".to_string() };
    assert!(w.line().contains("careful") && w.line().contains('4'), "{}", w.line());
}

#[test]
fn a_whole_run_reports_what_it_did() {
    let texts = ["DEFINE TABLE a;", "-- BREAKING: drops a\nREMOVE TABLE a;", "DEFINE TABLE c;"];
    let mut w =
        World::new(&[("0001_a.sql", texts[0]), ("0002_b.sql", texts[1]), ("0003_c.sql", texts[2])]);
    let m = manifest(3, &[(1, "0001_a.sql"), (2, "0002_b.sql"), (3, "0003_c.sql")]);
    w.ledger.push((1, "0001_a.sql".to_string(), sha256_of_text(texts[0])));
    let result = w.migrate(&m, false).expect("migrate");
    let applied: Vec<(u32, String)> =
        result.applied.iter().map(|a| (a.version, a.checksum.clone())).collect();
    assert_eq!(applied, vec![(2, sha256_of_text(texts[1])), (3, sha256_of_text(texts[2]))]);
    assert_eq!(result.warnings.iter().map(|x| x.version).collect::<Vec<_>>(), vec![2]);
    assert_eq!(w.logged, vec![2]);
    assert_eq!(result.skipped, vec![1]);
}
