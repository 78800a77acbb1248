use brom::migration::{plan_pending, rollback_step, AppliedMigration, RollbackStep, ScriptFile};
use brom::migration::pending_order;
use brom::digest::{sha256_hex, to_lower_hex};
use brom::error::DbError;
use brom::migration::{
    migration_action, migration_checksum, migration_file_name, parse_down_section,
    parse_migration_file_name, parse_up_section, rollback_sql,
};

const SCRIPT: &str = "-- UP\nCREATE TABLE logs (msg TEXT);\n-- DOWN\nDROP TABLE logs;";

#[test]
fn sections_of_a_script() {
    assert_eq!(parse_up_section(SCRIPT), "CREATE TABLE logs (msg TEXT);");
    assert_eq!(parse_down_section(SCRIPT), "DROP TABLE logs;");
}

#[test]
fn sections_in_either_order_and_indented() {
    let s = "  -- DOWN\nDROP TABLE t1;\n\t-- UP please\nCREATE TABLE t1 (id TEXT);\nINSERT INTO t1 VALUES ('a');";
    assert_eq!(parse_up_section(s), "CREATE TABLE t1 (id TEXT);\nINSERT INTO t1 VALUES ('a');");
    assert_eq!(parse_down_section(s), "DROP TABLE t1;");
}

#[test]
fn script_without_markers() {
    let s = "CREATE TABLE t (id TEXT);";
    assert_eq!(parse_up_section(s), s);
    assert_eq!(parse_down_section(s), "");
    // A script that names the marker only inside a line keeps all of it as forward SQL.
    let t = "SELECT '-- UP';";
    assert_eq!(parse_up_section(t), t);
}

#[test]
fn up_only_script_and_crlf_lines() {
    let s = "-- UP\r\nCREATE TABLE a (x TEXT);\r\nCREATE TABLE b (y TEXT);\r\n";
    assert_eq!(parse_up_section(s), "CREATE TABLE a (x TEXT);\nCREATE TABLE b (y TEXT);");
    assert_eq!(parse_down_section(s), "");
}

#[test]
fn migration_file_names() {
    let (v, n) = parse_migration_file_name("20240101_000000_init.sql").unwrap();
    assert_eq!(v, "20240101_000000_init");
    assert_eq!(n, "init");
    let (v, n) = parse_migration_file_name("20240102_000000_t2_more.sql").unwrap();
    assert_eq!(v, "20240102_000000_t2_more");
    assert_eq!(n, "t2_more");
    match parse_migration_file_name("init.txt") {
        Err(DbError::PoolError(m)) => assert_eq!(m, "invalid migration filename: init.txt"),
        other => panic!("unexpected {other:?}"),
    }
    match parse_migration_file_name("2024_000000_init.sql") {
        Err(DbError::PoolError(m)) => assert_eq!(
            m,
            "invalid migration filename format: 2024_000000_init.sql. Expected YYYYMMDD_HHMMSS_name.sql"
        ),
        other => panic!("unexpected {other:?}"),
    }
    assert!(parse_migration_file_name("20240101_00000a_init.sql").is_err());
    assert!(parse_migration_file_name("20240101_000000.sql").is_err());
    assert_eq!(migration_file_name("20240101_000000_init"), "20240101_000000_init.sql");
}

#[test]
fn checksums_are_sha256_hex() {
    assert_eq!(
        migration_checksum(""),
        "e3b0c44298fc1c149afbf4c8996fb92427ae41e4649b934ca495991b7852b855"
    );
    assert_eq!(
        sha256_hex("abc"),
        "ba7816bf8f01cfea414140de5dae2223b00361a396177a9cb410ff61f20015ad"
    );
    assert_eq!(migration_checksum(SCRIPT).len(), 64);
    assert_eq!(to_lower_hex(&[0x00, 0xab, 0x10]), "00ab10");
}

#[test]
fn migration_actions() {
    assert_eq!(migration_action("v1", None, "abc").unwrap(), true);
    assert_eq!(migration_action("v1", Some("abc"), "abc").unwrap(), false);
    match migration_action("v1", Some("old"), "new") {
        Err(DbError::MigrationError(m)) => {
            assert_eq!(m, "checksum mismatch for migration 'v1': expected old, got new")
        }
        other => panic!("unexpected {other:?}"),
    }
}

#[test]
fn rollback_needs_a_down_section() {
    assert_eq!(rollback_sql("20240101_000000_init", SCRIPT).unwrap(), "DROP TABLE logs;");
    match rollback_sql("20240101_000000_init", "-- UP\nCREATE TABLE x (a TEXT);\n-- DOWN\n   \n") {
        Err(DbError::PoolError(m)) => {
            assert_eq!(m, "no -- DOWN section found in migration 20240101_000000_init")
        }
        other => panic!("unexpected {other:?}"),
    }
}

#[test]
fn version_file_names_read_back() {
    for v in ["20240101_000000_init", "20991231_235959_a_b-c"] {
        let (version, _) = parse_migration_file_name(&migration_file_name(v)).unwrap();
        assert_eq!(version, v);
    }
    let (_, name) = parse_migration_file_name(&migration_file_name("20240101_000000_init")).unwrap();
    assert_eq!(name, "init");
}

#[test]
fn migrate_command_report() {
    assert_eq!(brom::migration::migrate_report(&vec![]), vec!["No pending migrations."]);
    assert_eq!(
        brom::migration::migrate_report(&vec!["20240101_000000_t1".to_string(), "20240102_000000_t2".to_string()]),
        vec!["Applied migration: 20240101_000000_t1", "Applied migration: 20240102_000000_t2"]
    );
}

#[test]
fn pending_scripts_in_name_order() {
    let names: Vec<String> = [
        "20240102_000000_t2.sql",
        "README.md",
        "20240101_000000_t1.sql",
        ".sql",
        "notes.sql.bak",
        "20231231_235959_z.sql",
    ]
    .iter()
    .map(|s| s.to_string())
    .collect();
    assert_eq!(
        pending_order(names),
        vec!["20231231_235959_z.sql", "20240101_000000_t1.sql", "20240102_000000_t2.sql"]
    );
}

fn script(name: &str, content: &str) -> ScriptFile {
    ScriptFile { file_name: name.to_string(), content: content.to_string() }
}

#[test]
fn planning_pending_migrations() {
    let files = vec![
        script("20240101_000000_t1.sql", "-- UP\nCREATE TABLE t1 (id TEXT);\n-- DOWN\nDROP TABLE t1;"),
        script("20240102_000000_t2.sql", "-- UP\nCREATE TABLE t2 (id TEXT);\n-- DOWN\nDROP TABLE t2;"),
    ];
    let plan = plan_pending(&files, vec![]).unwrap();
    let got: Vec<(&str, &str, &str)> =
        plan.iter().map(|p| (p.version.as_str(), p.name.as_str(), p.up_sql.as_str())).collect();
    assert_eq!(
        got,
        vec![
            ("20240101_000000_t1", "t1", "CREATE TABLE t1 (id TEXT);"),
            ("20240102_000000_t2", "t2", "CREATE TABLE t2 (id TEXT);"),
        ]
    );
    assert_eq!(plan[0].checksum, migration_checksum(&files[0].content));
    // Recording what was applied leaves nothing pending.
    let recorded: Vec<AppliedMigration> = plan
        .iter()
        .map(|p| AppliedMigration { version: p.version.clone(), checksum: p.checksum.clone() })
        .collect();
    assert!(plan_pending(&files, recorded).unwrap().is_empty());
    // A changed script is refused.
    let stale = vec![AppliedMigration {
        version: "20240101_000000_t1".into(),
        checksum: "old".into(),
    }];
    match plan_pending(&files, stale) {
        Err(DbError::MigrationError(m)) => assert!(m.starts_with(
            "checksum mismatch for migration '20240101_000000_t1': expected old, got "
        )),
        _ => panic!("expected a mismatch"),
    }
    match plan_pending(&vec![script("bad.sql", "")], vec![]) {
        Err(DbError::PoolError(m)) => assert_eq!(
            m,
            "invalid migration filename format: bad.sql. Expected YYYYMMDD_HHMMSS_name.sql"
        ),
        _ => panic!("expected a bad name"),
    }
}

#[test]
fn rollback_decisions() {
    assert!(matches!(rollback_step(None, None), Ok(RollbackStep::Nothing)));
    match rollback_step(Some("20240101_000000_init"), None) {
        Err(DbError::PoolError(m)) => {
            assert_eq!(m, "migration file not found for rollback: 20240101_000000_init.sql")
        }
        _ => panic!("expected a missing file"),
    }
    match rollback_step(Some("20240101_000000_init"), Some(SCRIPT)) {
        Ok(RollbackStep::Undo { version, down_sql }) => {
            assert_eq!((version.as_str(), down_sql.as_str()), ("20240101_000000_init", "DROP TABLE logs;"))
        }
        _ => panic!("expected an undo"),
    }
    assert!(rollback_step(Some("v"), Some("-- UP\nX;")).is_err());
}
