use std::path::Path;
use taurigo::db::{
    check_db_connection, create_pool, init_connection, migration_name, migrations_dir,
    ping_answer_ok, recorded_from_answer, DbConnection, DbError, DbPool,
    MigrationSession, MIGRATION_APPLIED_SQL,
};

/// Drives a migration session over `entries`, reading each handed-out file
/// from `files`; returns the names handed out.
fn migrate(pool: &DbPool, entries: Vec<Vec<u8>>, files: &[(&str, &str)]) -> Vec<String> {
    let mut session = match MigrationSession::open(pool) {
        Ok(session) => session,
        Err(_) => panic!("the session should open"),
    };
    session.select_files(entries);
    let mut handed_out = Vec::new();
    loop {
        match session.next_file_to_read() {
            Ok(Some(file)) => {
                let name = String::from_utf8(file).expect("test names are UTF-8");
                let sql = files
                    .iter()
                    .find(|(n, _)| *n == name)
                    .map(|(_, sql)| *sql)
                    .expect("every handed-out file exists");
                assert!(session.apply_current(sql).is_ok());
                handed_out.push(name);
            }
            Ok(None) => break,
            Err(_) => panic!("migrations should not fail here"),
        }
    }
    handed_out
}

#[test]
fn run_migrations_is_idempotent_against_an_empty_migrations_dir() {
    let pool = create_pool(Path::new(":memory:")).ok().expect("pool should build");
    assert!(migrate(&pool, Vec::new(), &[]).is_empty(), "first run should succeed");
    assert!(
        migrate(&pool, Vec::new(), &[]).is_empty(),
        "second run should be a no-op, not an error"
    );
}

#[test]
fn check_db_connection_succeeds_against_an_in_memory_pool() {
    let pool = create_pool(Path::new(":memory:")).ok().expect("pool should build");
    assert!(check_db_connection(&pool).0);
}

#[test]
fn migrations_apply_sql_files_in_name_order_once() {
    let pool = create_pool(Path::new(":memory:")).ok().expect("pool should build");
    let files = [
        ("002_items.sql", "CREATE TABLE items (id INTEGER PRIMARY KEY, owner INTEGER);"),
        ("001_owners.sql", "CREATE TABLE owners (id INTEGER PRIMARY KEY);"),
        ("README.md", "not sql"),
        (".sql", "not a migration"),
    ];
    let entries: Vec<Vec<u8>> = files.iter().map(|(n, _)| n.as_bytes().to_vec()).collect();
    assert_eq!(
        migrate(&pool, entries.clone(), &files),
        vec!["001_owners.sql".to_string(), "002_items.sql".to_string()]
    );
    assert!(migrate(&pool, entries, &files).is_empty());
}

#[test]
fn migration_session_reports_a_failing_migration() {
    let pool = create_pool(Path::new(":memory:")).ok().expect("pool should build");
    let mut session = match MigrationSession::open(&pool) {
        Ok(session) => session,
        Err(_) => panic!("the session should open"),
    };
    session.select_files(vec![b"001_bad.sql".to_vec()]);
    let file = match session.next_file_to_read() {
        Ok(Some(file)) => file,
        _ => panic!("the file should be handed out"),
    };
    assert_eq!(file, b"001_bad.sql".to_vec());
    assert!(matches!(session.apply_current("THIS IS NOT SQL"), Err(DbError::Sqlite(_))));
    match session.next_file_to_read() {
        Ok(Some(again)) => assert_eq!(again, b"001_bad.sql".to_vec()),
        _ => panic!("the file waits to be applied"),
    }
}

#[test]
fn apply_without_a_handed_out_file_does_nothing() {
    let pool = create_pool(Path::new(":memory:")).ok().expect("pool should build");
    let mut session = match MigrationSession::open(&pool) {
        Ok(session) => session,
        Err(_) => panic!("the session should open"),
    };
    assert!(session.apply_current("THIS IS NOT SQL").is_ok());
    assert!(matches!(session.next_file_to_read(), Ok(None)));
}

#[test]
fn migrations_dir_joins_like_path_join() {
    assert_eq!(migrations_dir("/app"), "/app/migrations");
    assert_eq!(migrations_dir("/app/"), "/app/migrations");
    assert_eq!(migrations_dir(""), "migrations");
    assert_eq!(
        migrations_dir("/app"),
        std::path::Path::new("/app").join("migrations").to_str().unwrap()
    );
}

#[test]
fn migration_name_is_the_utf8_file_name_or_empty() {
    assert_eq!(migration_name(b"001_init.sql"), "001_init.sql");
    assert_eq!(migration_name("é.sql".as_bytes()), "é.sql");
    assert_eq!(migration_name(b"\xff.sql"), "");
}

#[test]
fn recorded_from_answer_reads_the_exists_flag() {
    assert!(matches!(recorded_from_answer(Ok(1)), Ok(true)));
    assert!(matches!(recorded_from_answer(Ok(0)), Ok(false)));
    assert!(matches!(recorded_from_answer(Ok(-3)), Ok(true)));
    assert!(matches!(
        recorded_from_answer(Err(rusqlite::Error::QueryReturnedNoRows)),
        Err(DbError::Sqlite(_))
    ));
}

#[test]
fn ping_answer_ok_needs_exactly_one() {
    assert!(ping_answer_ok(&Ok(1)));
    assert!(!ping_answer_ok(&Ok(0)));
    assert!(!ping_answer_ok(&Ok(2)));
    assert!(!ping_answer_ok(&Err(rusqlite::Error::QueryReturnedNoRows)));
}

#[test]
fn pooled_connections_have_foreign_keys_on() {
    let pool = create_pool(Path::new(":memory:")).ok().expect("pool should build");
    let mut conn = match DbConnection::checkout(&pool) {
        Ok(conn) => conn,
        Err(_) => panic!("a connection should be available"),
    };
    assert!(matches!(conn.query_integer("PRAGMA foreign_keys", None), Ok(1)));
    assert!(conn.ping());
}

#[test]
fn init_connection_sets_the_pragmas() {
    let mut conn = rusqlite::Connection::open_in_memory().expect("in-memory database");
    let (result, _) = init_connection(&mut conn);
    assert!(result.is_ok());
    let foreign_keys: i64 = conn.query_row("PRAGMA foreign_keys", [], |row| row.get(0)).unwrap();
    assert_eq!(foreign_keys, 1);
}

#[test]
fn migration_queries_take_the_file_name() {
    let pool = create_pool(Path::new(":memory:")).ok().expect("pool should build");
    let mut conn = match DbConnection::checkout(&pool) {
        Ok(conn) => conn,
        Err(_) => panic!("a connection should be available"),
    };
    assert!(conn.run_batch("CREATE TABLE IF NOT EXISTS _migrations (name TEXT PRIMARY KEY);").is_ok());
    assert!(matches!(conn.query_integer(MIGRATION_APPLIED_SQL, Some("a.sql")), Ok(0)));
    assert!(matches!(
        conn.run_execute("INSERT INTO _migrations (name) VALUES (?1)", "a.sql"),
        Ok(1)
    ));
    assert!(matches!(conn.query_integer(MIGRATION_APPLIED_SQL, Some("a.sql")), Ok(1)));
    assert!(conn.run_batch("NOT SQL").is_err());
}
