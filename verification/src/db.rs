use vstd::prelude::*;
use vstd::utf8::{decode_utf8, decode_utf8_encode_utf8, encode_utf8, valid_utf8};
use r2d2::{Pool, PooledConnection};
use r2d2_sqlite::SqliteConnectionManager;
use rusqlite::{Connection, Row};
use std::path::Path;
use crate::migrations::{has_sql_extension, select_migration_files, sorted_by_bytes};

verus! {

#[verifier::external_type_specification]
#[verifier::external_body]
pub struct ExPoolError(r2d2::Error);

#[verifier::external_type_specification]
#[verifier::external_body]
pub struct ExSqliteConnectionManager(SqliteConnectionManager);

#[verifier::external_type_specification]
#[verifier::external_body]
pub struct ExConnection(Connection);

#[verifier::external_type_specification]
#[verifier::external_body]
pub struct ExSqliteError(rusqlite::Error);

#[verifier::external_type_specification]
#[verifier::external_body]
pub struct ExRow<'stmt>(Row<'stmt>);

#[verifier::external_type_specification]
#[verifier::external_body]
pub struct ExIoError(std::io::Error);

#[verifier::external_type_specification]
#[verifier::external_body]
pub struct ExPath(Path);

/// A pool of SQLite connections (an `r2d2::Pool` over a
/// `SqliteConnectionManager`). Its contents are not modelled.
#[verifier::external_body]
pub struct SqlitePool {
    pool: Pool<SqliteConnectionManager>,
}

/// How the pool opens its connections: a `SqliteConnectionManager`, and
/// whether it hands every new connection to `init_connection` first.
pub struct ConnectionManager {
    manager: SqliteConnectionManager,
    setup: Ghost<bool>,
}

/// The pool of SQLite connections shared by the app's commands, and whether
/// every connection it opens is first set up by `init_connection`.
pub struct DbPool {
    pool: SqlitePool,
    setup: Ghost<bool>,
}

/// A SQLite connection checked out of a `DbPool` (an
/// `r2d2::PooledConnection`); it goes back to the pool when dropped.
#[verifier::external_body]
pub struct PooledSqlite {
    conn: PooledConnection<SqliteConnectionManager>,
}

/// The value that a pragma is set to.
pub enum PragmaValue {
    Flag(bool),
    Text(Seq<char>),
}

/// One statement that the library handed to SQLite, with the outcome it got
/// back.
pub enum SqlRequest {
    /// `PRAGMA name = value`.
    Pragma { name: Seq<char>, value: PragmaValue, succeeded: bool },
    /// A batch of statements, run with `execute_batch`.
    Batch { sql: Seq<char>, succeeded: bool },
    /// One statement with text parameters, run with `execute`.
    Execute { sql: Seq<char>, params: Seq<Seq<char>>, succeeded: bool },
    /// A query with text parameters whose single row holds an integer:
    /// `Some` of it when the query succeeded.
    QueryInteger { sql: Seq<char>, params: Seq<Seq<char>>, answer: Option<i64> },
}

/// A connection checked out of a `DbPool`, with the statements that the
/// library has handed to it so far.
pub struct DbConnection {
    handle: PooledSqlite,
    log: Ghost<Seq<SqlRequest>>,
}

/// What can go wrong while opening the database or migrating it.
#[derive(Debug)]
pub enum DbError {
    /// Building the pool, or checking a connection out of it, failed.
    Pool(r2d2::Error),
    /// SQLite refused a statement.
    Sqlite(rusqlite::Error),
    /// A file or directory under the migrations directory could not be read.
    Io(std::path::PathBuf, std::io::Error),
}

/// Creates the table in which applied migrations are recorded.
pub const MIGRATIONS_TABLE_SQL: &'static str =
    "CREATE TABLE IF NOT EXISTS _migrations (
            name TEXT PRIMARY KEY,
            applied_at TEXT NOT NULL DEFAULT (datetime('now'))
        );";

/// Asks whether the migration named `?1` has been recorded.
pub const MIGRATION_APPLIED_SQL: &'static str =
    "SELECT EXISTS(SELECT 1 FROM _migrations WHERE name = ?1)";

/// Records the migration named `?1` as applied.
pub const RECORD_MIGRATION_SQL: &'static str = "INSERT INTO _migrations (name) VALUES (?1)";

/// The round-trip query that proves a connection works.
pub const PING_SQL: &'static str = "SELECT 1";

/// Calls `SqliteConnectionManager::file`: a manager for the database file at
/// `path`, which sets nothing up on its connections.
#[verifier::external_body]
fn manager_for_file(path: &Path) -> (m: ConnectionManager)
    ensures
        !m.sets_up_connections(),
{
    ConnectionManager { manager: SqliteConnectionManager::file(path), setup: Ghost(false) }
}

/// Calls `SqliteConnectionManager::with_init` with `init_connection`: the
/// manager then hands every connection it opens to `init_connection` before
/// the connection is used (r2d2_sqlite's `connect` calls the hook).
#[verifier::external_body]
fn manager_with_init(manager: ConnectionManager) -> (m: ConnectionManager)
    ensures
        m.sets_up_connections(),
{
    ConnectionManager {
        manager: manager.manager.with_init(|conn| init_connection(conn).0),
        setup: Ghost(true),
    }
}

/// Calls `r2d2::Pool::new`, which builds a pool with the default
/// configuration over `manager` and waits for its initial connections.
/// Claimed: the pool's connections are opened by that manager. Whether the
/// call succeeds depends on the file system and is left unsaid.
#[verifier::external_body]
fn new_pool(manager: ConnectionManager) -> (r: Result<DbPool, r2d2::Error>)
    ensures
        r matches Ok(p) ==> p.sets_up_connections() == manager.sets_up_connections(),
{
    let setup = manager.setup;
    Pool::new(manager.manager).map(|pool| DbPool { pool: SqlitePool { pool }, setup })
}

/// Calls `r2d2::Pool::get`, which checks a connection out of the pool.
/// Claimed: nothing has been sent on it by the library yet. Whether one is
/// available in time is left unsaid.
#[verifier::external_body]
fn checkout(pool: &DbPool) -> (r: Result<DbConnection, r2d2::Error>)
    ensures
        r matches Ok(c) ==> c.requests() == Seq::<SqlRequest>::empty(),
{
    pool.pool.pool.get().map(|conn| DbConnection { handle: PooledSqlite { conn }, log: Ghost(Seq::empty()) })
}

/// Calls `rusqlite::Connection::pragma_update` with a boolean value.
/// Claimed: the returned record names the pragma and the value sent, with
/// the outcome. What the database answers is left unsaid.
#[verifier::external_body]
fn pragma_update_flag(conn: &Connection, pragma: &str, value: bool) -> (r: (
    Result<(), rusqlite::Error>,
    Ghost<SqlRequest>,
))
    ensures
        r.1@ == (SqlRequest::Pragma {
            name: pragma@,
            value: PragmaValue::Flag(value),
            succeeded: r.0 is Ok,
        }),
{
    let r = conn.pragma_update(None, pragma, value);
    let sent = Ghost(SqlRequest::Pragma {
        name: pragma@,
        value: PragmaValue::Flag(value),
        succeeded: r is Ok,
    });
    (r, sent)
}

/// Calls `rusqlite::Connection::pragma_update` with a text value. Claimed:
/// the returned record names the pragma and the value sent, with the
/// outcome. What the database answers is left unsaid.
#[verifier::external_body]
fn pragma_update_text(conn: &Connection, pragma: &str, value: &str) -> (r: (
    Result<(), rusqlite::Error>,
    Ghost<SqlRequest>,
))
    ensures
        r.1@ == (SqlRequest::Pragma {
            name: pragma@,
            value: PragmaValue::Text(value@),
            succeeded: r.0 is Ok,
        }),
{
    let r = conn.pragma_update(None, pragma, value);
    let sent = Ghost(SqlRequest::Pragma {
        name: pragma@,
        value: PragmaValue::Text(value@),
        succeeded: r is Ok,
    });
    (r, sent)
}

/// Calls `rusqlite::Connection::execute_batch` with `sql`. Claimed: the
/// connection's record gains this batch, with its outcome. What the database
/// answers is left unsaid.
#[verifier::external_body]
fn execute_batch(conn: &mut DbConnection, sql: &str) -> (r: Result<(), rusqlite::Error>)
    ensures
        final(conn).requests() == old(conn).requests().push(
            SqlRequest::Batch { sql: sql@, succeeded: r is Ok },
        ),
{
    conn.handle.conn.execute_batch(sql)
}

/// Calls `rusqlite::Connection::execute` with `sql` and the text parameter
/// `param`. Claimed: the connection's record gains this statement, with its
/// outcome. What the database answers is left unsaid.
#[verifier::external_body]
fn execute(conn: &mut DbConnection, sql: &str, param: &str) -> (r: Result<
    usize,
    rusqlite::Error,
>)
    ensures
        final(conn).requests() == old(conn).requests().push(
            SqlRequest::Execute { sql: sql@, params: seq![param@], succeeded: r is Ok },
        ),
{
    conn.handle.conn.execute(sql, [param])
}

/// Calls `rusqlite::Row::get` for an integer column. What the row holds is
/// left unsaid.
#[verifier::external_body]
fn row_integer(row: &Row, index: usize) -> (r: Result<i64, rusqlite::Error>) {
    row.get::<usize, i64>(index)
}

/// The first column of a result row, as an integer.
fn first_column_integer(row: &Row) -> (r: Result<i64, rusqlite::Error>) {
    row_integer(row, 0)
}

/// Calls `rusqlite::Connection::query_row` with `sql` and the text
/// parameters `params`, reading the row with `first_column_integer`.
/// Claimed: the connection's record gains this query, with the integer it
/// answered or `None` on error. What the database answers is left unsaid.
#[verifier::external_body]
fn query_row_integer(conn: &mut DbConnection, sql: &str, params: &[&str]) -> (r: Result<
    i64,
    rusqlite::Error,
>)
    ensures
        final(conn).requests() == old(conn).requests().push(
            SqlRequest::QueryInteger {
                sql: sql@,
                params: params@.map_values(|p: &str| p@),
                answer: answer_of(r),
            },
        ),
{
    conn.handle.conn.query_row(
        sql,
        rusqlite::params_from_iter(params.iter()),
        |row| first_column_integer(row),
    )
}

/// Calls `std::str::from_utf8`. Claimed, as its documentation says: it
/// succeeds exactly on valid UTF-8, with the decoded text.
#[verifier::external_body]
fn text_from_utf8(bytes: &[u8]) -> (r: Option<String>)
    ensures
        r is Some <==> valid_utf8(bytes@),
        r matches Some(s) ==> s@ == decode_utf8(bytes@),
{
    match std::str::from_utf8(bytes) {
        Ok(text) => Some(text.to_owned()),
        Err(_) => None,
    }
}

/// The pragmas that set up a new connection, with their outcomes: foreign
/// keys on, then WAL journaling, the second only once the first succeeded.
/// `ok` is whether the setup as a whole succeeded.
pub open spec fn connection_setup_log(log: Seq<SqlRequest>, ok: bool) -> bool {
    let foreign_keys = |succeeded: bool|
        SqlRequest::Pragma { name: "foreign_keys"@, value: PragmaValue::Flag(true), succeeded };
    let journal = |succeeded: bool|
        SqlRequest::Pragma { name: "journal_mode"@, value: PragmaValue::Text("WAL"@), succeeded };
    ||| !ok && log == seq![foreign_keys(false)]
    ||| log == seq![foreign_keys(true), journal(ok)]
}

/// Sets up every new pooled connection: foreign keys on, WAL journaling.
/// Returns the outcome and the pragmas it sent.
pub fn init_connection(conn: &mut Connection) -> (r: (Result<(), rusqlite::Error>, Ghost<
    Seq<SqlRequest>,
>))
    ensures
        connection_setup_log(r.1@, r.0 is Ok),
{
    let (first, foreign_keys) = pragma_update_flag(conn, "foreign_keys", true);
    match first {
        Ok(()) => {},
        Err(e) => {
            let ghost sent = seq![foreign_keys@];
            let log: Ghost<Seq<SqlRequest>> = Ghost(sent);
            return (Err(e), log);
        },
    }
    let (second, journal) = pragma_update_text(conn, "journal_mode", "WAL");
    let ghost sent = seq![foreign_keys@, journal@];
    let log: Ghost<Seq<SqlRequest>> = Ghost(sent);
    (second, log)
}

impl ConnectionManager {
    /// Whether the manager hands every connection it opens to
    /// `init_connection` first.
    pub closed spec fn sets_up_connections(self) -> bool {
        self.setup@
    }
}

impl DbPool {
    /// Whether every connection of the pool was opened by a manager that
    /// hands it to `init_connection` first.
    pub closed spec fn sets_up_connections(self) -> bool {
        self.setup@
    }
}

/// Builds a pool of connections to the SQLite database at `db_path`, each
/// set up by `init_connection`. It fails only with `DbError::Pool`.
pub fn create_pool(db_path: &Path) -> (r: Result<DbPool, DbError>)
    ensures
        r matches Ok(pool) ==> pool.sets_up_connections(),
        r matches Err(e) ==> e is Pool,
{
    let manager = manager_with_init(manager_for_file(db_path));
    match new_pool(manager) {
        Ok(pool) => Ok(pool),
        Err(e) => Err(DbError::Pool(e)),
    }
}

/// Whether the answer to `PING_SQL` proves the connection works: the query
/// succeeded and returned 1.
pub fn ping_answer_ok(answer: &Result<i64, rusqlite::Error>) -> (r: bool)
    ensures
        r == (answer matches Ok(v) && v == 1),
{
    match answer {
        Ok(v) => *v == 1,
        Err(_) => false,
    }
}

/// The answer that a query's result gives: the integer, or `None` on error.
pub open spec fn answer_of(result: Result<i64, rusqlite::Error>) -> Option<i64> {
    match result {
        Ok(v) => Some(v),
        Err(_) => None,
    }
}

impl DbConnection {
    /// The statements handed to this connection so far, in order.
    pub closed spec fn requests(self) -> Seq<SqlRequest> {
        self.log@
    }

    /// Checks a connection out of `pool`; nothing has been sent to it yet.
    pub fn checkout(pool: &DbPool) -> (r: Result<DbConnection, r2d2::Error>)
        ensures
            r matches Ok(c) ==> c.requests() == Seq::<SqlRequest>::empty(),
    {
        checkout(pool)
    }

    /// Runs the statements `sql` with `execute_batch`.
    pub fn run_batch(&mut self, sql: &str) -> (r: Result<(), rusqlite::Error>)
        ensures
            final(self).requests() == old(self).requests().push(
                SqlRequest::Batch { sql: sql@, succeeded: r is Ok },
            ),
    {
        execute_batch(self, sql)
    }

    /// Runs the statement `sql` with the single text parameter `param`.
    pub fn run_execute(&mut self, sql: &str, param: &str) -> (r: Result<usize, rusqlite::Error>)
        ensures
            final(self).requests() == old(self).requests().push(
                SqlRequest::Execute { sql: sql@, params: seq![param@], succeeded: r is Ok },
            ),
    {
        execute(self, sql, param)
    }

    /// Runs the query `sql`, with no parameter or with the text parameter
    /// `param`, and reads the integer in its single row.
    pub fn query_integer(&mut self, sql: &str, param: Option<&str>) -> (r: Result<
        i64,
        rusqlite::Error,
    >)
        ensures
            final(self).requests() == old(self).requests().push(
                SqlRequest::QueryInteger {
                    sql: sql@,
                    params: match param {
                        Some(p) => seq![p@],
                        None => Seq::empty(),
                    },
                    answer: answer_of(r),
                },
            ),
    {
        match param {
            Some(p) => {
                let params = [p];
                let r = query_row_integer(self, sql, &params);
                assert(params@.map_values(|q: &str| q@) =~= seq![p@]);
                r
            },
            None => {
                let params: [&str; 0] = [];
                let r = query_row_integer(self, sql, &params);
                assert(params@.map_values(|q: &str| q@) =~= Seq::<Seq<char>>::empty());
                r
            },
        }
    }

    /// Sends `PING_SQL` and tells whether it answered 1.
    pub fn ping(&mut self) -> (r: bool)
        ensures
            final(self).requests().len() == old(self).requests().len() + 1,
            final(self).requests().drop_last() == old(self).requests(),
            final(self).requests().last() matches SqlRequest::QueryInteger { sql, params, answer }
                && sql == PING_SQL@ && params.len() == 0 && r == (answer == Some(1i64)),
    {
        let answer = self.query_integer(PING_SQL, None);
        ping_answer_ok(&answer)
    }
}

/// What a connection check sent, and whether it passed: either no connection
/// could be checked out, nothing was sent and the check fails; or `PING_SQL`
/// was sent with no parameter on a checked-out connection, and the check
/// passes exactly when it answered 1.
pub open spec fn connection_check_log(log: Seq<SqlRequest>, ok: bool) -> bool {
    ||| log.len() == 0 && !ok
    ||| exists|answer: Option<i64>|
        log == seq![SqlRequest::QueryInteger { sql: PING_SQL@, params: Seq::empty(), answer }]
            && ok == (answer == Some(1i64))
}

/// Returns `true` if a pooled connection can be checked out and `PING_SQL`
/// answers 1 on it, with what was sent on that connection.
pub fn check_db_connection(pool: &DbPool) -> (r: (bool, Ghost<Seq<SqlRequest>>))
    ensures
        connection_check_log(r.1@, r.0),
{
    let mut conn = match DbConnection::checkout(pool) {
        Ok(conn) => conn,
        Err(_) => {
            let sent: Ghost<Seq<SqlRequest>> = Ghost(Seq::empty());
            return (false, sent);
        },
    };
    let ok = conn.ping();
    let ghost log = conn.requests();
    proof {
        assert(log =~= seq![log.last()]);
        match log.last() {
            SqlRequest::QueryInteger { sql, params, answer } => {
                assert(params =~= Seq::<Seq<char>>::empty());
                assert(log =~= seq![
                    SqlRequest::QueryInteger { sql: PING_SQL@, params: Seq::empty(), answer },
                ]);
            },
            _ => {},
        }
    }
    let sent: Ghost<Seq<SqlRequest>> = Ghost(log);
    (ok, sent)
}

/// Reads the answer to `MIGRATION_APPLIED_SQL`: whether the migration is
/// recorded (a nonzero integer, as `rusqlite` reads an integer column as a
/// `bool`), or the database's error.
pub fn recorded_from_answer(answer: Result<i64, rusqlite::Error>) -> (r: Result<bool, DbError>)
    ensures
        match answer {
            Ok(v) => r == Ok::<bool, DbError>(v != 0),
            Err(e) => r == Err::<bool, DbError>(DbError::Sqlite(e)),
        },
{
    match answer {
        Ok(v) => Ok(v != 0),
        Err(e) => Err(DbError::Sqlite(e)),
    }
}

/// The directory of migration files, `migrations` under `base`, joined as
/// `Path::join` does on Unix: with a `/` in between unless `base` is empty or
/// already ends in one.
pub open spec fn spec_migrations_dir(base: Seq<char>) -> Seq<char> {
    if base.len() == 0 || base.last() == '/' {
        base + "migrations"@
    } else {
        base + "/migrations"@
    }
}

/// `migrations` is joined onto `base` as `Path::join` does on Unix, whatever
/// the length of `base`: with a `/` in between exactly when `base` is
/// nonempty and does not end in `/`; so a trailing `/` on `base` changes
/// nothing, and the result is always `base`, an optional `/`, and
/// `migrations`.
pub proof fn lemma_migrations_dir_joins(base: Seq<char>)
    ensures
        base.len() > 0 && base.last() != '/' ==> spec_migrations_dir(base) == base
            + "/migrations"@,
        base.len() == 0 ==> spec_migrations_dir(base) == "migrations"@,
        base.len() > 0 && base.last() == '/' ==> spec_migrations_dir(base) == base
            + "migrations"@,
        base.len() > 0 && base.last() != '/' ==> spec_migrations_dir(base.push('/'))
            == spec_migrations_dir(base),
        spec_migrations_dir(base).take(base.len() as int) == base,
        spec_migrations_dir(base).skip(spec_migrations_dir(base).len() - 10) == "migrations"@,
{
    reveal_strlit("migrations");
    reveal_strlit("/migrations");
    if base.len() > 0 && base.last() != '/' {
        assert(base.push('/').last() == '/');
        assert(base.push('/') + "migrations"@ =~= base + "/migrations"@);
    }
    let d = spec_migrations_dir(base);
    assert(d.take(base.len() as int) =~= base);
    assert(d.skip(d.len() - 10) =~= "migrations"@);
}

/// The directory of versioned `.sql` migration files under the project
/// directory `base`.
pub fn migrations_dir(base: &str) -> (dir: String)
    ensures
        dir@ == spec_migrations_dir(base@),
{
    let n = base.unicode_len();
    let needs_separator = n > 0 && base.get_char(n - 1) != '/';
    let dir = base.to_owned();
    if needs_separator {
        dir.concat("/migrations")
    } else {
        dir.concat("migrations")
    }
}

/// The name under which a migration file is recorded: the file name as text,
/// or empty when it is not valid UTF-8.
pub open spec fn spec_migration_name(file: Seq<u8>) -> Seq<char> {
    if valid_utf8(file) {
        decode_utf8(file)
    } else {
        Seq::empty()
    }
}

/// A migration file is recorded under exactly its own name: when the file
/// name is valid UTF-8, the recorded name encodes back to the file name's
/// bytes, whatever its length; otherwise the name is empty.
pub proof fn lemma_migration_name_encodes_file_name(file: Seq<u8>)
    ensures
        valid_utf8(file) ==> encode_utf8(spec_migration_name(file)) == file,
        !valid_utf8(file) ==> spec_migration_name(file).len() == 0,
{
    if valid_utf8(file) {
        decode_utf8_encode_utf8(file);
    }
}

/// The name under which the migration file `file` is recorded.
pub fn migration_name(file: &[u8]) -> (name: String)
    ensures
        name@ == spec_migration_name(file@),
{
    match text_from_utf8(file) {
        Some(name) => name,
        None => String::new(),
    }
}


/// What became of one migration file in a session.
pub enum FileOutcome {
    /// The database answered that it is recorded as applied (`answer` is
    /// nonzero), so it was skipped.
    Skipped { answer: i64 },
    /// The database answered that it is not recorded: its SQL `sql` was run
    /// and its name recorded.
    Applied { sql: Seq<char> },
}

/// The statement that creates the bookkeeping table, as it succeeded.
pub open spec fn create_table_request() -> SqlRequest {
    SqlRequest::Batch { sql: MIGRATIONS_TABLE_SQL@, succeeded: true }
}

/// The query whether `file` is recorded, with the answer it got.
pub open spec fn applied_query(file: Seq<u8>, answer: Option<i64>) -> SqlRequest {
    SqlRequest::QueryInteger {
        sql: MIGRATION_APPLIED_SQL@,
        params: seq![spec_migration_name(file)],
        answer,
    }
}

/// The statement that records `file` as applied, with its outcome.
pub open spec fn record_request(file: Seq<u8>, succeeded: bool) -> SqlRequest {
    SqlRequest::Execute {
        sql: RECORD_MIGRATION_SQL@,
        params: seq![spec_migration_name(file)],
        succeeded,
    }
}

/// What the session sends for `file` when its outcome is `outcome`: the
/// query whether it is recorded; when it is not, its SQL and then its record.
pub open spec fn outcome_log(file: Seq<u8>, outcome: FileOutcome) -> Seq<SqlRequest> {
    match outcome {
        FileOutcome::Skipped { answer } => seq![applied_query(file, Some(answer))],
        FileOutcome::Applied { sql } => seq![
            applied_query(file, Some(0)),
            SqlRequest::Batch { sql, succeeded: true },
            record_request(file, true),
        ],
    }
}

/// What the session sends for the files `files[from..]` whose outcomes are
/// `outcomes`, one file after the other.
pub open spec fn outcomes_log(files: Seq<Seq<u8>>, from: int, outcomes: Seq<FileOutcome>) -> Seq<
    SqlRequest,
>
    decreases outcomes.len(),
{
    if outcomes.len() == 0 {
        Seq::empty()
    } else {
        outcomes_log(files, from, outcomes.drop_last()) + outcome_log(
            files[from + outcomes.len() - 1],
            outcomes.last(),
        )
    }
}

/// Whether `outcome` is a skip on a nonzero answer.
pub open spec fn is_skip(outcome: FileOutcome) -> bool {
    match outcome {
        FileOutcome::Skipped { answer } => answer != 0,
        FileOutcome::Applied { .. } => false,
    }
}

/// Whether every outcome of `outcomes` is a skip on a nonzero answer.
pub open spec fn all_skipped(outcomes: Seq<FileOutcome>) -> bool {
    forall|i: int| 0 <= i < outcomes.len() ==> is_skip(#[trigger] outcomes[i])
}

/// Whether `request` asks whether `file` is recorded and got a nonzero
/// answer.
pub open spec fn is_recorded_answer_for(request: SqlRequest, file: Seq<u8>) -> bool {
    match request {
        SqlRequest::QueryInteger { sql, params, answer } => sql == MIGRATION_APPLIED_SQL@
            && params == seq![spec_migration_name(file)] && match answer {
            Some(v) => v != 0,
            None => false,
        },
        _ => false,
    }
}

/// Whether an outcome is consistent with the answer it rests on.
pub open spec fn valid_outcome(outcome: FileOutcome) -> bool {
    outcome matches FileOutcome::Skipped { answer } ==> answer != 0
}

/// Everything a session sends when it runs as it should: the bookkeeping
/// table's creation, then for each considered file in order the query
/// whether it is recorded and, when it is not, its SQL and its record; and,
/// for the file handed out and not yet applied, its query.
pub open spec fn protocol_log(
    files: Seq<Seq<u8>>,
    outcomes: Seq<FileOutcome>,
    current: Option<nat>,
) -> Seq<SqlRequest> {
    seq![create_table_request()] + outcomes_log(files, 0, outcomes) + match current {
        Some(k) => seq![applied_query(files[k as int], Some(0))],
        None => Seq::empty(),
    }
}

/// The log of consecutive outcomes is the log of the first ones followed by
/// the log of the rest.
pub proof fn lemma_outcomes_log_append(
    files: Seq<Seq<u8>>,
    from: int,
    first: Seq<FileOutcome>,
    rest: Seq<FileOutcome>,
)
    ensures
        outcomes_log(files, from, first + rest) == outcomes_log(files, from, first)
            + outcomes_log(files, from + first.len(), rest),
    decreases rest.len(),
{
    if rest.len() == 0 {
        assert(first + rest =~= first);
        assert(outcomes_log(files, from, first) + Seq::<SqlRequest>::empty() =~= outcomes_log(
            files,
            from,
            first,
        ));
    } else {
        assert((first + rest).drop_last() =~= first + rest.drop_last());
        lemma_outcomes_log_append(files, from, first, rest.drop_last());
        assert((first + rest).last() == rest.last());
        assert(outcomes_log(files, from, first) + outcomes_log(
            files,
            from + first.len(),
            rest.drop_last(),
        ) + outcome_log(files[from + first.len() + rest.len() - 1], rest.last()) =~= outcomes_log(
            files,
            from,
            first,
        ) + outcomes_log(files, from + first.len(), rest));
    }
}

/// A run over files that are all recorded already sends nothing but the
/// queries: no migration SQL runs and no record is written, one query per
/// file, each under that file's name.
pub proof fn lemma_recorded_files_only_queried(
    files: Seq<Seq<u8>>,
    from: int,
    outcomes: Seq<FileOutcome>,
)
    requires
        all_skipped(outcomes),
    ensures
        outcomes_log(files, from, outcomes).len() == outcomes.len(),
        forall|j: int|
            0 <= j < outcomes.len() ==> is_recorded_answer_for(
                #[trigger] outcomes_log(files, from, outcomes)[j],
                files[from + j],
            ),
    decreases outcomes.len(),
{
    if outcomes.len() > 0 {
        let prev = outcomes.drop_last();
        assert forall|i: int| 0 <= i < prev.len() implies is_skip(#[trigger] prev[i]) by {
            assert(prev[i] == outcomes[i]);
        }
        lemma_recorded_files_only_queried(files, from, prev);
        assert(outcomes[outcomes.len() - 1] == outcomes.last());
        let log = outcomes_log(files, from, outcomes);
        assert forall|j: int| 0 <= j < outcomes.len() implies is_recorded_answer_for(
            #[trigger] log[j],
            files[from + j],
        ) by {
            if j < prev.len() {
                assert(log[j] == outcomes_log(files, from, prev)[j]);
            }
        }
    }
}

/// Applies the migration files of one directory, in order, over one pooled
/// connection. The files are read by the caller: the session names the next
/// file to read, and is handed its SQL to apply.
pub struct MigrationSession {
    conn: DbConnection,
    progress: SessionProgress,
}

/// How far a session has got through its files.
struct SessionProgress {
    files: Vec<Vec<u8>>,
    cursor: Cursor,
}

/// The position of a session in its files, with what became of the files
/// before it.
struct Cursor {
    next: usize,
    current: Option<usize>,
    outcomes: Ghost<Seq<FileOutcome>>,
}

impl SessionProgress {
    #[verifier::type_invariant]
    spec fn positions_in_range(self) -> bool {
        &&& self.cursor.next <= self.files.len()
        &&& self.cursor.current matches Some(k) ==> k + 1 == self.cursor.next
        &&& self.cursor.outcomes@.len() + (if self.cursor.current is Some {
            1int
        } else {
            0int
        }) == self.cursor.next
        &&& forall|i: int| 0 <= i < self.cursor.outcomes@.len() ==> valid_outcome(#[trigger] self.cursor.outcomes@[i])
    }
}

impl MigrationSession {

    /// The migration files of the session, in the order of application.
    pub closed spec fn files(self) -> Seq<Seq<u8>> {
        self.progress.files@.map_values(|f: Vec<u8>| f@)
    }

    /// The position of the first file not yet considered.
    pub closed spec fn next(self) -> nat {
        self.progress.cursor.next as nat
    }

    /// The position of the file that was handed out to be read and is not
    /// applied yet, if any.
    pub closed spec fn current(self) -> Option<nat> {
        match self.progress.cursor.current {
            Some(k) => Some(k as nat),
            None => None,
        }
    }

    /// What became of the files considered so far, in order.
    pub closed spec fn outcomes(self) -> Seq<FileOutcome> {
        self.progress.cursor.outcomes@
    }

    /// The statements handed to the session's connection so far.
    pub closed spec fn requests(self) -> Seq<SqlRequest> {
        self.conn.requests()
    }

    /// Whether everything sent so far is what a session that runs as it
    /// should sends.
    pub open spec fn followed_protocol(self) -> bool {
        self.requests() == protocol_log(self.files(), self.outcomes(), self.current())
    }

    /// Checks a connection out of `pool` and makes sure the table that
    /// records applied migrations exists.
    pub fn open(pool: &DbPool) -> (r: Result<Self, DbError>)
        ensures
            r matches Ok(s) ==> {
                &&& s.files().len() == 0
                &&& s.next() == 0
                &&& s.current() is None
                &&& s.outcomes().len() == 0
                &&& s.requests() == seq![create_table_request()]
                &&& s.followed_protocol()
            },
            r matches Err(e) ==> e is Pool || e is Sqlite,
    {
        let mut conn = match DbConnection::checkout(pool) {
            Ok(conn) => conn,
            Err(e) => return Err(DbError::Pool(e)),
        };
        match conn.run_batch(MIGRATIONS_TABLE_SQL) {
            Ok(()) => {},
            Err(e) => return Err(DbError::Sqlite(e)),
        }
        let outcomes: Ghost<Seq<FileOutcome>> = Ghost(Seq::empty());
        let progress = SessionProgress {
            files: Vec::new(),
            cursor: Cursor { next: 0, current: None, outcomes },
        };
        let s = MigrationSession { conn, progress };
        assert(s.files() =~= Seq::<Seq<u8>>::empty());
        assert(s.requests() =~= protocol_log(s.files(), s.outcomes(), s.current()));
        Ok(s)
    }

    /// Takes the entry names of the migrations directory: the files to apply
    /// are those with the extension `sql`, in ascending byte order.
    pub fn select_files(&mut self, entries: Vec<Vec<u8>>)
        ensures
            sorted_by_bytes(final(self).files()),
            final(self).files().to_multiset() == entries@.map_values(|f: Vec<u8>| f@).filter(
                |n: Seq<u8>| has_sql_extension(n),
            ).to_multiset(),
            final(self).next() == 0,
            final(self).current() is None,
            final(self).outcomes().len() == 0,
            final(self).requests() == old(self).requests(),
            old(self).requests() == seq![create_table_request()]
                ==> final(self).followed_protocol(),
    {
        proof {
            use_type_invariant(&self.progress);
        }
        let files = select_migration_files(entries);
        let outcomes: Ghost<Seq<FileOutcome>> = Ghost(Seq::empty());
        self.progress.cursor = Cursor { next: 0, current: None, outcomes };
        self.progress.files = files;
        assert(protocol_log(self.files(), self.outcomes(), self.current()) =~= seq![
            create_table_request(),
        ]);
    }

    /// Hands out the next file that the database does not record as applied,
    /// asking about each file in turn under its name and skipping those it
    /// records, or `None` when every file has been considered. While a
    /// handed-out file waits to be applied, it is handed out again.
    pub fn next_file_to_read(&mut self) -> (r: Result<Option<Vec<u8>>, DbError>)
        ensures
            final(self).files() == old(self).files(),
            old(self).current() matches Some(k) ==> {
                &&& final(self).next() == old(self).next()
                &&& final(self).current() == old(self).current()
                &&& final(self).outcomes() == old(self).outcomes()
                &&& final(self).requests() == old(self).requests()
                &&& r matches Ok(Some(f)) && f@ == old(self).files()[k as int]
            },
            old(self).current() is None ==> {
                let files = old(self).files();
                let skipped = final(self).outcomes().skip(old(self).outcomes().len() as int);
                let sent = old(self).requests() + outcomes_log(
                    files,
                    old(self).next() as int,
                    skipped,
                );
                &&& old(self).next() <= final(self).next() <= files.len()
                &&& final(self).outcomes().len() >= old(self).outcomes().len()
                &&& final(self).outcomes().take(old(self).outcomes().len() as int)
                    == old(self).outcomes()
                &&& all_skipped(skipped)
                &&& match r {
                    Ok(None) => {
                        &&& final(self).next() == files.len()
                        &&& final(self).outcomes().len() == files.len()
                        &&& final(self).current() is None
                        &&& final(self).requests() == sent
                    },
                    Ok(Some(f)) => {
                        &&& final(self).next() > old(self).next()
                        &&& final(self).current() == Some((final(self).next() - 1) as nat)
                        &&& f@ == files[final(self).next() - 1]
                        &&& final(self).requests() == sent + seq![
                            applied_query(files[final(self).next() - 1], Some(0)),
                        ]
                    },
                    Err(e) => {
                        &&& e is Sqlite
                        &&& final(self).current() is None
                        &&& final(self).next() < files.len()
                        &&& final(self).requests() == sent + seq![
                            applied_query(files[final(self).next() as int], None),
                        ]
                    },
                }
            },
            old(self).followed_protocol() && r is Ok ==> final(self).followed_protocol(),
    {
        proof {
            use_type_invariant(&self.progress);
        }
        if let Some(k) = self.progress.cursor.current {
            return Ok(Some(self.progress.files[k].clone()));
        }
        let ghost start_len = self.progress.cursor.outcomes@.len();
        assert(self.progress.cursor.outcomes@.skip(start_len as int) =~= Seq::<FileOutcome>::empty());
        assert(self.progress.cursor.outcomes@.take(start_len as int) =~= self.progress.cursor.outcomes@);
        assert(old(self).requests() + outcomes_log(
            old(self).files(),
            old(self).next() as int,
            Seq::<FileOutcome>::empty(),
        ) =~= old(self).requests());
        while self.progress.cursor.next < self.progress.files.len()
            invariant
                self.progress.files@.map_values(|f: Vec<u8>| f@) == old(self).files(),
                old(self).progress.cursor.next <= self.progress.cursor.next <= self.progress.files.len(),
                self.progress.cursor.current is None,
                old(self).progress.cursor.current is None,
                start_len == old(self).outcomes().len(),
                old(self).outcomes().len() == old(self).next(),
                self.progress.cursor.outcomes@.len() == self.progress.cursor.next,
                self.progress.cursor.outcomes@.len() >= start_len,
                self.progress.cursor.outcomes@.take(start_len as int) == old(self).outcomes(),
                all_skipped(self.progress.cursor.outcomes@.skip(start_len as int)),
                forall|i: int|
                    0 <= i < self.progress.cursor.outcomes@.len() ==> valid_outcome(#[trigger] self.progress.cursor.outcomes@[i]),
                self.conn.requests() == old(self).requests() + outcomes_log(
                    old(self).files(),
                    old(self).next() as int,
                    self.progress.cursor.outcomes@.skip(start_len as int),
                ),
            decreases self.progress.files.len() - self.progress.cursor.next,
        {
            let k = self.progress.cursor.next;
            let name = migration_name(self.progress.files[k].as_slice());
            assert(self.progress.files@[k as int]@ == old(self).files()[k as int]);
            let answer = self.conn.query_integer(MIGRATION_APPLIED_SQL, Some(name.as_str()));
            let ghost a = answer_of(answer);
            let recorded = match recorded_from_answer(answer) {
                Ok(recorded) => recorded,
                Err(e) => return Err(e),
            };
            let ghost prev_skipped = self.progress.cursor.outcomes@.skip(start_len as int);
            if !recorded {
                let outcomes = self.progress.cursor.outcomes;
                self.progress.cursor = Cursor { next: k + 1, current: Some(k), outcomes };
                proof {
                    assert(self.progress.cursor.outcomes@.skip(start_len as int) == prev_skipped);
                    assert(self.progress.cursor.outcomes@ =~= old(self).outcomes() + prev_skipped);
                    if old(self).followed_protocol() {
                        lemma_outcomes_log_append(
                            old(self).files(),
                            0,
                            old(self).outcomes(),
                            prev_skipped,
                        );
                        assert(protocol_log(
                            old(self).files(),
                            self.progress.cursor.outcomes@,
                            Some(k as nat),
                        ) =~= protocol_log(old(self).files(), old(self).outcomes(), None)
                            + outcomes_log(old(self).files(), old(self).next() as int, prev_skipped)
                            + seq![applied_query(old(self).files()[k as int], Some(0))]);
                        assert(old(self).current() is None);
                        assert(self.current() == Some(k as nat));
                        assert(self.files() == old(self).files());
                        assert(self.outcomes() == self.progress.cursor.outcomes@);
                        assert(self.requests() == old(self).requests() + outcomes_log(
                            old(self).files(),
                            old(self).next() as int,
                            prev_skipped,
                        ) + seq![applied_query(old(self).files()[k as int], Some(0))]);
                    }
                }
                return Ok(Some(self.progress.files[k].clone()));
            }
            let ghost outcome = FileOutcome::Skipped { answer: a->Some_0 };
            let ghost pushed = self.progress.cursor.outcomes@.push(outcome);
            let outcomes: Ghost<Seq<FileOutcome>> = Ghost(pushed);
            self.progress.cursor = Cursor { next: k + 1, current: None, outcomes };
            proof {
                assert(self.progress.cursor.outcomes@.skip(start_len as int) =~= prev_skipped.push(outcome));
                assert(self.progress.cursor.outcomes@.take(start_len as int) =~= old(self).outcomes()) by {
                    assert(self.progress.cursor.outcomes@.take(start_len as int) =~= self.progress.cursor.outcomes@.drop_last().take(
                        start_len as int,
                    ));
                }
                assert(prev_skipped.push(outcome).drop_last() =~= prev_skipped);
                assert(old(self).next() + prev_skipped.push(outcome).len() - 1 == k);
                assert forall|i: int|
                    0 <= i < self.progress.cursor.outcomes@.skip(start_len as int).len() implies is_skip(
                    #[trigger] self.progress.cursor.outcomes@.skip(start_len as int)[i],
                ) by {
                    if i < prev_skipped.len() {
                        assert(self.progress.cursor.outcomes@.skip(start_len as int)[i] == prev_skipped[i]);
                    }
                }
            }
        }
        proof {
            let skipped = self.progress.cursor.outcomes@.skip(start_len as int);
            assert(self.progress.cursor.outcomes@ =~= old(self).outcomes() + skipped);
            if old(self).followed_protocol() {
                lemma_outcomes_log_append(old(self).files(), 0, old(self).outcomes(), skipped);
                assert(protocol_log(old(self).files(), self.progress.cursor.outcomes@, None) =~= protocol_log(
                    old(self).files(),
                    old(self).outcomes(),
                    None,
                ) + outcomes_log(old(self).files(), old(self).next() as int, skipped));
            }
        }
        Ok(None)
    }

    /// Applies `sql` as the handed-out file and records it under its name;
    /// with no file handed out, does nothing.
    pub fn apply_current(&mut self, sql: &str) -> (r: Result<(), DbError>)
        ensures
            final(self).files() == old(self).files(),
            final(self).next() == old(self).next(),
            old(self).current() is None ==> {
                &&& r is Ok
                &&& final(self).current() is None
                &&& final(self).outcomes() == old(self).outcomes()
                &&& final(self).requests() == old(self).requests()
            },
            old(self).current() matches Some(k) ==> {
                let file = old(self).files()[k as int];
                match r {
                    Ok(()) => {
                        &&& final(self).current() is None
                        &&& final(self).outcomes() == old(self).outcomes().push(
                            FileOutcome::Applied { sql: sql@ },
                        )
                        &&& final(self).requests() == old(self).requests() + seq![
                            SqlRequest::Batch { sql: sql@, succeeded: true },
                            record_request(file, true),
                        ]
                    },
                    Err(e) => {
                        &&& e is Sqlite
                        &&& final(self).current() == old(self).current()
                        &&& final(self).outcomes() == old(self).outcomes()
                        &&& (final(self).requests() == old(self).requests().push(
                            SqlRequest::Batch { sql: sql@, succeeded: false },
                        ) || final(self).requests() == old(self).requests() + seq![
                            SqlRequest::Batch { sql: sql@, succeeded: true },
                            record_request(file, false),
                        ])
                    },
                }
            },
            old(self).followed_protocol() && r is Ok ==> final(self).followed_protocol(),
    {
        proof {
            use_type_invariant(&self.progress);
        }
        let k = match self.progress.cursor.current {
            Some(k) => k,
            None => return Ok(()),
        };
        match self.conn.run_batch(sql) {
            Ok(()) => {},
            Err(e) => return Err(DbError::Sqlite(e)),
        }
        let name = migration_name(self.progress.files[k].as_slice());
        assert(self.progress.files@[k as int]@ == old(self).files()[k as int]);
        match self.conn.run_execute(RECORD_MIGRATION_SQL, name.as_str()) {
            Ok(_) => {},
            Err(e) => {
                assert(self.conn.requests() =~= old(self).requests() + seq![
                    SqlRequest::Batch { sql: sql@, succeeded: true },
                    record_request(old(self).files()[k as int], false),
                ]);
                return Err(DbError::Sqlite(e));
            },
        }
        let ghost outcome = FileOutcome::Applied { sql: sql@ };
        let ghost pushed = self.progress.cursor.outcomes@.push(outcome);
        let outcomes: Ghost<Seq<FileOutcome>> = Ghost(pushed);
        self.progress.cursor = Cursor { next: self.progress.cursor.next, current: None, outcomes };
        proof {
            let files = old(self).files();
            let os = old(self).outcomes();
            assert(self.conn.requests() =~= old(self).requests() + seq![
                SqlRequest::Batch { sql: sql@, succeeded: true },
                record_request(files[k as int], true),
            ]);
            if old(self).followed_protocol() {
                assert(os.push(outcome).drop_last() =~= os);
                assert(os.len() == k);
                assert(protocol_log(files, os.push(outcome), None) =~= protocol_log(
                    files,
                    os,
                    Some(k as nat),
                ) + seq![
                    SqlRequest::Batch { sql: sql@, succeeded: true },
                    record_request(files[k as int], true),
                ]);
            }
        }
        Ok(())
    }
}

} // verus!
