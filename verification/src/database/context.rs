use vstd::prelude::*;

use crate::database::connection::{ConnectionPool, EntryView, Lease, PoolError};
use crate::database::migrations::{initial_tables, sqlite_migration_sql, update_db};
use crate::database::single_value::{get_statement, set_statement, Statement, GET_SQL, SET_SQL};

verus! {

/// The telemetry database file.
pub const TLM_DB: &'static str = "tlm.db";
/// Table of raw (level 0) packets.
pub const TLM_LEVEL_0_TABLE: &'static str = "level_0";
/// Table of named single values.
pub const TLM_SINGLE_VALUE_TABLE: &'static str = "single_value";

/// The database file used by tests.
pub const TLM_TEST_DB: &'static str = "tlm_test.db";
pub const TLM_TEST_LEVEL_0_TABLE: &'static str = "level_0";
pub const TLM_TEST_SINGLE_VALUE_TABLE: &'static str = "single_value";

/// Local cache, used while no upstream API connection is available.
pub const TLM_CACHE: &'static str = "tlm_cache.db";
pub const TLM_CACHE_LEVEL_0_TABLE: &'static str = "level_0";
pub const TLM_CACHE_SINGLE_VALUE_TABLE: &'static str = "single_value";

/// In-memory database.
pub const MEM_DB: &'static str = ":memory:";

/// Which of the server's databases a connection serves.
#[derive(Debug, Clone, Copy, PartialEq, Eq, Structural)]
pub enum DbType {
    Tlm,
    TlmTest,
    TlmCache,
    Memory,
    Other,
}

/// The kind of database that lives at `path`.
pub open spec fn db_type_of(path: Seq<char>) -> DbType {
    if path == TLM_DB@ {
        DbType::Tlm
    } else if path == TLM_TEST_DB@ {
        DbType::TlmTest
    } else if path == TLM_CACHE@ {
        DbType::TlmCache
    } else if path == MEM_DB@ {
        DbType::Memory
    } else {
        DbType::Other
    }
}

/// Classifies a database path.
pub fn db_type_for_path(path: &str) -> (t: DbType)
    ensures
        t == db_type_of(path@),
{
    let p = String::from_str(path);
    if p == String::from_str(TLM_DB) {
        DbType::Tlm
    } else if p == String::from_str(TLM_TEST_DB) {
        DbType::TlmTest
    } else if p == String::from_str(TLM_CACHE) {
        DbType::TlmCache
    } else if p == String::from_str(MEM_DB) {
        DbType::Memory
    } else {
        DbType::Other
    }
}


/// Most connections the context's pool holds.
pub const POOL_SIZE: usize = 10;
/// Milliseconds without use after which the context's pool refuses requests.
pub const POOL_TIMEOUT_MS: u64 = 30000;

/// Work for the caller to carry out on a database: on the connection the
/// lease names (opening the database at `path` first where the lease is
/// fresh), run the statement.
pub struct DbRequest {
    pub lease: Lease,
    pub path: String,
    pub statement: Statement,
}

/// The lease a request outcome carries, or its error.
pub open spec fn request_lease(r: Result<DbRequest, PoolError>) -> Result<Lease, PoolError> {
    match r {
        Ok(q) => Ok(q.lease),
        Err(e) => Err(e),
    }
}

/// The server's access to its databases.
pub struct DbContext {
    pub conn_pool: ConnectionPool,
}

impl DbContext {
    /// The context's pool is well formed (as every pool is).
    pub open spec fn wf(&self) -> bool {
        self.conn_pool.wf()
    }

    /// A context whose pool holds up to `POOL_SIZE` connections and times
    /// out after `POOL_TIMEOUT_MS` without use, created at time `now`.
    pub fn new_at(now: u64) -> (c: Self)
        ensures
            c.wf(),
            c.conn_pool@.max_size == POOL_SIZE,
            c.conn_pool@.timeout == POOL_TIMEOUT_MS,
            c.conn_pool@.last_used_time == now,
            c.conn_pool@.next_id == 0,
            c.conn_pool@.entries == Seq::<EntryView>::empty(),
            c.conn_pool@.dropped == Seq::<Seq<char>>::empty(),
    {
        DbContext { conn_pool: ConnectionPool::new_at(POOL_SIZE, POOL_TIMEOUT_MS, now) }
    }

    /// A context whose pool holds up to `POOL_SIZE` connections and times
    /// out after `POOL_TIMEOUT_MS` without use, created now.
    pub fn new() -> (c: Self)
        ensures
            c.wf(),
            c.conn_pool@.max_size == POOL_SIZE,
            c.conn_pool@.timeout == POOL_TIMEOUT_MS,
            c.conn_pool@.next_id == 0,
            c.conn_pool@.entries == Seq::<EntryView>::empty(),
            c.conn_pool@.dropped == Seq::<Seq<char>>::empty(),
    {
        DbContext { conn_pool: ConnectionPool::new(POOL_SIZE, POOL_TIMEOUT_MS) }
    }

    /// Running the schema migration on the leased connection to `path`.
    pub fn apply_migrations(lease: Lease, path: &str) -> (r: DbRequest)
        ensures
            r.lease == lease,
            r.path@ == path@,
            r.statement.sql@ == sqlite_migration_sql(initial_tables()),
            r.statement.params@.len() == 0,
    {
        let sql = update_db();
        DbRequest { lease, path: String::from_str(path), statement: Statement { sql, params: Vec::new() } }
    }

    /// Takes a connection to `path` from the pool and migrates it.
    fn init_db(&mut self, path: &str) -> (res: Result<DbRequest, PoolError>)
        ensures
            final(self).wf(),
            exists|now: u64|
                (request_lease(res), final(self).conn_pool@) == #[trigger] old(self).conn_pool@.lease_outcome(
                    path@,
                    now,
                ),
            res matches Ok(r) ==> {
                &&& r.path@ == path@
                &&& r.statement.sql@ == sqlite_migration_sql(initial_tables())
                &&& r.statement.params@.len() == 0
            },
    {
        match self.conn_pool.get_connection(path) {
            Ok(lease) => Ok(Self::apply_migrations(lease, path)),
            Err(e) => Err(e),
        }
    }

    /// Takes a connection to the telemetry database from the pool and
    /// migrates it to the current schema.
    pub fn init(&mut self) -> (res: Result<DbRequest, PoolError>)
        ensures
            final(self).wf(),
            exists|now: u64|
                (request_lease(res), final(self).conn_pool@) == #[trigger] old(self).conn_pool@.lease_outcome(
                    TLM_DB@,
                    now,
                ),
            res matches Ok(r) ==> {
                &&& r.path@ == TLM_DB@
                &&& r.statement.sql@ == sqlite_migration_sql(initial_tables())
                &&& r.statement.params@.len() == 0
            },
    {
        self.init_db(TLM_DB)
    }

    /// Takes a connection to the telemetry database from the pool and
    /// reads the value stored under `key`.
    pub fn get_single_value(&mut self, key: &str) -> (res: Result<DbRequest, PoolError>)
        ensures
            final(self).wf(),
            exists|now: u64|
                (request_lease(res), final(self).conn_pool@) == #[trigger] old(self).conn_pool@.lease_outcome(
                    TLM_DB@,
                    now,
                ),
            res matches Ok(r) ==> {
                &&& r.path@ == TLM_DB@
                &&& r.statement.sql@ == GET_SQL@
                &&& r.statement.params@.len() == 1
                &&& r.statement.params@[0]@ == key@
            },
    {
        match self.conn_pool.get_connection(TLM_DB) {
            Ok(lease) => Ok(DbRequest { lease, path: String::from_str(TLM_DB), statement: get_statement(key) }),
            Err(e) => Err(e),
        }
    }

    /// Takes a connection to the telemetry database from the pool and
    /// stores `value` under `key`.
    pub fn set_single_value(&mut self, key: &str, value: &str) -> (res: Result<DbRequest, PoolError>)
        ensures
            final(self).wf(),
            exists|now: u64|
                (request_lease(res), final(self).conn_pool@) == #[trigger] old(self).conn_pool@.lease_outcome(
                    TLM_DB@,
                    now,
                ),
            res matches Ok(r) ==> {
                &&& r.path@ == TLM_DB@
                &&& r.statement.sql@ == SET_SQL@
                &&& r.statement.params@.len() == 2
                &&& r.statement.params@[0]@ == key@
                &&& r.statement.params@[1]@ == value@
            },
    {
        match self.conn_pool.get_connection(TLM_DB) {
            Ok(lease) => Ok(
                DbRequest { lease, path: String::from_str(TLM_DB), statement: set_statement(key, value) },
            ),
            Err(e) => Err(e),
        }
    }
}

} // verus!
