//! Database side of the server: the connection pool, the database context,
//! the schema migration and the single-value store.

pub mod connection;
pub mod context;
pub mod migrations;
pub mod single_value;

use vstd::prelude::*;

use context::{DbContext, DbRequest, TLM_DB};
use connection::PoolError;
use migrations::{initial_tables, sqlite_migration_sql};

verus! {

/// A new database context that has taken a connection to the telemetry
/// database and asks for it to be migrated to the current schema.
pub fn init() -> (r: (DbContext, Result<DbRequest, PoolError>))
    ensures
        r.0.wf(),
        r.0.conn_pool@.max_size == context::POOL_SIZE,
        r.0.conn_pool@.timeout == context::POOL_TIMEOUT_MS,
        r.1 matches Ok(q) ==> {
            &&& q.path@ == TLM_DB@
            &&& q.statement.sql@ == sqlite_migration_sql(initial_tables())
            &&& q.lease.fresh
            &&& q.lease.id == 0
            &&& r.0.conn_pool@.entries.len() == 1
        },
        r.1 matches Err(e) ==> e == PoolError::TimedOut && r.0.conn_pool@.entries.len() == 0,
{
    let mut db = DbContext::new();
    let res = db.init();
    (db, res)
}

} // verus!
