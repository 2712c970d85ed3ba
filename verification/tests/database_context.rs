use barrel::backend::Sqlite;
use barrel::{types, Migration};
use tlm_server::database;
use tlm_server::database::connection::PoolError;
use tlm_server::database::context::{db_type_for_path, DbContext, DbType, POOL_SIZE, POOL_TIMEOUT_MS, TLM_DB};
use tlm_server::database::migrations::{level_0_table, single_value_table, update_db, ColumnKind};
use tlm_server::database::single_value::{get_statement, lookup_result, set_statement, QueryError, GET_SQL, SET_SQL};

fn schema_sql_built_with_barrel() -> String {
    let mut m = Migration::new();
    m.create_table("level_0", |t| {
        t.add_column("id", types::integer().primary(true).increments(true).nullable(false));
        t.add_column("uuid", types::text().nullable(false).unique(true));
        t.add_column("createdate", types::integer().nullable(false));
        t.add_column("metadata", types::text().nullable(false));
        t.add_column("packet", types::binary().nullable(false));
    });
    m.create_table("single_value", |t| {
        t.add_column("name", types::text().nullable(false).unique(true));
        t.add_column("value", types::text().nullable(false));
    });
    m.make::<Sqlite>()
}

#[test]
fn update_db_renders_the_initial_schema() {
    let sql = update_db();
    assert_eq!(sql, schema_sql_built_with_barrel());
    assert!(sql.starts_with("CREATE TABLE \"level_0\" ("));
    assert!(sql.contains("CREATE TABLE \"single_value\" ("));
    assert!(sql.find("level_0").unwrap() < sql.find("single_value").unwrap());
}

#[test]
fn level_0_table_definition() {
    let t = level_0_table();
    assert_eq!(t.name, "level_0");
    let names: Vec<&str> = t.columns.iter().map(|c| c.name.as_str()).collect();
    assert_eq!(names, vec!["id", "uuid", "createdate", "metadata", "packet"]);
    let id = &t.columns[0];
    assert_eq!(id.kind, ColumnKind::Integer);
    assert!(id.primary && id.increments && !id.nullable && !id.unique);
    let uuid = &t.columns[1];
    assert_eq!(uuid.kind, ColumnKind::Text);
    assert!(!uuid.primary && !uuid.increments && !uuid.nullable && uuid.unique);
    assert_eq!(t.columns[4].kind, ColumnKind::Binary);
    assert!(t.columns.iter().all(|c| !c.nullable));
}

#[test]
fn single_value_table_definition() {
    let t = single_value_table();
    assert_eq!(t.name, "single_value");
    assert_eq!(t.columns.len(), 2);
    assert_eq!(t.columns[0].name, "name");
    assert!(t.columns[0].unique);
    assert_eq!(t.columns[1].name, "value");
    assert!(!t.columns[1].unique);
}

#[test]
fn statements_of_the_single_value_store() {
    let g = get_statement("answer");
    assert_eq!(g.sql, GET_SQL);
    assert_eq!(g.sql, "select value from singlevalue where key = ?1");
    assert_eq!(g.params, vec!["answer".to_string()]);
    let s = set_statement("answer", "42");
    assert_eq!(s.sql, SET_SQL);
    assert_eq!(s.params, vec!["answer".to_string(), "42".to_string()]);
}

#[test]
fn lookup_answers() {
    assert_eq!(lookup_result(Ok("v".to_string())), Ok(Some("v".to_string())));
    assert_eq!(lookup_result(Err(QueryError::NoRows)), Ok(None));
    assert_eq!(
        lookup_result(Err(QueryError::Other("disk I/O error".to_string()))),
        Err(QueryError::Other("disk I/O error".to_string()))
    );
}

#[test]
fn database_kinds_by_path() {
    assert_eq!(db_type_for_path("tlm.db"), DbType::Tlm);
    assert_eq!(db_type_for_path("tlm_test.db"), DbType::TlmTest);
    assert_eq!(db_type_for_path("tlm_cache.db"), DbType::TlmCache);
    assert_eq!(db_type_for_path(":memory:"), DbType::Memory);
    assert_eq!(db_type_for_path("./tlm.db"), DbType::Other);
}

#[test]
fn context_init_asks_for_the_migration() {
    let mut ctx = DbContext::new();
    assert_eq!(ctx.conn_pool.max_size(), POOL_SIZE);
    assert_eq!(ctx.conn_pool.timeout(), POOL_TIMEOUT_MS);
    let req = ctx.init().unwrap();
    assert_eq!(req.path, TLM_DB);
    assert!(req.lease.fresh);
    assert_eq!(req.lease.db_type, DbType::Tlm);
    assert_eq!(req.statement.sql, schema_sql_built_with_barrel());
    assert!(req.statement.params.is_empty());
}

#[test]
fn context_single_value_requests_reuse_the_connection() {
    let mut ctx = DbContext::new();
    let first = ctx.set_single_value("k", "v").unwrap();
    assert_eq!(first.path, "tlm.db");
    assert_eq!(first.statement.params, vec!["k".to_string(), "v".to_string()]);
    ctx.conn_pool.return_connection(first.lease.id).unwrap();
    let second = ctx.get_single_value("k").unwrap();
    assert_eq!(second.lease.id, first.lease.id);
    assert!(!second.lease.fresh);
    assert_eq!(second.statement.sql, GET_SQL);
}

#[test]
fn context_pool_exhausts_after_pool_size_requests() {
    let mut ctx = DbContext::new();
    for _ in 0..POOL_SIZE {
        assert!(ctx.get_single_value("k").is_ok());
    }
    assert_eq!(ctx.get_single_value("k").err(), Some(PoolError::Exhausted));
}

#[test]
fn database_init_opens_and_migrates_the_telemetry_db() {
    let (ctx, req) = database::init();
    let req = req.unwrap();
    assert_eq!(req.path, "tlm.db");
    assert!(req.lease.fresh);
    assert_eq!(req.statement.sql, update_db());
    assert_eq!(ctx.conn_pool.len(), 1);
}
