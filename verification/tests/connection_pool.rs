use tlm_server::database::connection::{ConnectionPool, ConnectionPoolError, PoolError, PopError};
use tlm_server::database::context::DbType;

#[test]
fn test_get_connection() {
    // Set up a connection pool with a maximum size of 3 and a timeout of 5 seconds
    let mut pool = ConnectionPool::new(3, 5000);

    // Try to get a connection from the pool
    let conn = pool.get_connection(":memory:");
    assert!(conn.is_ok());
    let conn = conn.unwrap();

    // Check that the connection is valid
    assert!(pool.contains(conn.id) && pool.is_in_use(conn.id));
}

#[test]
fn test_return_connection() {
    // Set up a connection pool with a maximum size of 3 and a timeout of 5 seconds
    let mut pool = ConnectionPool::new(3, 5000);

    // Get a connection from the pool
    let conn = pool.get_connection(":memory:").unwrap();

    // Return the connection to the pool
    assert!(pool.return_connection(conn.id).is_ok());
}

#[test]
fn test_drop_connection() {
    // Set up a connection pool with a maximum size of 3 and a timeout of 5 seconds
    let mut pool = ConnectionPool::new(3, 5000);

    // Get a connection from the pool
    let conn = pool.get_connection(":memory:").unwrap();

    // Drop the connection from the pool
    assert!(pool.drop_connection(conn.id).is_ok());

    // Try to get the connection again
    let conn = pool.get_connection(":memory:");
    assert!(conn.is_err());
}

#[test]
fn test_get_connection_when_queue_is_full() {
    // Create a new connection pool with a maximum size of 1
    let mut pool = ConnectionPool::new(1, 3600 * 1000);
    // Try to get a connection from the pool
    assert!(pool.get_connection(":memory:").is_ok());
    // Try to get another connection from the pool, should fail since the queue is full
    assert!(pool.get_connection(":memory:").is_err());
}

#[test]
fn test_get_connection_and_timeout() {
    // Create a new connection pool with a timeout of 100 milliseconds
    let start = 1_000_000u64;
    let mut pool = ConnectionPool::new_at(10, 100, start);
    // Try to get a connection from the pool
    assert!(pool.get_connection_at(":memory:", start).is_ok());
    // 200 milliseconds later, the timeout has been reached
    assert!(pool.get_connection_at(":memory:", start + 200).is_err());
}

#[test]
fn fresh_connection_is_opened_with_next_id() {
    let mut pool = ConnectionPool::new_at(3, 5000, 10);
    let a = pool.get_connection_at(":memory:", 20).unwrap();
    assert_eq!(a.id, 0);
    assert!(a.fresh);
    assert_eq!(a.db_type, DbType::Memory);
    assert_eq!(a.last_used_time, 20);
    let b = pool.get_connection_at("tlm.db", 30).unwrap();
    assert_eq!(b.id, 1);
    assert!(b.fresh);
    assert_eq!(b.db_type, DbType::Tlm);
    assert_eq!(pool.len(), 2);
    assert_eq!(pool.last_used_time(), 30);
}

#[test]
fn returned_connection_is_reused() {
    let mut pool = ConnectionPool::new_at(3, 5000, 0);
    let a = pool.get_connection_at(":memory:", 1).unwrap();
    assert_eq!(pool.return_connection(a.id), Ok(()));
    assert!(!pool.is_in_use(a.id));
    let b = pool.get_connection_at(":memory:", 2).unwrap();
    assert_eq!(b.id, a.id);
    assert!(!b.fresh);
    assert_eq!(b.last_used_time, 2);
    assert_eq!(pool.len(), 1);
}

#[test]
fn idle_connection_is_reused_for_any_database() {
    let mut pool = ConnectionPool::new_at(3, 5000, 0);
    let a = pool.get_connection_at("tlm.db", 1).unwrap();
    pool.return_connection(a.id).unwrap();
    let b = pool.get_connection_at(":memory:", 2).unwrap();
    assert_eq!(b.id, a.id);
    assert!(!b.fresh);
    assert_eq!(b.db_type, DbType::Tlm);
    assert_eq!(pool.len(), 1);
}

#[test]
fn full_pool_is_exhausted_until_a_connection_comes_back() {
    let mut pool = ConnectionPool::new_at(2, 5000, 0);
    let a = pool.get_connection_at(":memory:", 1).unwrap();
    let _b = pool.get_connection_at(":memory:", 2).unwrap();
    assert_eq!(pool.get_connection_at(":memory:", 3), Err(PoolError::Exhausted));
    pool.return_connection(a.id).unwrap();
    let c = pool.get_connection_at(":memory:", 4).unwrap();
    assert_eq!(c.id, a.id);
    assert_eq!(pool.len(), 2);
    assert_eq!(pool.max_size(), 2);
}

#[test]
fn pool_of_size_zero_hands_out_nothing() {
    let mut pool = ConnectionPool::new_at(0, 5000, 0);
    assert_eq!(pool.get_connection_at(":memory:", 0), Err(PoolError::Exhausted));
    assert_eq!(pool.len(), 0);
}

#[test]
fn timeout_is_measured_from_last_use() {
    let mut pool = ConnectionPool::new_at(3, 100, 1000);
    assert!(pool.get_connection_at(":memory:", 1100).is_ok());
    assert!(pool.get_connection_at(":memory:", 1200).is_ok());
    assert_eq!(pool.get_connection_at(":memory:", 1301), Err(PoolError::TimedOut));
    assert_eq!(pool.timeout(), 100);
    assert_eq!(pool.len(), 2);
}

#[test]
fn dropped_database_is_refused_but_others_are_served() {
    let mut pool = ConnectionPool::new_at(3, 5000, 0);
    let a = pool.get_connection_at(":memory:", 1).unwrap();
    assert_eq!(pool.drop_connection(a.id), Ok(()));
    assert!(!pool.contains(a.id));
    assert_eq!(pool.get_connection_at(":memory:", 2), Err(PoolError::Dropped));
    assert!(pool.get_connection_at("tlm.db", 3).is_ok());
}

#[test]
fn unknown_connections_are_refused() {
    let mut pool = ConnectionPool::new_at(3, 5000, 0);
    assert_eq!(pool.return_connection(7), Err(ConnectionPoolError::ConnectionNotFound));
    assert_eq!(pool.drop_connection(7), Err(PopError));
}

#[test]
fn returning_twice_is_harmless() {
    let mut pool = ConnectionPool::new_at(3, 5000, 0);
    let a = pool.get_connection_at(":memory:", 1).unwrap();
    assert_eq!(pool.return_connection(a.id), Ok(()));
    assert_eq!(pool.return_connection(a.id), Ok(()));
    assert!(!pool.is_in_use(a.id));
    assert_eq!(pool.len(), 1);
    let b = pool.get_connection_at(":memory:", 2).unwrap();
    assert_eq!(b.id, a.id);
    assert!(pool.get_connection_at(":memory:", 3).unwrap().fresh);
}

#[test]
fn idle_connection_is_handed_out_even_for_a_dropped_database() {
    let mut pool = ConnectionPool::new_at(3, 5000, 0);
    let a = pool.get_connection_at(":memory:", 0).unwrap();
    let b = pool.get_connection_at("tlm.db", 1).unwrap();
    assert_eq!(pool.drop_connection(a.id), Ok(()));
    assert_eq!(pool.return_connection(b.id), Ok(()));
    let c = pool.get_connection_at(":memory:", 2).unwrap();
    assert_eq!(c.id, b.id);
    assert!(!c.fresh);
    assert_eq!(pool.get_connection_at(":memory:", 3), Err(PoolError::Dropped));
}
