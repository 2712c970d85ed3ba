use vstd::prelude::*;

verus! {

/// Looks up the value stored under a key (`?1`).
pub const GET_SQL: &'static str = "select value from singlevalue where key = ?1";

/// Stores a value (`?2`) under a key (`?1`), replacing the one stored there.
pub const SET_SQL: &'static str = "insert into single_value (key, value) values (?1, ?2)
        on conflict (key) do update set value = ?2 where key = ?1";

/// A statement to run on a database connection, with its text parameters
/// in order.
pub struct Statement {
    pub sql: String,
    pub params: Vec<String>,
}

/// How a single-row query failed.
#[derive(Debug, Clone, PartialEq, Eq)]
pub enum QueryError {
    /// The query matched no row.
    NoRows,
    /// Any other failure, with its description.
    Other(String),
}

/// The statement that reads the value stored under `key`.
pub fn get_statement(key: &str) -> (s: Statement)
    ensures
        s.sql@ == GET_SQL@,
        s.params@.len() == 1,
        s.params@[0]@ == key@,
{
    let mut params: Vec<String> = Vec::new();
    params.push(String::from_str(key));
    Statement { sql: String::from_str(GET_SQL), params }
}

/// The statement that stores `value` under `key`.
pub fn set_statement(key: &str, value: &str) -> (s: Statement)
    ensures
        s.sql@ == SET_SQL@,
        s.params@.len() == 2,
        s.params@[0]@ == key@,
        s.params@[1]@ == value@,
{
    let mut params: Vec<String> = Vec::new();
    params.push(String::from_str(key));
    params.push(String::from_str(value));
    Statement { sql: String::from_str(SET_SQL), params }
}

/// The answer to a lookup, from the outcome of its single-row query: the
/// value found, no value where no row matched, and any other failure as is.
pub fn lookup_result(outcome: Result<String, QueryError>) -> (r: Result<Option<String>, QueryError>)
    ensures
        match outcome {
            Ok(v) => r == Ok::<Option<String>, QueryError>(Some(v)),
            Err(QueryError::NoRows) => r == Ok::<Option<String>, QueryError>(None),
            Err(e) => r == Err::<Option<String>, QueryError>(e),
        },
{
    match outcome {
        Ok(v) => Ok(Some(v)),
        Err(QueryError::NoRows) => Ok(None),
        Err(e) => Err(e),
    }
}

} // verus!
