use vstd::prelude::*;

verus! {

/// Failures of the server, each with the description of its cause.
#[derive(Debug, Clone, PartialEq, Eq)]
pub enum ServerError {
    Io(String),
    Actix(String),
    Rusqlite(String),
    Other(String),
}

impl ServerError {
    /// The text the error is shown as: a label for its kind, then its cause.
    pub open spec fn text(&self) -> Seq<char> {
        match self {
            ServerError::Io(e) => "I/O error: "@ + e@,
            ServerError::Actix(e) => "Actix error: "@ + e@,
            ServerError::Rusqlite(e) => "Rusqlite error: "@ + e@,
            ServerError::Other(s) => "Other error: "@ + s@,
        }
    }

    /// The text the error is shown as, as `text` says.
    pub fn to_string(&self) -> (s: String)
        ensures
            s@ == self.text(),
    {
        match self {
            ServerError::Io(e) => String::from_str("I/O error: ").concat(e.as_str()),
            ServerError::Actix(e) => String::from_str("Actix error: ").concat(e.as_str()),
            ServerError::Rusqlite(e) => String::from_str("Rusqlite error: ").concat(e.as_str()),
            ServerError::Other(s) => String::from_str("Other error: ").concat(s.as_str()),
        }
    }

    /// The underlying error's description: there is one for I/O, Actix and
    /// SQLite failures, none for other errors.
    pub fn source(&self) -> (r: Option<String>)
        ensures
            match self {
                ServerError::Io(e) => r == Some(*e),
                ServerError::Actix(e) => r == Some(*e),
                ServerError::Rusqlite(e) => r == Some(*e),
                ServerError::Other(_) => r is None,
            },
    {
        match self {
            ServerError::Io(e) => Some(e.clone()),
            ServerError::Actix(e) => Some(e.clone()),
            ServerError::Rusqlite(e) => Some(e.clone()),
            ServerError::Other(_) => None,
        }
    }
}

} // verus!
