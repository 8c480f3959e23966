use vstd::prelude::*;

verus! {

#[verifier::external_type_specification]
pub struct ExSqliteError(sqlite3::Error);

/// An sqlite error that can be compared: by code and by message.
#[derive(Debug)]
pub struct SQLite3ErrorWithCompare {
    pub code: Option<isize>,
    pub message: Option<String>,
}

/// Two optional messages are equal: both absent, or both present with the same text.
pub open spec fn same_message(a: Option<String>, b: Option<String>) -> bool {
    match (a, b) {
        (None, None) => true,
        (Some(x), Some(y)) => x@ == y@,
        _ => false,
    }
}

fn messages_equal(a: &Option<String>, b: &Option<String>) -> (r: bool)
    ensures
        r == same_message(*a, *b),
{
    match (a, b) {
        (None, None) => true,
        (Some(x), Some(y)) => *x == *y,
        _ => false,
    }
}

impl PartialEq for SQLite3ErrorWithCompare {
    fn eq(&self, other: &Self) -> (r: bool) {
        self.code == other.code && messages_equal(&self.message, &other.message)
    }
}

impl vstd::std_specs::cmp::PartialEqSpecImpl for SQLite3ErrorWithCompare {
    open spec fn obeys_eq_spec() -> bool {
        true
    }

    open spec fn eq_spec(&self, other: &Self) -> bool {
        self.code == other.code && same_message(self.message, other.message)
    }
}

impl Eq for SQLite3ErrorWithCompare {

}

impl From<sqlite3::Error> for SQLite3ErrorWithCompare {
    fn from(value: sqlite3::Error) -> (r: Self) {
        SQLite3ErrorWithCompare { message: value.message, code: value.code }
    }
}

impl vstd::std_specs::convert::FromSpecImpl<sqlite3::Error> for SQLite3ErrorWithCompare {
    open spec fn obeys_from_spec() -> bool {
        true
    }

    open spec fn from_spec(v: sqlite3::Error) -> Self {
        SQLite3ErrorWithCompare { code: v.code, message: v.message }
    }
}

/// Why the cookie store gave no single session token.
#[derive(Debug, PartialEq, Eq)]
pub enum GetAuthorizationTokenError {
    NotFound,
    MultipleTokensFound { count: usize },
}

/// The session token among the rows that the cookie query returned: there must
/// be exactly one.
pub fn single_token(records: &Vec<String>) -> (r: Result<&String, GetAuthorizationTokenError>)
    ensures
        match r {
            Ok(token) => records@.len() == 1 && *token == records@[0],
            Err(GetAuthorizationTokenError::NotFound) => records@.len() == 0,
            Err(GetAuthorizationTokenError::MultipleTokensFound { count }) => records@.len() >= 2
                && count == records@.len(),
        },
{
    if records.len() == 0 {
        Err(GetAuthorizationTokenError::NotFound)
    } else if records.len() >= 2 {
        Err(GetAuthorizationTokenError::MultipleTokensFound { count: records.len() })
    } else {
        Ok(&records[0])
    }
}

} // verus!
