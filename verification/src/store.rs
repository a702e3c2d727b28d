//! The plain data of the ORM example, and its database location.

use vstd::prelude::*;

verus! {

/// Postal address embedded into an article: its fields are flattened into
/// the article's table as `address_street`, `address_city` and
/// `address_country` columns.
#[derive(Debug, Clone, PartialEq, Eq)]
pub struct Address {
    /// Street line.
    pub street: String,
    /// City name.
    pub city: String,
    /// Country code (ISO-3166 alpha-2 in tests; not enforced).
    pub country: String,
}

/// Connection string used when `TOASTY_CONNECTION_URL` is unset: a fresh
/// in-memory SQLite database.
pub const DEFAULT_CONNECTION_URL: &'static str = "sqlite::memory:";

/// The database to connect to: the configured URL, else
/// [`DEFAULT_CONNECTION_URL`].
pub fn connection_url(configured: Option<String>) -> (url: String)
    ensures
        match configured {
            Some(u) => url == u,
            None => url@ == DEFAULT_CONNECTION_URL@,
        },
{
    match configured {
        Some(u) => u,
        None => DEFAULT_CONNECTION_URL.to_owned(),
    }
}

} // verus!
