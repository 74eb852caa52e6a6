//! Pool creation against the outside database client.
//!
//! Parsing a connection URL and constructing the pool object are the only
//! synchronous pieces of the client this layer touches; everything that
//! speaks to a server is asynchronous and lives outside the library.

use vstd::prelude::*;

verus! {

/// Connection options of the outside client.
#[verifier::external_type_specification]
#[verifier::external_body]
pub struct ExOpts(mysql_async::Opts);

/// Connection pool of the outside client: internally synchronized and
/// cheaply cloneable.
#[verifier::external_type_specification]
#[verifier::external_body]
pub struct ExPool(mysql_async::Pool);

/// Whether the outside client accepts a text as a connection URL; its
/// parser decides from the characters alone.
pub uninterp spec fn url_parses(url: Seq<char>) -> bool;

/// Relies on `mysql_async::Opts::from_url`: a pure parser of the URL text,
/// returning options exactly when it accepts the text.
#[verifier::external_body]
fn parse_opts(url: &str) -> (r: Option<mysql_async::Opts>)
    ensures
        r is Some <==> url_parses(url@),
{
    mysql_async::Opts::from_url(url).ok()
}

/// Relies on `mysql_async::Pool::new`, which only constructs in-process
/// state; handed already-parsed options it does not fail (its only panic
/// is an options conversion, and converting `Opts` to itself is
/// infallible).
#[verifier::external_body]
fn pool_new(opts: mysql_async::Opts) -> (r: mysql_async::Pool) {
    mysql_async::Pool::new(opts)
}

/// A managed pool of database connections.
pub struct MysqlPool {
    pub pool: mysql_async::Pool,
}

/// Creates a pool from a connection URL: a pool comes back exactly when
/// the client's parser accepts the URL, and a rejected URL yields nothing
/// — the absent-handle signal of the boundary.
pub fn create_pool(url: &str) -> (r: Option<MysqlPool>)
    ensures
        r is Some <==> url_parses(url@),
{
    match parse_opts(url) {
        Some(opts) => Some(MysqlPool { pool: pool_new(opts) }),
        None => None,
    }
}

} // verus!
