//! The customer-management backend: a whitelist of tables, the query language of
//! its REST API, the SQL every request turns into, and the rules for where the
//! database lives.  Requests are decided here; running the statements, serving
//! HTTP and touching the file system is the server's part.

pub mod text;
pub mod json;
pub mod error;
pub mod schema;
pub mod value;
pub mod crud;
pub mod query;
pub mod routes;
pub mod db;
pub mod report;
pub mod cli;
pub mod desktop;

pub use report::diagnostics_report;

use vstd::prelude::*;

verus! {

/// The shared state of the server: the database handle `D` and the whitelist.
pub struct AppState<D> {
    pub db: D,
    pub reg: schema::Registry,
}

/// Why the whitelist could not be loaded.
pub open spec fn whitelist_error(reason: Seq<char>) -> error::ErrV {
    error::err(50002, 500, "白名单加载失败: "@ + reason)
}

/// A result with its error taken by its view.
pub open spec fn result_view<T>(r: Result<T, error::ApiError>) -> Result<T, error::ErrV> {
    match r {
        Ok(x) => Ok(x),
        Err(e) => Err(e@),
    }
}

/// What `open_default` gives: the state over the database opened and the
/// place taken, or why the whitelist did not load.
pub open spec fn opened_state<D>(opened: (D, db::DbLocation), whitelist: Result<schema::Registry, String>) -> Result<
    (AppState<D>, db::DbLocation),
    error::ErrV,
> {
    match whitelist {
        Ok(reg) => Ok((AppState { db: opened.0, reg }, opened.1)),
        Err(m) => Err(whitelist_error(m@)),
    }
}

/// What `init_default` gives: the state, and whether the place is the portable one.
pub open spec fn initial_state<D>(opened: (D, db::DbLocation), whitelist: Result<schema::Registry, String>) -> Result<
    (AppState<D>, bool),
    error::ErrV,
> {
    match whitelist {
        Ok(reg) => Ok((AppState { db: opened.0, reg }, opened.1.portable)),
        Err(m) => Err(whitelist_error(m@)),
    }
}

/// `init_default` is `open_default` with the place reduced to whether it is
/// portable: on the same database and whitelist, an `Ok((st, loc))` of the one
/// is an `Ok((st, loc.portable))` of the other, and both refuse with the same
/// error.
pub proof fn law_init_default_is_open_default<D>(opened: (D, db::DbLocation), whitelist: Result<schema::Registry, String>)
    ensures
        initial_state(opened, whitelist) == match opened_state(opened, whitelist) {
            Ok((st, loc)) => Ok::<(AppState<D>, bool), error::ErrV>((st, loc.portable)),
            Err(e) => Err(e),
        },
{
}

impl<D> AppState<D> {
    /// The state over an opened database and the whitelist as loaded (or the
    /// reason it did not load).
    pub fn init(db: D, whitelist: Result<schema::Registry, String>) -> (r: Result<AppState<D>, error::ApiError>)
        ensures
            match whitelist {
                Ok(reg) => r matches Ok(s) && s.db == db && s.reg == reg,
                Err(m) => r matches Err(e) && e@ == whitelist_error(m@),
            },
    {
        match whitelist {
            Ok(reg) => Ok(AppState { db, reg }),
            Err(m) => {
                let msg = text::cat("白名单加载失败: ", m.as_str());
                Err(error::ApiError::internal(msg.as_str()))
            },
        }
    }

    /// The state over the database found by trying the candidate places, with
    /// the place taken.
    pub fn open_default(opened: (D, db::DbLocation), whitelist: Result<schema::Registry, String>) -> (r: Result<
        (AppState<D>, db::DbLocation),
        error::ApiError,
    >)
        ensures
            result_view(r) == opened_state(opened, whitelist),
    {
        let (d, loc) = opened;
        let st = AppState::init(d, whitelist)?;
        Ok((st, loc))
    }

    /// Like `open_default`, telling only whether the place is the portable one.
    pub fn init_default(opened: (D, db::DbLocation), whitelist: Result<schema::Registry, String>) -> (r: Result<
        (AppState<D>, bool),
        error::ApiError,
    >)
        ensures
            result_view(r) == initial_state(opened, whitelist),
    {
        let (st, loc) = AppState::open_default(opened, whitelist)?;
        Ok((st, loc.portable))
    }
}

} // verus!
