//! Live search over a coding-problem archive.
//!
//! `search` ranks corpus records against a query, `registry` tracks the live
//! sessions and routes each query's outcome back to the session that issued
//! it, `session` reads client frames and keeps one query of a session out at a
//! time, and `context` and `util` hold the page view models and list fixtures.

pub mod context;
pub mod registry;
pub mod search;
pub mod session;
pub mod util;
