//! The core of a small task-list service: a pagination engine that turns a
//! `(page, per_page)` request into one bounded, ordered slice of rows plus
//! the total row count, and a task table with create, list, toggle, update
//! and delete operations. Every operation carries a contract that pins its
//! result down; the laws the service rests on (the ceiling page count, the
//! slice length, the insert round trip, toggle idempotence) are proved
//! alongside.

use vstd::prelude::*;

pub mod pagination;
pub mod routes;
pub mod task;

verus! {

/// Hard cap on the page size a caller may request.
pub const MAX_PER_PAGE: i64 = 100;

/// Page size used when a request names none.
pub const DEFAULT_PER_PAGE: i64 = 10;

/// Page used when a request names none.
pub const DEFAULT_PAGE: i64 = 1;

} // verus!
