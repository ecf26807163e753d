//! A verified scan-and-classify core: it resolves the directory roots a scan
//! should traverse, filters file entries by ignore rules, document type and
//! modification age, classifies each match by its likely origin, accounts for
//! progress, and keeps the per-project catalog of results with filtered,
//! paginated queries.

pub mod classify;
pub mod filter;
pub mod progress;
pub mod query;
pub mod roots;
pub mod scan;
pub mod store;
pub mod text;
