//! Keeps the pair of translation catalogs of a locale in step: completed
//! translations flow back from the catalog of missing entries into the main
//! catalog, and the catalog of missing entries is derived anew from the main one.

pub mod entry;
pub mod reconcile;
pub mod tally;
