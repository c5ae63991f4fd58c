//! Content-addressed file hosting core: logical containers ("spaces") hold
//! uploaded files, file content is stored once per unique byte sequence, and
//! each container's byte usage is tracked alongside per-file download
//! statistics.
//!
//! The crate models the catalog, blob store and quota ledger as in-memory
//! tables and proves the coordination logic that ties them together: content
//! deduplication, reference-counted blob reclamation, and quota consistency.

pub mod blobs;
pub mod content;
pub mod errors;
pub mod files;
pub mod ids;
pub mod laws;
pub mod model;
pub mod spaces;
pub mod store;
pub mod util;

pub use errors::AppError;
pub use errors::ErrorType;
pub use store::Store;
