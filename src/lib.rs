//! Query and retrieval engine for a catalog of game items: validated query
//! conditions, decoding of raw storage records, deterministic result order,
//! and the decisions of the paginated scan and chunked batch fetch.

pub mod model;
pub mod text;
pub mod record;
pub mod query;
pub mod order;
pub mod snapshot;
pub mod fetch;
pub mod scan;
