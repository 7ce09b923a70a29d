//! Ingestion and normalization of DMARC aggregate reports delivered as
//! compressed XML attachments inside an mbox archive, and the aggregation
//! of a batch of reports into one ordered record list.
pub mod aggregate;
pub mod loader;
pub mod mbox;
pub mod model;
pub mod render;
pub mod schema;
pub mod writer;
pub mod xml;
pub mod trusted;
