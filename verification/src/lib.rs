//! Reading of columnar data files.
//!
//! A data file holds record batches. The columns of a batch are stored in pages: a plain column is
//! one page, a struct column has the pages of its children, and a list column has a page of
//! positions and the pages of its items. A page table says where every page lies. This crate
//! decides what to read, in which order, and how the pages that were read become an Arrow record
//! batch. It does no input or output: where a page has to come from storage, a function hands out
//! a request and goes on once the caller hands in the reply.

pub mod arrow;
pub mod batch;
pub mod column_laws;
pub mod error;
pub mod file_laws;
pub mod fit_laws;
pub mod fits;
pub mod format;
pub mod laws;
mod machine;
mod made;
pub mod manifest;
pub mod open;
pub mod reader;
pub mod row_id;
pub mod schema;
pub mod walk;

pub use arrow::{Batch, Column};
pub use error::Error;
pub use reader::FileReader;
