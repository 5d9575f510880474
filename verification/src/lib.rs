//! Planning and result shaping for single-page equality queries against a
//! partitioned key-value store with one primary key and optional
//! single-attribute secondary indexes.

pub mod errors;
pub mod plan;
pub mod request;
pub mod response;
pub mod schema;
pub mod text;
pub mod values;
