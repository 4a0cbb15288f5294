//! Ingestion of delimited address tables: a quoting-aware tokenizer, a
//! column-order-independent header resolver, a strict per-field row decoder,
//! and two JSON serialisation back-ends that emit the same text.

pub mod errors;
pub mod json;
pub mod laws;
pub mod pipeline;
pub mod record;
pub mod schema;
pub mod text;
pub mod tokenizer;

pub use errors::ParseError;
pub use json::addresses_to_json;
pub use json::addresses_to_json_with_serde;
pub use pipeline::addresses_to_result_with_csv_crate;
pub use pipeline::addresses_to_result_with_own_csv_parser;
pub use pipeline::parse_addresses;
pub use record::Address;
pub use record::AddressType;
pub use schema::field_to_column_idx_map;
pub use schema::HeaderMap;
pub use tokenizer::tokenize;
