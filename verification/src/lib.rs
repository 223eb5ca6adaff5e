//! Decoder for the application-layer user data of meter-bus telegrams.
//!
//! A telegram payload is a packed, position-dependent binary format: each
//! record starts with a data-information field (plus chained extension
//! bytes), then a value-information field (plus its own chain), then the
//! value payload whose encoding is selected by the data-information field.
//! This crate parses those structures into typed records, rejecting
//! malformed or truncated input with precise error values.

pub mod data_information;
pub mod value_information;
pub mod variable_user_data;
