//! The Responses API on top of chat completions.

pub mod types;
pub mod tools;
pub mod response;
pub mod room;
pub mod stream;
pub mod stream_laws;
pub mod stream_converter;
pub mod convert;
pub mod request;
pub mod stream_order;
pub mod stream_output;
pub mod stream_run;
pub mod stream_items;
pub mod identity_laws;
pub mod convert_laws;
pub mod written_laws;
pub mod spec_laws;
pub mod stream_meaning;
pub mod stream_telling;
pub mod stream_endings;
pub mod spec_fields;
