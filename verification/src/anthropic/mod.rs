//! The Anthropic Messages API on top of chat completions.

pub mod reply;
pub mod convert;
pub mod stream;
pub mod stream_laws;
pub mod stream_converter;
pub mod stream_order;
pub mod stream_content;
pub mod stream_run;
pub mod stream_meaning;
pub mod stream_thinking;
pub mod convert_laws;
pub mod request;
pub mod blocks;
pub mod count;
pub mod content_laws;
