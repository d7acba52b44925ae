//! Verified request and response conversion for an OpenAI- and Anthropic-compatible
//! model frontend, with the session affinity table that routes its traffic.

pub mod anthropic;
pub mod baseten_ext;
pub mod baseten_laws;
pub mod chat;
pub mod chat_laws;
pub mod chat_request;
pub mod clock;
pub mod completion;
pub mod extensions;
pub mod ids;
pub mod json;
pub mod json_laws;
pub mod number;
pub mod request_flags;
pub mod responses;
pub mod session_affinity;
pub mod text;
pub mod text_laws;
pub mod text_map;
