//! The logic of a proxy that pulls one AceStream engine stream per content id
//! and serves it to many listeners.
pub mod chunk;
pub mod format;
pub mod http;
pub mod json;
pub mod mp4;
pub mod probe;
pub mod registry;
pub mod replay;
pub mod route;
pub mod status;
pub mod text;
pub mod ts;
