//! Serving static content from interchangeable providers: an in-memory content
//! store built from a folder or an archive, and one-shot sources registered at
//! runtime and streamed in fixed-size chunks.

pub mod path;
pub mod table;
pub mod mime_type;
pub mod provider;
pub mod registry;
pub mod stream;
pub mod handler;
