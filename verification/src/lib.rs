//! Persistence core for a drawing-canvas application: a byte-stream
//! compression codec, the canvas document model with its textual encoding,
//! and the project-store rules that map names to files and list them.
pub mod codec;
pub mod decode;
pub mod encode;
pub mod errors;
pub mod model;
pub mod parse;
pub mod round_trip;
pub mod store;
pub mod text;
