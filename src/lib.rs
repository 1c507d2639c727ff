//! Reading and writing the chunk structure of PNG files, so that arbitrary
//! byte payloads can be carried in extra chunks.
pub mod chunk_type;
pub mod chunk;
pub mod png;
pub mod message;
mod text;
