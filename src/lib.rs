//! Reading, editing and writing the chunk stream of PNG files.

pub mod error;
pub mod chunk_type;
pub mod chunk;
pub mod png;
pub mod args;
pub mod commands;

pub use args::Args;
pub use chunk::Chunk;
pub use chunk_type::ChunkType;
pub use commands::{run_cmd, CmdOutput};
pub use error::PngError;
pub use png::Png;
