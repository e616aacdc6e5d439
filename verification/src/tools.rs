//! The tools that a model can have used on files.
//!
//! A tool reads its input, decides what is to be done with the file system, and says
//! what came of it. The file system itself is the caller's.
pub mod edit;
pub mod error;
pub mod read;
pub mod schema;
pub mod search;
pub mod write;
