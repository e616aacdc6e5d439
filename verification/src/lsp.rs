//! Language servers: which one is asked about a file, and what it is told of the files
//! that are open.
pub mod documents;
pub mod manager;
