//! The logic of a coding assistant that talks to language models.
//!
//! - [`settings`] and [`migration`]: which provider is asked, and how older settings
//!   files are brought up to date.
//! - [`client`], [`messages`] and [`models`]: what a provider is asked, and whom.
//! - [`framing`], [`reader`] and [`stream`]: how its answer is read while it arrives.
//! - [`tools`]: the tools that a model can have used on files.
//! - [`lsp`]: the language servers of a workspace.
//! - [`json`], [`list`], [`path`] and [`text`]: what all of these are made of.
//!
//! Nothing here reads or writes a file, sends a request or looks at the environment: what
//! comes from there is handed in, and what goes there is handed out.
pub mod client;
pub mod framing;
pub mod json;
pub mod list;
pub mod lsp;
pub mod messages;
pub mod migration;
pub mod models;
pub mod path;
pub mod reader;
pub mod settings;
pub mod stream;
pub mod text;
pub mod tools;
