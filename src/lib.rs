//! Release automation: versions, tags, changelog entries, version lines in
//! files, and the decisions of a release run.

pub mod config;
pub mod custom;
pub mod discovery;
pub mod github;
pub mod manifest;
pub mod manpage;
pub mod news_file;
pub mod project_config;
pub mod release;
pub mod tag;
pub mod text;
pub mod version;

pub use version::{Status, Version};
