//! Materializes a project skeleton from a template: placeholder discovery,
//! literal substitution over names and contents, and the staged hook pipeline.
pub mod text;
pub mod scanner;
pub mod matcher;
pub mod replacer;
pub mod resolver;
pub mod hooks;
pub mod repo;
pub mod paths;
pub mod init;
