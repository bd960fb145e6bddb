//! Verified core of the Soma command-line tool.
pub mod codegen;
pub mod dek_sync;
pub mod dev;
pub mod error;
pub mod file_watch;
pub mod frontend;
pub mod identity;
pub mod identity_sync;
pub mod json_schema;
pub mod kms;
pub mod names;
pub mod pagination;
pub mod params;
pub mod paths;
pub mod process;
pub mod restate;
pub mod sync;
pub mod startup_sync;
pub mod runtime;
pub mod task;
pub mod template;
pub mod text;
pub mod yaml_events;
