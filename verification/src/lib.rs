//! A small bundler, file watcher and image optimiser whose decision logic is verified.

pub mod binding;
pub mod bundler;
pub mod disk;
pub mod events;
pub mod executor;
pub mod fspath;
pub mod ignored;
pub mod image_opt;
pub mod imports;
pub mod paths;
pub mod resolve;
pub mod scanner;
pub mod task_loop;
pub mod text;
pub mod trigger;
