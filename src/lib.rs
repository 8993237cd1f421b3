//! Task manager for resumable Node.js downloads and supervised package
//! installs: a registry of active tasks, the decisions of the download engine
//! and of the process supervisor, and the discovery of process trees; with
//! the settings file, the mirror presets and version comparison they rely on.

pub mod commands;
pub mod decimal;
pub mod download;
pub mod event;
pub mod mirrors;
pub mod node_install;
pub mod process_tree;
pub mod registry;
pub mod settings;
pub mod supervisor;
pub mod text;
pub mod version;
