//! Verified core of a Windows file manager: path safety rules, task state
//! machine, directory listing order, search batching, scheduling priorities
//! and the in-memory registries behind the desktop commands.

pub mod error;
pub mod text;
pub mod types;
pub mod tasks;
pub mod normalize;
pub mod path_safety;
pub mod listing;
pub mod observability;
pub mod scheduler;
pub mod clipboard;
pub mod drag;
pub mod runtime;
pub mod search;
pub mod settings;
pub mod system;
