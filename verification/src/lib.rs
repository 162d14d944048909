//! Turns an indentation-based outline of a directory tree into the ordered
//! list of directories and files that it describes.
//!
//! The library decides; it touches no file system. A caller joins each
//! entry's names onto a base directory and creates what the entry asks for.

pub mod text;
pub mod line;
pub mod tree;
pub mod action;
pub mod plan;
pub mod model;
pub mod laws;

pub use action::{entry_action, root_action, Action, Target};
pub use plan::{create_tree, TreeError, TreePlan};
pub use tree::{Entry, EntryKind, TreeState};
