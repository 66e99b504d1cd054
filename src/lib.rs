//! A small text-editor core: an in-memory mirror of a directory tree with
//! per-folder expand/collapse state, a single open-file editing session, and
//! the controller that binds the two together.
//!
//! Reading and writing the disk stays with the caller: the tree is built from
//! a recursive listing handed in, a file is opened from the outcome of its
//! read, and a save hands back the write to perform.

pub mod session;
pub mod tree;
pub mod workspace;

pub use session::{EditorError, EditorSession, IoErrorKind, WriteRequest};
pub use tree::{FileTree, FolderEntry, ListedEntry, VisibleRow};
pub use workspace::{LoadError, Workspace};
