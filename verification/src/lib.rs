//! The core of a small content-addressed version control system. A
//! repository keeps blobs, trees and starlogs in an object store below
//! `.dock`, names its branches as courses, and points at the current one
//! with the helm.
//!
//! The library decides and computes; it touches no file. What it needs from
//! the file system it takes as plain values (the entries of a directory
//! walk, the contents of files), and what has to change there it returns as
//! a plan of [`actions::FsAction`] steps.

pub mod actions;
pub mod blob;
pub mod checkout;
pub mod courses;
pub mod diff;
pub mod dockignore;
pub mod error;
pub mod filemap;
pub mod hasher;
pub mod json;
pub mod lists;
pub mod pairs;
pub mod ruxpy_tree;
pub mod spacedock;
pub mod starlog;
pub mod store;
pub mod text;
pub mod workspace;

pub use crate::dockignore::{get_dockignore_matcher, is_ignored, IgnoreFilter};
pub use crate::store::{init_object_dir, save_starlog};
pub use crate::workspace::{filter_ignored_files, get_tracked_files, list_all_files};
