//! The core of a media browser: clipboard and paste bookkeeping,
//! collision-free naming, navigation history, selection, listing order,
//! the folder tree, size labels and thumbnail cache bookkeeping.
pub mod text;
pub mod paths;
pub mod file_ops;
pub mod history;
pub mod selection;
pub mod sort;
pub mod listing;
pub mod tree;
pub mod drives;
pub mod format;
pub mod thumbnail;
pub mod browser;
