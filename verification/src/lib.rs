pub mod dir_diff;
pub mod dir_organize;
pub mod dir_sync;
pub mod dir_tree;
