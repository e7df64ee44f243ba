//! Builds the per-directory listings of a static file tree: the entries of
//! each directory, their icons and sizes, the two sort orders, and the
//! breadcrumb trail of each page.
pub mod entry;
pub mod icon;
pub mod listing;
pub mod order;
pub mod path;
