//! An incremental filesystem-tree engine: build a folder tree lazily from
//! directory listings, deepen it level by level, merge separately-grown
//! subtrees back in, aggregate sizes bottom-up, and flatten the tree for bulk
//! reporting — all correct under partial knowledge of the filesystem.

pub mod drives;
pub mod error;
pub mod filesystem;
pub mod memory;
pub mod tree_builder;
pub mod tree_destructor;
pub mod tree_sizer;
