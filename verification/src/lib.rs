//! Backend for a file-browser interface: lists the immediate children of a
//! directory as sorted entry descriptors, and computes parent paths for
//! upward navigation.

pub mod entry;
pub mod listing;
pub mod locate;
pub mod navigate;
pub mod order;
