//! Everything needed for basic operation, in one neat module.

pub use crate::structs::File;
pub use crate::structs::Join;
pub use crate::Sorter;
