//! Core data types of the format.
pub mod array;
pub mod dtype;
pub mod file;
pub mod header;
pub mod value;

pub use array::{Array, ArrayView};
pub use dtype::DType;
pub use file::{File, FileData, FileHandle, FileView, NoHandle};
pub use header::{HEADER_SIZE, PREFIX_SIZE, VERSION};
pub use value::{Value, ValueTag, ValueView};
