//! Assembles ePub books from loose book elements: aggregation of the
//! elements into a book model, resolution of file paths against ordered
//! include directories, and the text of the generated package documents.

pub mod text;
pub mod util;
mod error;
mod options;

pub use error::Error;
pub use options::Options;
pub mod ops;
