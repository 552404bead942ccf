//! A file-carving library: recovers embedded files from an unstructured
//! binary buffer by recognizing format headers (JPEG, PNG, GIF, PDF) and
//! parsing each format's internal structure to find the file's end.

pub mod bytes;
pub mod carver;
pub mod engine;
pub mod gif;
pub mod jpeg;
pub mod pdf;
pub mod png;
