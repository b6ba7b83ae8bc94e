//! Sorts the files of a directory into folders named by their date, and
//! optionally by a coarse file type.
//!
//! The library decides; the caller touches the disk. A pass is planned from a
//! snapshot of the directory as an ordered list of operations, and a
//! [`folder_accumulate::Execution`] hands those operations out one at a time,
//! stopping at the first that fails.
pub mod cli;
pub mod folder_accumulate;
pub mod prepend_date;
pub mod utils;
