//! Small path and file conveniences: home- and config-directory resolution,
//! an existence-driven directory-creation status, and whole-file reads as
//! bytes, text, or lines.
//!
//! The library is the decision and transformation core of those operations,
//! stated and proved over plain values. The caller performs the surrounding
//! process-environment lookups and filesystem probes and hands their outcomes
//! in: an environment lookup becomes a `Result<String, LookupError>`, a file's
//! content becomes an `Option<Vec<u8>>` (`None` when it could not be read),
//! and a directory probe becomes a `bool`.

mod content;
mod dirs;
mod home;
mod lines;

pub use content::{buffer_read, content_view, string_read, ReadError};
pub use content::{lemma_string_read_matches_buffer, read_file_into_buffer, read_file_into_string};
pub use dirs::{create_dir, dir_status, lemma_create_dir_idempotent, DirStatus};
pub use home::{config_path, config_segment, get_config, LookupError};
pub use lines::{read_lines, read_lines_raw};
pub use lines::{decoded_count, decoded_result, first_newline, kept_lines, kept_of};
pub use lines::{lemma_kept_lines_count, lemma_missing_file_reads};
pub use lines::{lines_read, raw_lines_read, result_view, result_views, segments, string_views, strip_cr};
