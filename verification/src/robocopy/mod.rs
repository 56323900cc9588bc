//! The robocopy log: its header, its entries, and the parser that reads
//! both from a stream of text.

pub mod robocopy_error;
pub mod robocopy_file_pattern;
pub mod robocopy_options;
pub mod robocopy_start_datetime;
pub mod robocopy_header;
pub mod robocopy_log;
pub mod robocopy_log_entry;
pub mod robocopy_log_line;
pub mod robocopy_log_parser;
pub mod robocopy_log_laws;
pub mod robocopy_header_laws;
