//! Server configuration, loaded once at startup and read-only thereafter.
//!
//! The dispatch core treats every field as an opaque value to be passed on
//! to responders; it interprets none of them itself.

use vstd::prelude::*;

verus! {

/// The process-wide server configuration.
///
/// `filesystem_root` is a canonical absolute path and the file names are
/// paths relative to it, but to the dispatch core they are opaque strings.
/// `tcp_limit` is the maximum number of bytes buffered per request; a
/// request that exceeds it reaches dispatch with a nonzero overflow-byte
/// count.  `server_limit` bounds the number of concurrent connections.
#[derive(Clone, Debug)]
pub struct Config {
    pub feedback_error_file: Option<String>,
    pub feedback_info_file: Option<String>,
    pub filesystem_directory_index: String,
    pub file_not_found_file: String,
    pub filesystem_root: String,
    pub server_host: String,
    pub server_limit: u64,
    pub server_port: u16,
    pub tcp_limit: u64,
}

} // verus!
