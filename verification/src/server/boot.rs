//! How the service is set up.

use std::path::PathBuf;
use vstd::prelude::*;
use vstd::string::*;

verus! {

/// `std::path::PathBuf`: carried through as it is.
#[verifier::external_type_specification]
#[verifier::external_body]
pub struct ExPathBuf(std::path::PathBuf);

/// The settings of the service.
pub struct BitdexServer {
    pub data_dir: PathBuf,
    /// Where definitions of indexes are read from instead of the data directory; the data of an
    /// index stays there all the same.
    pub index_dir: Option<PathBuf>,
    /// Whether the bitmaps are built anew from the documents at the start.
    pub rebuild: bool,
    pub default_query_format: Option<String>,
    pub enable_traces: bool,
    /// What a caller shows to change anything. Nobody can where there is none.
    pub admin_token: Option<String>,
    /// How many queries run at once; zero for any number.
    pub max_query_concurrency: u32,
    /// How many traces are kept.
    pub trace_buffer_size: usize,
}

impl BitdexServer {
    /// The usual settings.
    pub fn new(data_dir: PathBuf) -> (r: Self)
        ensures
            r == (BitdexServer {
                data_dir,
                index_dir: None,
                rebuild: false,
                default_query_format: None,
                enable_traces: false,
                admin_token: None,
                max_query_concurrency: 0,
                trace_buffer_size: 1000,
            }),
    {
        BitdexServer {
            data_dir,
            index_dir: None,
            rebuild: false,
            default_query_format: None,
            enable_traces: false,
            admin_token: None,
            max_query_concurrency: 0,
            trace_buffer_size: 1000,
        }
    }

    /// Reads definitions from a directory of their own.
    pub fn with_index_dir(self, dir: PathBuf) -> (r: Self)
        ensures
            r == (BitdexServer { index_dir: Some(dir), ..self }),
    {
        BitdexServer { index_dir: Some(dir), ..self }
    }

    /// Builds the bitmaps anew at the start, or not.
    pub fn with_rebuild(self, rebuild: bool) -> (r: Self)
        ensures
            r == (BitdexServer { rebuild, ..self }),
    {
        BitdexServer { rebuild, ..self }
    }

    /// Takes queries to be in this format where they do not say.
    pub fn with_default_query_format(self, format: String) -> (r: Self)
        ensures
            r == (BitdexServer { default_query_format: Some(format), ..self }),
    {
        BitdexServer { default_query_format: Some(format), ..self }
    }

    /// Keeps traces, or not.
    pub fn with_enable_traces(self, enable: bool) -> (r: Self)
        ensures
            r == (BitdexServer { enable_traces: enable, ..self }),
    {
        BitdexServer { enable_traces: enable, ..self }
    }

    /// Keeps so many traces.
    pub fn with_trace_buffer_size(self, size: usize) -> (r: Self)
        ensures
            r == (BitdexServer { trace_buffer_size: size, ..self }),
    {
        BitdexServer { trace_buffer_size: size, ..self }
    }

    /// Lets those make changes who show this.
    pub fn with_admin_token(self, token: Option<String>) -> (r: Self)
        ensures
            r == (BitdexServer { admin_token: token, ..self }),
    {
        BitdexServer { admin_token: token, ..self }
    }

    /// Runs at most so many queries at once; any number where this is zero.
    pub fn with_max_query_concurrency(self, max: u32) -> (r: Self)
        ensures
            r == (BitdexServer { max_query_concurrency: max, ..self }),
    {
        BitdexServer { max_query_concurrency: max, ..self }
    }
}

/// The port at which the service tells that it lives: the one behind its own.
pub fn health_port(port: u16) -> (r: u16)
    requires
        port < u16::MAX,
    ensures
        r == port + 1,
{
    port + 1
}

/// How many queries that come in are kept for a slow watcher.
pub const QUERY_STREAM_CAPACITY: usize = 10_000;

/// Whether queries that come in can be watched.
pub fn stream_enabled(setting: Option<&str>) -> (r: bool)
    ensures
        r == (setting matches Some(s) && s@ == "1"@),
{
    match setting {
        Some(s) => crate::text::text_eq(s, "1"),
        None => false,
    }
}

} // verus!
