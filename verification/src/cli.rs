//! The command line as plain data: the two subcommands and their options,
//! after parsing.
//!
//! ```text
//! marcopolo scrape <URL> [OPTIONS]
//! marcopolo find <QUERY> [OPTIONS]
//! ```
use vstd::prelude::*;

use std::path::PathBuf;

use crate::kinds::FileKind;

verus! {

#[verifier::external_type_specification]
#[verifier::external_body]
pub struct ExPathBuf(PathBuf);

/// A parsed command line.
#[derive(Debug)]
pub struct Cli {
    pub command: Command,
}

/// The subcommand and its options.
#[derive(Debug)]
pub enum Command {
    /// Scrape a GitHub repo or any website for files to download.
    Scrape {
        /// GitHub repo URL or any website URL to crawl.
        url: String,
        /// File types to hunt.
        kinds: Vec<FileKind>,
        /// Output directory for downloaded files.
        out: PathBuf,
        /// Link-depth to crawl (web mode only; 0 = landing page only).
        depth: usize,
        /// Milliseconds of delay between each download request.
        delay: Option<u64>,
        /// Append to partially downloaded files instead of re-downloading.
        resume: bool,
        /// Retry attempts per file before giving up.
        retries: u32,
        /// List files without downloading (dry run).
        list: bool,
        /// Only include files whose name contains this string (case-insensitive).
        filter: Option<String>,
        /// GitHub personal access token.
        token: Option<String>,
    },
    /// Search free book sources and optionally download results.
    Find {
        /// Book or document title to search for.
        query: String,
        /// Preview results without downloading.
        list: bool,
        /// Download every result without asking.
        get: bool,
        /// Restrict search to a single source (archive | openlibrary | gutenberg | annas).
        source: Option<String>,
        /// Output directory for downloaded files.
        out: PathBuf,
        /// GitHub personal access token (not normally needed for find).
        token: Option<String>,
    },
}

} // verus!
