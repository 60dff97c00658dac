//! marcopolo: a multi-type file hunter and downloader with a free-book
//! search engine. This library holds its logic: which files a GitHub
//! repository, a web site or a sitemap offers, how a crawl proceeds, what the
//! book sources answer, how downloads resume and retry, and how the user's
//! input is read. The network, file and terminal work is left to the caller.
use vstd::prelude::*;

pub mod cli;
pub mod crawl;
pub mod dedup;
pub mod download;
pub mod find;
pub mod github;
pub mod html;
pub mod kinds;
pub mod links;
pub mod parsing;
pub mod selection;
pub mod session;
pub mod slug;
pub mod text;
pub mod validation;
pub mod web_search;

verus! {
} // verus!
