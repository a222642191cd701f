//! Follower and following counts for X accounts: the checks, parsing and
//! bookkeeping behind the `xcount` command-line tool.
pub mod appconfig;
pub mod arg;
pub mod crawl;
pub mod entity;
pub mod output;
pub mod scrape;
pub mod source;
pub mod text;
pub mod time;
pub mod utils;
