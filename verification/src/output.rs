//! One result per account, the output formats, and the name of the file written.
use vstd::prelude::*;
use crate::text::str_equals;
use crate::utils::message;

verus! {

/// The format of the output file.
#[derive(Clone, Copy, Debug, PartialEq, Eq)]
pub enum OutputKind {
    Json,
    Csv,
    Excel,
}

/// The counts found for one account.
#[derive(Clone, Debug)]
pub struct CrawlResult {
    pub username: String,
    pub followers: u64,
    pub following: u64,
}

impl CrawlResult {
    /// A result for `username` with the given follower and following counts.
    pub fn new(username: String, followers: u64, following: u64) -> (r: CrawlResult)
        ensures
            r.username == username,
            r.followers == followers,
            r.following == following,
    {
        CrawlResult { username, followers, following }
    }
}

/// The output format that the `--format` value `s` names, or the message that
/// refuses it.
pub open spec fn format_named(s: Seq<char>) -> Result<OutputKind, Seq<char>> {
    if s == "json"@ {
        Ok(OutputKind::Json)
    } else if s == "csv"@ {
        Ok(OutputKind::Csv)
    } else if s == "excel"@ {
        Ok(OutputKind::Excel)
    } else {
        Err("Invalid format: "@ + s)
    }
}

/// Reads the `--format` value: `json`, `csv` or `excel`, exactly.
pub fn parse_format(s: &str) -> (r: Result<OutputKind, String>)
    ensures
        r matches Ok(k) ==> format_named(s@) == Ok::<OutputKind, Seq<char>>(k),
        r matches Err(e) ==> format_named(s@) == Err::<OutputKind, Seq<char>>(e@),
{
    if str_equals(s, "json") {
        return Ok(OutputKind::Json);
    }
    if str_equals(s, "csv") {
        return Ok(OutputKind::Csv);
    }
    if str_equals(s, "excel") {
        return Ok(OutputKind::Excel);
    }
    Err(message("Invalid format: ", s))
}

/// The file extension of each format.
pub open spec fn extension_of(kind: OutputKind) -> Seq<char> {
    match kind {
        OutputKind::Json => "json"@,
        OutputKind::Csv => "csv"@,
        OutputKind::Excel => "xlsx"@,
    }
}

/// The name of the output file for a run stamped `stamp`: `output-<stamp>.<ext>`.
pub open spec fn output_file_name(kind: OutputKind, stamp: Seq<char>) -> Seq<char> {
    "output-"@ + stamp + "."@ + extension_of(kind)
}

impl OutputKind {
    /// The file extension of this format: `json`, `csv` or `xlsx`.
    pub fn extension(&self) -> (e: &'static str)
        ensures
            e@ == extension_of(*self),
    {
        match self {
            OutputKind::Json => "json",
            OutputKind::Csv => "csv",
            OutputKind::Excel => "xlsx",
        }
    }

    /// The name under which `export` writes the results of a run stamped `stamp`.
    pub fn export_file_name(&self, stamp: &str) -> (name: String)
        ensures
            name@ == output_file_name(*self, stamp@),
    {
        let mut name = String::from_str("output-");
        name.append(stamp);
        name.append(".");
        name.append(self.extension());
        name
    }
}

} // verus!
