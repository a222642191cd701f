//! Where the usernames come from: a comma-separated list or an input file.
use vstd::prelude::*;
use crate::text::{lines, lines_of, split_chars, split_on, texts};

verus! {

/// The source of the usernames: the `--username` list, or the text of the
/// `--input` file (one username per line).
#[derive(Clone, Debug)]
pub struct Source {
    /// Comma-separated usernames.
    pub username: Option<String>,
    /// The contents of the input file.
    pub input: Option<String>,
}

/// Why no usernames could be had from a [`Source`].
#[derive(Clone, Copy, Debug, PartialEq, Eq)]
pub enum SourceError {
    /// The input file holds nothing.
    EmptyFile,
    /// Neither a list nor a file was given.
    NoInput,
}

impl SourceError {
    /// The message that reports the error.
    pub fn message(&self) -> (m: &'static str)
        ensures
            m@ == source_error_message(*self),
    {
        match self {
            SourceError::EmptyFile => "file is empty",
            SourceError::NoInput => "no input",
        }
    }
}

/// The message of each [`SourceError`].
pub open spec fn source_error_message(e: SourceError) -> Seq<char> {
    match e {
        SourceError::EmptyFile => "file is empty"@,
        SourceError::NoInput => "no input"@,
    }
}

impl Source {
    /// The usernames to fetch: the list split at every comma (empty pieces
    /// kept), else the lines of the input file, which must not be empty.
    pub fn get_usernames(&self) -> (r: Result<Vec<String>, SourceError>)
        ensures
            match (self.username, self.input) {
                (Some(list), _) => r matches Ok(v) && texts(v@) == split_on(list@, ','),
                (None, Some(contents)) => if contents@.len() == 0 {
                    r == Err::<Vec<String>, SourceError>(SourceError::EmptyFile)
                } else {
                    r matches Ok(v) && texts(v@) == lines_of(contents@)
                },
                (None, None) => r == Err::<Vec<String>, SourceError>(SourceError::NoInput),
            },
    {
        if let Some(list) = &self.username {
            Ok(split_chars(list.as_str(), ','))
        } else if let Some(contents) = &self.input {
            if contents.as_str().is_empty() {
                return Err(SourceError::EmptyFile);
            }
            Ok(lines(contents.as_str()))
        } else {
            Err(SourceError::NoInput)
        }
    }
}

} // verus!
