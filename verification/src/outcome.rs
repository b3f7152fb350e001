//! Errors, the outcome of one document, and the summary of a batch.

use vstd::prelude::*;
use crate::text::{join, join_lines, views};

verus! {

/// Why processing stopped.
#[derive(Debug, Clone, PartialEq, Eq)]
pub enum Error {
    /// The rendered text could not be split into documents, or a directive
    /// is not a valid one.
    Parse(String),
    /// An injection names a file that does not exist. Holds the name.
    MissingInjectionTarget(String),
    /// A glob pattern is not a valid one.
    InvalidGlobPattern(String),
    /// Reading or writing failed.
    Io(String),
}

impl Error {
    /// The text of the error.
    pub open spec fn message_text(self) -> Seq<char> {
        match self {
            Error::Parse(text) => text@,
            Error::MissingInjectionTarget(name) => "cannot inject into "@ + name@
                + ": file does not exist"@,
            Error::InvalidGlobPattern(pattern) => "invalid glob pattern: "@ + pattern@,
            Error::Io(text) => text@,
        }
    }

    /// The text of the error, for display.
    pub fn message(&self) -> (r: String)
        ensures
            r@ == self.message_text(),
    {
        match self {
            Error::Parse(text) => text.clone(),
            Error::MissingInjectionTarget(name) => {
                let mut out = String::from_str("cannot inject into ");
                out.append(name.as_str());
                out.append(": file does not exist");
                out
            },
            Error::InvalidGlobPattern(pattern) => {
                let mut out = String::from_str("invalid glob pattern: ");
                out.append(pattern.as_str());
                out
            },
            Error::Io(text) => text.clone(),
        }
    }
}

/// The outcome of one document, and of a batch of them.
#[derive(Debug, Clone, PartialEq, Eq)]
pub enum GenResult {
    Skipped,
    Generated { message: Option<String> },
}

impl GenResult {
    /// The message that this outcome adds to a summary: that of a
    /// generated document, where it has one and it is not empty.
    pub open spec fn contribution(self) -> Option<Seq<char>> {
        match self {
            GenResult::Generated { message: Some(m) } => if m@.len() > 0 {
                Some(m@)
            } else {
                None
            },
            _ => None,
        }
    }
}

/// The messages that the first `n` outcomes add to a summary, in order.
pub open spec fn messages_upto(results: Seq<GenResult>, n: int) -> Seq<Seq<char>>
    decreases n,
{
    if n <= 0 {
        Seq::<Seq<char>>::empty()
    } else {
        let before = messages_upto(results, n - 1);
        match results[n - 1].contribution() {
            Some(m) => before.push(m),
            None => before,
        }
    }
}

/// The message of the summary: the messages of the batch, one per line.
pub open spec fn merged_message(results: Seq<GenResult>) -> Seq<char> {
    join_lines(messages_upto(results, results.len() as int))
}

/// Folds the outcomes of a batch into one. The summary is always
/// `Generated`, also for an empty batch and for one whose documents were all
/// skipped; its message joins the non-empty messages of the generated
/// documents with newlines.
pub fn merge_results(results: &Vec<GenResult>) -> (r: GenResult)
    ensures
        r matches GenResult::Generated { message: Some(m) } && m@ == merged_message(results@),
{
    let mut messages: Vec<String> = Vec::new();
    let mut i: usize = 0;
    proof {
        assert(views(messages@) =~= messages_upto(results@, 0));
    }
    while i < results.len()
        invariant
            i <= results.len(),
            views(messages@) == messages_upto(results@, i as int),
        decreases results.len() - i,
    {
        let ghost before = views(messages@);
        match &results[i] {
            GenResult::Generated { message: Some(m) } => {
                if m.as_str().unicode_len() > 0 {
                    messages.push(String::from_str(m.as_str()));
                    proof {
                        assert(views(messages@) =~= before.push(m@));
                    }
                }
            },
            _ => {},
        }
        i += 1;
    }
    GenResult::Generated { message: Some(join(&messages)) }
}

} // verus!
