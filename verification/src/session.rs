//! The decisions of an interactive session over a corpus.

use vstd::prelude::*;
use crate::corpus::same_text;

verus! {

/// The number of documents that a session asks for with each query.
pub const RESULTS_PER_QUERY: usize = 5;

/// How a session gets its index.
#[derive(Clone, Copy, Debug, PartialEq, Eq, Structural)]
pub enum Startup {
    /// No document is stored yet: the documents are to be read, embedded and
    /// stored, and the index is to be built over them and saved.
    BuildIndex,
    /// Documents are stored: the index that was saved is to be loaded.
    LoadIndex,
}

/// What a session does at its start, by the number of documents that the
/// document store holds.
pub fn startup(stored_documents: u64) -> (action: Startup)
    ensures
        action == if stored_documents == 0 {
            Startup::BuildIndex
        } else {
            Startup::LoadIndex
        },
{
    if stored_documents == 0 {
        Startup::BuildIndex
    } else {
        Startup::LoadIndex
    }
}

/// What the user asks for with a line of input.
#[derive(Clone, Copy, Debug, PartialEq, Eq, Structural)]
pub enum Command {
    /// The session is to end.
    Quit,
    /// The line is a query.
    Search,
}

/// The text that ends a session.
pub open spec fn quit_word() -> Seq<char> {
    "q"@
}

/// What a line of input asks for, the line taken without the white space
/// around it: `q` ends the session, anything else is a query.
pub fn command(line: &str) -> (asked: Command)
    ensures
        asked == if line@ == quit_word() {
            Command::Quit
        } else {
            Command::Search
        },
{
    if same_text(line, "q") {
        Command::Quit
    } else {
        Command::Search
    }
}

} // verus!
