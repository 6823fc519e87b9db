//! The decisions of the interactive loop: what to do with a line read.

use crate::text::{same_text, trim_text, trimmed};
use vstd::prelude::*;

verus! {

/// What the interactive loop does with a line it has read.
#[derive(Debug)]
pub enum ReplStep {
    /// Nothing to run: read the next line.
    Skip,
    /// Stop the loop.
    Quit,
    /// Run this source text, then read the next line.
    Run(String),
}

/// The step for a line read: a blank line is skipped, `exit` or `quit`
/// ends the loop, and any other line is run without its surrounding white
/// space.
pub fn repl_step(line: &str) -> (r: ReplStep)
    ensures
        trimmed(line@).len() == 0 ==> r is Skip,
        (trimmed(line@) == "exit"@ || trimmed(line@) == "quit"@) ==> r is Quit,
        (trimmed(line@).len() != 0 && trimmed(line@) != "exit"@ && trimmed(line@) != "quit"@)
            ==> (r matches ReplStep::Run(s) && s@ == trimmed(line@)),
{
    proof {
        reveal_strlit("exit");
        reveal_strlit("quit");
    }
    let t = trim_text(line);
    if t.as_str().is_empty() {
        ReplStep::Skip
    } else if same_text(t.as_str(), "exit") || same_text(t.as_str(), "quit") {
        ReplStep::Quit
    } else {
        ReplStep::Run(t)
    }
}

} // verus!
