//! What an interactive driver decides about a line that it has read.
use vstd::prelude::*;
use crate::character::same_text;

verus! {

/// The command that ends an interactive session: the letter `q` alone, in
/// either case.
pub open spec fn quit_command(line: Seq<char>) -> bool {
    line == "q"@ || line == "Q"@
}

/// Tells the command that ends an interactive session from a line that is to
/// be scanned. The line comes without its line ending.
pub fn is_quit_command(line: &str) -> (quit: bool)
    ensures
        quit == quit_command(line@),
{
    same_text(line, "q") || same_text(line, "Q")
}

} // verus!
