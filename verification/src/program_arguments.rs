use vstd::prelude::*;

verus! {

/// Which mode one invocation of the surrounding shell runs in: an
/// interactive prompt, one expression given on the command line, or a
/// file whose contents are evaluated as one unit.  The shell owns the
/// flag parsing and hands the outcome over in this record.
pub struct ProgramArguments {
    /// Interactive mode.
    pub interactive: bool,
    /// Command-line mode: the expression to evaluate.
    pub command_line: Option<String>,
    /// File-input mode: the file whose contents to evaluate.
    pub filename: Option<String>,
}

impl ProgramArguments {
    /// Arguments that select no mode at all.
    pub fn new() -> (r: ProgramArguments)
        ensures
            !r.interactive,
            r.command_line is None,
            r.filename is None,
    {
        ProgramArguments { interactive: false, command_line: None, filename: None }
    }
}

} // verus!
