//! One run of the program, as a state machine without I/O.
//!
//! The caller performs each `Action` and reports what came of it as an `Event`;
//! `start` and `step` decide what happens next.

use crate::fix::{fix_text, fixed_text};
use crate::words::APOSTROPHE;
use vstd::prelude::*;

verus! {

/// The text that `Action::ShowHelp` asks to be printed.
pub const HELP_TEXT: &'static str = "Dictionary Fixer\n\
    Summary:  Given an input file, strip out all words that contain non-alphebetic characters.\n\
    \n\
    dict-fixer <input file> <output file> [-h]\n\
    \tinput file:  New line delimited dictionary to be read in.\n\
    \toutput file:  File to be created/overwritten with data from input file.\n\
    \t-h:  Prints this help function.";

/// Why a run failed.
#[derive(Debug, PartialEq, Eq)]
pub enum FixError {
    /// The input file could not be read as text.
    ReadError,
    /// The output file at `path` could not be written.
    WriteError { path: String },
}

/// What the run is waiting for.
#[derive(Debug, PartialEq, Eq)]
pub enum Stage {
    /// The input file is being read; the result goes to `output`.
    Reading { output: String },
    /// The fixed text is being written to `output`.
    Writing { output: String },
    /// Nothing is left to do.
    Done,
}

/// What the caller has to do next.
#[derive(Debug, PartialEq, Eq)]
pub enum Action {
    /// Print the help text and stop.
    ShowHelp,
    /// Read the file at `path` as text and report `ReadOk` or `ReadFailed`.
    Read { path: String },
    /// Replace the file at `path` by `content` and report `WriteOk` or `WriteFailed`.
    Write { path: String, content: String },
    /// Print the message of `error` and stop.
    Report { error: FixError },
    /// Stop.
    Exit,
}

/// What came of the last action.
#[derive(Debug, PartialEq, Eq)]
pub enum Event {
    /// The input file held `text`.
    ReadOk { text: String },
    /// The input file is missing, unreadable or not valid text.
    ReadFailed,
    /// The output file was written.
    WriteOk,
    /// The output file could not be created or written.
    WriteFailed,
}

/// The arguments, the program's name among them, ask for the help text: there are not
/// exactly three of them, or one of them is `-h`.
pub open spec fn asks_for_help(args: Seq<Seq<char>>) -> bool {
    args.len() != 3 || args.contains("-h"@)
}

impl FixError {
    /// The message that reports this error.
    pub open spec fn message_text(self) -> Seq<char> {
        match self {
            FixError::ReadError => "Error, failed to read in file"@,
            FixError::WriteError { path } => "Did not write to "@ + path@,
        }
    }

    /// The message that reports this error. A write error names the file.
    pub fn message(&self) -> (text: String)
        ensures
            text@ == self.message_text(),
    {
        match self {
            FixError::ReadError => "Error, failed to read in file".to_owned(),
            FixError::WriteError { path } => {
                let mut text = "Did not write to ".to_owned();
                text.append(path.as_str());
                text
            },
        }
    }
}

/// Tells whether one of `args` is the help flag.
fn has_help_flag(args: &Vec<String>) -> (found: bool)
    ensures
        found == args.deep_view().contains("-h"@),
{
    let flag = "-h".to_owned();
    let mut i: usize = 0;
    while i < args.len()
        invariant
            i <= args.len(),
            flag@ == "-h"@,
            forall|j: int| 0 <= j < i ==> args.deep_view()[j] != "-h"@,
        decreases args.len() - i,
    {
        if args[i] == flag {
            assert(args.deep_view()[i as int] == "-h"@);
            return true;
        }
        i += 1;
    }
    false
}

/// Decides from the command line, the program's name included, how the run begins:
/// with the help text, or by reading the input file named by the first argument. The
/// second argument names the output file.
pub fn start(args: &Vec<String>) -> (next: (Stage, Action))
    ensures
        asks_for_help(args.deep_view()) ==> next.0 is Done && next.1 is ShowHelp,
        !asks_for_help(args.deep_view()) ==> ({
            &&& next.0 matches Stage::Reading { output }
            &&& output@ == args[2]@
            &&& next.1 matches Action::Read { path }
            &&& path@ == args[1]@
        }),
{
    if args.len() != 3 || has_help_flag(args) {
        (Stage::Done, Action::ShowHelp)
    } else {
        (Stage::Reading { output: args[2].clone() }, Action::Read { path: args[1].clone() })
    }
}

/// Decides what follows `event` at `stage`.
///
/// A text that was read is cleaned and goes to the output file. A failed read is
/// reported and ends the run before anything is written. A failed write is reported
/// with the name of the output file. A write that succeeded ends the run, and so does
/// an event that `stage` does not wait for.
pub fn step(stage: Stage, event: Event) -> (next: (Stage, Action))
    ensures
        (match (stage, event) {
            (Stage::Reading { output }, Event::ReadOk { text }) => {
                &&& next.0 matches Stage::Writing { output: target }
                &&& target@ == output@
                &&& next.1 matches Action::Write { path, content }
                &&& path@ == output@
                &&& content@ == fixed_text(text@)
            },
            (Stage::Reading { .. }, Event::ReadFailed) => {
                &&& next.0 is Done
                &&& next.1 matches Action::Report { error }
                &&& error is ReadError
            },
            (Stage::Writing { output }, Event::WriteFailed) => {
                &&& next.0 is Done
                &&& next.1 matches Action::Report { error }
                &&& error matches FixError::WriteError { path }
                &&& path@ == output@
            },
            _ => next.0 is Done && next.1 is Exit,
        }),
        next.1 is Write ==> stage is Reading && event is ReadOk,
        (next.1 matches Action::Write { content, .. } ==> !content@.contains(APOSTROPHE)),
        !(next.1 is ShowHelp) && !(next.1 is Read),
{
    match (stage, event) {
        (Stage::Reading { output }, Event::ReadOk { text }) => {
            let content = fix_text(text.as_str());
            let path = output.clone();
            (Stage::Writing { output }, Action::Write { path, content })
        },
        (Stage::Reading { .. }, Event::ReadFailed) => {
            (Stage::Done, Action::Report { error: FixError::ReadError })
        },
        (Stage::Writing { output }, Event::WriteFailed) => {
            (Stage::Done, Action::Report { error: FixError::WriteError { path: output } })
        },
        _ => (Stage::Done, Action::Exit),
    }
}

} // verus!
