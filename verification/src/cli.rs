//! The command line as plain values: which command was given, on which
//! target, with which switches.

use vstd::prelude::*;
use vstd::string::*;
use crate::path::{parsed, FilePath};

verus! {

/// The commands.
pub enum Commands {
    /// Report the misplaced files without moving anything.
    Check {
        /// The directory to restrict the run to; all rules run without one.
        target: Option<String>,
        /// Print one bare line for each misplaced file and nothing else.
        list: bool,
    },
    /// Move the misplaced files to where their rules send them.
    AutoMove {
        /// The directory to restrict the run to; all rules run without one.
        target: Option<String>,
        /// Report what would be moved without moving it.
        dry_run: bool,
    },
}

/// The arguments of one invocation.
pub struct CLI {
    /// The configuration file to read instead of the default one.
    pub config: Option<String>,
    /// The command to run.
    pub command: Commands,
}

/// What a command asks of a run.
#[derive(Clone, Copy, PartialEq, Eq, Structural, Debug)]
pub struct RunMode {
    /// Carry the plan out, rather than only make it.
    pub execute: bool,
    /// Leave the disk alone while carrying the plan out.
    pub dry_run: bool,
    /// Report in bare lines.
    pub list: bool,
}

impl Commands {
    /// The target as it was written, if one was given.
    pub open spec fn target_text(self) -> Option<Seq<char>> {
        match self {
            Commands::Check { target, .. } => match target {
                Some(text) => Some(text@),
                None => None,
            },
            Commands::AutoMove { target, .. } => match target {
                Some(text) => Some(text@),
                None => None,
            },
        }
    }

    /// What the command asks of a run: `check` only plans and may list;
    /// `auto-move` carries the plan out, for real or dry, and never lists.
    pub open spec fn mode_spec(self) -> RunMode {
        match self {
            Commands::Check { list, .. } => RunMode { execute: false, dry_run: false, list },
            Commands::AutoMove { dry_run, .. } => RunMode { execute: true, dry_run, list: false },
        }
    }

    /// What the command asks of a run.
    pub fn mode(&self) -> (out: RunMode)
        ensures
            out == self.mode_spec(),
    {
        match self {
            Commands::Check { list, .. } => RunMode { execute: false, dry_run: false, list: *list },
            Commands::AutoMove { dry_run, .. } => RunMode {
                execute: true,
                dry_run: *dry_run,
                list: false,
            },
        }
    }

    /// The target as a path, if one was given.
    pub fn target(&self) -> (out: Option<FilePath>)
        ensures
            out is Some == self.target_text() is Some,
            out is Some ==> out->0@ == parsed(self.target_text()->0),
    {
        let text = match self {
            Commands::Check { target, .. } => target,
            Commands::AutoMove { target, .. } => target,
        };
        match text {
            Some(text) => Some(FilePath::parse(text.as_str())),
            None => None,
        }
    }
}

} // verus!
