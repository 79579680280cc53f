//! The sections of the `info` command.

use crate::textops::str_equal;
use vstd::prelude::*;

verus! {

/// Which part of the project information to show.
#[derive(Debug, Clone, Copy, PartialEq, Eq, Structural)]
pub enum InfoCommand {
    Overview,
    States,
    Fields,
    Config,
    Stats,
    Dirs,
}

/// The section a subcommand names; no name, or an unknown one, gives the overview.
pub open spec fn info_command_of(s: Option<Seq<char>>) -> InfoCommand {
    match s {
        Some(t) => if t == "states"@ {
            InfoCommand::States
        } else if t == "fields"@ || t == "metadata"@ {
            InfoCommand::Fields
        } else if t == "config"@ {
            InfoCommand::Config
        } else if t == "stats"@ {
            InfoCommand::Stats
        } else if t == "dirs"@ || t == "structure"@ {
            InfoCommand::Dirs
        } else {
            InfoCommand::Overview
        },
        None => InfoCommand::Overview,
    }
}

impl InfoCommand {
    /// The section named by an optional subcommand.
    pub fn from_str(s: Option<&str>) -> (r: Self)
        ensures
            r == info_command_of(match s {
                Some(t) => Some(t@),
                None => None,
            }),
    {
        match s {
            Some(t) => if str_equal(t, "states") {
                InfoCommand::States
            } else if str_equal(t, "fields") || str_equal(t, "metadata") {
                InfoCommand::Fields
            } else if str_equal(t, "config") {
                InfoCommand::Config
            } else if str_equal(t, "stats") {
                InfoCommand::Stats
            } else if str_equal(t, "dirs") || str_equal(t, "structure") {
                InfoCommand::Dirs
            } else {
                InfoCommand::Overview
            },
            None => InfoCommand::Overview,
        }
    }
}

} // verus!
