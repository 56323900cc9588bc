//! The command line as a value: global arguments and one command.

pub mod command;
pub mod global_args;
pub mod json_log_behaviour;
pub mod to_args;

pub use command::Command;

use crate::cli::command::Invocation;
use crate::cli::global_args::GlobalArgs;
use crate::cli::json_log_behaviour::JsonLogBehaviourView;
use crate::cli::to_args::{join_with_spaces, space_joined, strings_are};
use crate::logging::Level;
use vstd::prelude::*;

verus! {

/// A parsed command line.
#[derive(PartialEq, Debug)]
pub struct Cli {
    pub global_args: GlobalArgs,
    pub command: Command,
}

impl Cli {
    /// The arguments that give back this command line: the global ones,
    /// then the command's.
    pub open spec fn arguments(&self) -> Seq<Seq<char>> {
        self.global_args.arguments() + self.command.arguments()
    }

    /// Decides what is to be done for this command line.
    pub fn invoke(self) -> (r: Invocation)
        ensures
            r.log_level == if self.global_args.debug {
                Level::Debug
            } else {
                Level::Info
            },
            r.json_log@ == match self.global_args.json() {
                None => JsonLogBehaviourView::Disabled,
                Some(path) => if path.len() == 0 {
                    JsonLogBehaviourView::AutomaticPath
                } else {
                    JsonLogBehaviourView::Path(path)
                },
            },
            self.command matches Command::RobocopyLogsTui(args) && r.request.path@
                == args.robocopy_log_file_path@ && r.request.skip_to_present
                == args.skip_to_present,
    {
        self.command.invoke(&self.global_args)
    }

    /// The command line as one would type it: the name of the executable
    /// `exe_name` and the arguments, with a space between each two.
    #[must_use]
    pub fn display_invocation(&self, exe_name: &str) -> (r: String)
        ensures
            r@ == space_joined(exe_name@, self.arguments()),
    {
        let args = self.to_args();
        join_with_spaces(exe_name, &args)
    }

    /// The arguments that give back this command line.
    pub fn to_args(&self) -> (r: Vec<String>)
        ensures
            strings_are(r@, self.arguments()),
    {
        let mut args = self.global_args.to_args();
        let mut own = self.command.to_args();
        args.append(&mut own);
        args
    }

    /// The arguments of the invocation; the same as `to_args`.
    pub fn args(&self) -> (r: Vec<String>)
        ensures
            strings_are(r@, self.arguments()),
    {
        self.to_args()
    }
}

} // verus!
