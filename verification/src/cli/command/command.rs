//! The commands of the program.

use crate::cli::command::robocopy_logs_tui::{RobocopyLogsTuiArgs, TailRequest};
use crate::cli::global_args::GlobalArgs;
use crate::cli::json_log_behaviour::{JsonLogBehaviour, JsonLogBehaviourView};
use crate::cli::to_args::strings_are;
use crate::logging::Level;
use vstd::prelude::*;
use vstd::string::StringExecFns;

verus! {

/// The commands of the program.
#[derive(PartialEq, Debug)]
pub enum Command {
    /// Follow a robocopy log as it grows.
    RobocopyLogsTui(RobocopyLogsTuiArgs),
}

/// What the program is to do for one command line: how it logs, and which
/// log it follows.
#[derive(PartialEq, Eq, Debug)]
pub struct Invocation {
    pub log_level: Level,
    pub json_log: JsonLogBehaviour,
    pub request: TailRequest,
}

impl Command {
    /// The arguments that give back this command.
    pub open spec fn arguments(&self) -> Seq<Seq<char>> {
        match self {
            Command::RobocopyLogsTui(args) => seq![
                "robocopy-logs-tui"@,
                args.robocopy_log_file_path@,
            ],
        }
    }

    /// Decides what is to be done for this command under the global
    /// arguments: logging is set up as they say, then the command runs.
    pub fn invoke(self, global_args: &GlobalArgs) -> (r: Invocation)
        ensures
            r.log_level == if global_args.debug {
                Level::Debug
            } else {
                Level::Info
            },
            r.json_log@ == match global_args.json() {
                None => JsonLogBehaviourView::Disabled,
                Some(path) => if path.len() == 0 {
                    JsonLogBehaviourView::AutomaticPath
                } else {
                    JsonLogBehaviourView::Path(path)
                },
            },
            self matches Command::RobocopyLogsTui(args) && r.request.path@
                == args.robocopy_log_file_path@ && r.request.skip_to_present
                == args.skip_to_present,
    {
        let json_log = global_args.json_log_behaviour();
        let log_level = global_args.log_level();
        match self {
            Command::RobocopyLogsTui(args) => Invocation {
                log_level,
                json_log,
                request: args.invoke(),
            },
        }
    }

    /// The arguments that give back this command: its name, then its own.
    pub fn to_args(&self) -> (r: Vec<String>)
        ensures
            strings_are(r@, self.arguments()),
    {
        let mut args: Vec<String> = Vec::new();
        match self {
            Command::RobocopyLogsTui(logs_args) => {
                args.push(String::from_str("robocopy-logs-tui"));
                let mut own = logs_args.to_args();
                args.append(&mut own);
            },
        }
        args
    }
}

} // verus!
