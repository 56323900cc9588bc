//! The arguments that every command takes.

use crate::cli::json_log_behaviour::{JsonLogBehaviour, JsonLogBehaviourView};
use crate::cli::to_args::strings_are;
use crate::logging::Level;
use crate::number::{decimal_text, u32_text};
use crate::text::string_of;
use vstd::prelude::*;
use vstd::string::StringExecFns;

verus! {

/// The arguments that every command takes.
#[derive(PartialEq, Debug)]
pub struct GlobalArgs {
    /// Enable debug logging.
    pub debug: bool,
    /// Emit structured JSON logs alongside stderr output, into the file
    /// named here; the empty name asks for a generated one.
    pub json: Option<String>,
    /// Console PID for console reuse.
    pub console_pid: Option<u32>,
}

/// The arguments that give back the values `debug`, `json` and
/// `console_pid`.
pub open spec fn global_arguments(
    debug: bool,
    json: Option<Seq<char>>,
    console_pid: Option<u32>,
) -> Seq<Seq<char>> {
    (if debug {
        seq!["--debug"@]
    } else {
        Seq::empty()
    }) + (match json {
        None => Seq::empty(),
        Some(path) => if path.len() == 0 {
            seq!["--json"@]
        } else {
            seq!["--json"@, path]
        },
    }) + (match console_pid {
        None => Seq::empty(),
        Some(pid) => seq!["--console-pid"@, decimal_text(pid as nat)],
    })
}

impl Default for GlobalArgs {
    /// No flag given: no debug logging, no JSON log, no console to reuse.
    fn default() -> (r: GlobalArgs)
        ensures
            !r.debug,
            r.json is None,
            r.console_pid is None,
    {
        GlobalArgs { debug: false, json: None, console_pid: None }
    }
}

impl GlobalArgs {
    /// The value of the `--json` flag.
    pub open spec fn json(&self) -> Option<Seq<char>> {
        match self.json {
            Some(s) => Some(s@),
            None => None,
        }
    }

    /// The arguments that give back these values.
    pub open spec fn arguments(&self) -> Seq<Seq<char>> {
        global_arguments(self.debug, self.json(), self.console_pid)
    }

    /// The global arguments with the given values.
    pub fn new(debug: bool, json: Option<String>, console_pid: Option<u32>) -> (r: GlobalArgs)
        ensures
            r.debug == debug,
            r.json() == match json {
                Some(s) => Some(s@),
                None => None,
            },
            r.console_pid == console_pid,
    {
        GlobalArgs { debug, json, console_pid }
    }

    /// The log level: debug where it was asked for, else info.
    #[must_use]
    pub fn log_level(&self) -> (r: Level)
        ensures
            r == if self.debug {
                Level::Debug
            } else {
                Level::Info
            },
    {
        if self.debug {
            Level::Debug
        } else {
            Level::Info
        }
    }

    /// How JSON logs are to be handled: not at all without the flag, at a
    /// generated path for the flag alone, else at the path given.
    #[must_use]
    pub fn json_log_behaviour(&self) -> (r: JsonLogBehaviour)
        ensures
            r@ == match self.json() {
                None => JsonLogBehaviourView::Disabled,
                Some(path) => if path.len() == 0 {
                    JsonLogBehaviourView::AutomaticPath
                } else {
                    JsonLogBehaviourView::Path(path)
                },
            },
    {
        match &self.json {
            None => JsonLogBehaviour::Disabled,
            Some(s) => if s.as_str().is_empty() {
                JsonLogBehaviour::AutomaticPath
            } else {
                JsonLogBehaviour::Path(s.clone())
            },
        }
    }

    /// The arguments that give back these values.
    pub fn to_args(&self) -> (r: Vec<String>)
        ensures
            strings_are(r@, self.arguments()),
    {
        let mut args: Vec<String> = Vec::new();
        let ghost mut shown: Seq<Seq<char>> = Seq::empty();
        if self.debug {
            args.push(String::from_str("--debug"));
            proof {
                shown = shown.push("--debug"@);
            }
        }
        let ghost after_debug = shown;
        match &self.json {
            None => {},
            Some(s) => {
                args.push(String::from_str("--json"));
                proof {
                    shown = shown.push("--json"@);
                }
                if !s.as_str().is_empty() {
                    args.push(s.clone());
                    proof {
                        shown = shown.push(s@);
                    }
                }
            },
        }
        let ghost after_json = shown;
        if let Some(pid) = self.console_pid {
            args.push(String::from_str("--console-pid"));
            args.push(string_of(u32_text(pid).as_slice()));
            proof {
                shown = shown.push("--console-pid"@).push(decimal_text(pid as nat));
            }
        }
        proof {
            assert(shown =~= self.arguments());
        }
        args
    }
}

} // verus!
