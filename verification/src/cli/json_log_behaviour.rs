//! Where structured JSON logs go.

use vstd::prelude::*;

verus! {

/// What the `--json` flag asks for.
#[derive(Debug, PartialEq, Eq)]
pub enum JsonLogBehaviour {
    /// No JSON log.
    Disabled,
    /// A JSON log at the given path.
    Path(String),
    /// A JSON log at a path that the program picks.
    AutomaticPath,
}

/// What the `--json` flag asks for, as a mathematical value.
pub enum JsonLogBehaviourView {
    Disabled,
    Path(Seq<char>),
    AutomaticPath,
}

impl View for JsonLogBehaviour {
    type V = JsonLogBehaviourView;

    open spec fn view(&self) -> JsonLogBehaviourView {
        match self {
            JsonLogBehaviour::Disabled => JsonLogBehaviourView::Disabled,
            JsonLogBehaviour::Path(p) => JsonLogBehaviourView::Path(p@),
            JsonLogBehaviour::AutomaticPath => JsonLogBehaviourView::AutomaticPath,
        }
    }
}

impl JsonLogBehaviour {
    /// The path that was given for the JSON log, if one was.
    pub fn given_path(&self) -> (r: Option<&String>)
        ensures
            match self@ {
                JsonLogBehaviourView::Path(p) => r is Some && r->Some_0@ == p,
                _ => r is None,
            },
    {
        match self {
            JsonLogBehaviour::Path(p) => Some(p),
            _ => None,
        }
    }
}

} // verus!
