use vstd::prelude::*;
use crate::paths::strings_view;

verus! {

/// One step of building the output tree; paths are components below the output root.
pub enum Action {
    /// Create the directory and any missing ancestors.
    CreateDir(Vec<String>),
    /// Write a file with these bytes; `true` asks for the executable mode.
    WriteFile(Vec<String>, Vec<u8>, bool),
}

pub enum ActionView {
    CreateDir(Seq<Seq<char>>),
    WriteFile(Seq<Seq<char>>, Seq<u8>, bool),
}

impl View for Action {
    type V = ActionView;

    open spec fn view(&self) -> ActionView {
        match self {
            Action::CreateDir(p) => ActionView::CreateDir(strings_view(p@)),
            Action::WriteFile(p, d, x) => ActionView::WriteFile(strings_view(p@), d@, *x),
        }
    }
}

impl ActionView {
    /// The path that the action creates or writes.
    pub open spec fn path(self) -> Seq<Seq<char>> {
        match self {
            ActionView::CreateDir(p) => p,
            ActionView::WriteFile(p, _, _) => p,
        }
    }
}

pub open spec fn actions_view(v: Seq<Action>) -> Seq<ActionView> {
    v.map_values(|a: Action| a@)
}

} // verus!
