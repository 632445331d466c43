//! What the editor currently has selected: cable points and
//! components, plus the gesture being performed on them.

use vstd::prelude::*;

use crate::graph::ComponentId;
use crate::nodegraph::CableId;

verus! {

/// The gesture in progress on the current selection.
#[derive(Debug, Clone, Copy, PartialEq, Eq, Structural)]
pub enum SelectionAction {
    Nothing,
    Moving,
}

impl Default for SelectionAction {
    fn default() -> (r: Self)
        ensures
            r == SelectionAction::Nothing,
    {
        SelectionAction::Nothing
    }
}

/// The selected cable points and components.
#[derive(Debug, Clone)]
pub struct Selection {
    pub cables: Vec<(CableId, usize)>,
    pub comps: Vec<ComponentId>,
}

impl Default for Selection {
    fn default() -> (r: Self)
        ensures
            r.cables@ == Seq::<(CableId, usize)>::empty(),
            r.comps@ == Seq::<ComponentId>::empty(),
    {
        Selection { cables: Vec::new(), comps: Vec::new() }
    }
}

impl Selection {
    /// Whether nothing at all is selected.
    pub fn is_empty(&self) -> (r: bool)
        ensures
            r == (self.cables@.len() == 0 && self.comps@.len() == 0),
    {
        self.cables.is_empty() && self.comps.is_empty()
    }
}

/// The selection together with the gesture on it.
#[derive(Debug, Clone)]
pub struct SelectionState {
    pub action: SelectionAction,
    pub selection: Selection,
}

impl Default for SelectionState {
    fn default() -> (r: Self)
        ensures
            r.action == SelectionAction::Nothing,
            r.selection.cables@ == Seq::<(CableId, usize)>::empty(),
            r.selection.comps@ == Seq::<ComponentId>::empty(),
    {
        SelectionState { action: SelectionAction::Nothing, selection: Default::default() }
    }
}

} // verus!
