//! Pointer-driven editor actions: what gesture is in flight, which
//! mode the toolbar is in, and which component kind the palette has
//! picked.

use vstd::prelude::*;

use crate::components::{And, Component, Constant, DebugOutput, Not, Or};
use crate::graph::ComponentId;
use crate::nodegraph::CableId;

verus! {

/// The gesture in flight.
#[derive(Debug)]
pub enum ActionState {
    Idle,
    CableDraw(Vec<(CableId, usize)>),
    ComponentMove(ComponentId),
}

impl Default for ActionState {
    fn default() -> (r: Self)
        ensures
            r is Idle,
    {
        ActionState::Idle
    }
}

/// The toolbar mode.
#[derive(Debug, Clone, Copy, PartialEq, Eq, Structural)]
pub enum Mode {
    Running,
    CableAdd,
    ComponentAdd,
    Editing,
}

impl Default for Mode {
    fn default() -> (r: Self)
        ensures
            r == Mode::Running,
    {
        Mode::Running
    }
}

/// The component kind picked in the palette.
#[derive(Debug, Clone, Copy, PartialEq, Eq, Structural)]
pub enum ChoosenComponent {
    And,
    Or,
    Not,
    Constant,
    DebugOutput,
}

/// The component instance a palette pick stands for; stateful kinds
/// start in their default state.
pub fn component_from_choosen(choosen: ChoosenComponent) -> (r: Component)
    ensures
        r == (match choosen {
            ChoosenComponent::And => Component::And(And),
            ChoosenComponent::Or => Component::Or(Or),
            ChoosenComponent::Not => Component::Not(Not),
            ChoosenComponent::Constant => Component::Constant(Constant { state: false }),
            ChoosenComponent::DebugOutput => Component::DebugOutput(DebugOutput { state: false }),
        }),
{
    match choosen {
        ChoosenComponent::And => Component::And(And),
        ChoosenComponent::Or => Component::Or(Or),
        ChoosenComponent::Not => Component::Not(Not),
        ChoosenComponent::Constant => Component::Constant(Constant { state: false }),
        ChoosenComponent::DebugOutput => Component::DebugOutput(DebugOutput { state: false }),
    }
}

} // verus!
