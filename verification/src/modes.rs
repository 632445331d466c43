//! The editor's top-level interaction modes and their per-mode
//! options.

use vstd::prelude::*;

use crate::nodegraph::ComponentRid;

verus! {

/// The top-level interaction mode.
#[derive(Debug, Clone, Copy, PartialEq, Eq, Structural)]
pub enum Mode {
    Running,
    Adding,
    Editing,
    Deleting,
}

impl Default for Mode {
    fn default() -> (r: Self)
        ensures
            r == Mode::Running,
    {
        Mode::Running
    }
}

/// What the adding mode is about to place.
#[derive(Debug, Clone, Copy, PartialEq, Eq, Structural)]
pub enum AddingOptions {
    Cable,
    ComponentRid(ComponentRid),
}

impl Default for AddingOptions {
    fn default() -> (r: Self)
        ensures
            r == AddingOptions::Cable,
    {
        AddingOptions::Cable
    }
}

/// How the editing mode behaves.
#[derive(Debug, Clone, Copy, PartialEq, Eq, Structural)]
pub enum EditingOptions {
    Basic,
}

impl Default for EditingOptions {
    fn default() -> (r: Self)
        ensures
            r == EditingOptions::Basic,
    {
        EditingOptions::Basic
    }
}

/// The mode together with both option sets, so switching modes keeps
/// each mode's last choice.
#[derive(Debug, Clone, Copy)]
pub struct ModeState {
    pub mode: Mode,
    pub add_opt: AddingOptions,
    pub edit_opt: EditingOptions,
}

impl Default for ModeState {
    fn default() -> (r: Self)
        ensures
            r.mode == Mode::Running,
            r.add_opt == AddingOptions::Cable,
            r.edit_opt == EditingOptions::Basic,
    {
        ModeState {
            mode: Mode::Running,
            add_opt: AddingOptions::Cable,
            edit_opt: EditingOptions::Basic,
        }
    }
}

} // verus!
