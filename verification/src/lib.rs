use vstd::prelude::*;

pub mod cli;
pub mod config;
pub mod converger;
pub mod inventory;
pub mod keep;
pub mod lifecycle;
pub mod paths;
pub mod provisioner;
pub mod report;
pub mod repository;
pub mod schema;
pub mod selector;
pub mod state;
pub mod text;
pub mod value;
pub mod verifiers;

verus! {

/// Whether run output should carry terminal styling.
pub fn terminal_styling_enabled(is_terminal: bool, no_color_is_set: bool) -> (styled: bool)
    ensures
        styled == (is_terminal && !no_color_is_set),
{
    is_terminal && !no_color_is_set
}

} // verus!
