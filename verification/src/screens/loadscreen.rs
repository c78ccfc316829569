use vstd::prelude::*;

use crate::screens::transitions::{Loaded, Transition};

verus! {

/// The screen shown while the assets load.
#[derive(Copy, Clone, Debug, PartialEq, Eq, Structural)]
pub struct LoadScreen;

impl LoadScreen {
    /// Any tick of time on the loading screen reports that loading is done.
    pub fn on_tick(&self) -> (t: Transition)
        ensures
            t == Transition::Loaded(Loaded()),
    {
        Transition::Loaded(Loaded())
    }
}

} // verus!
