use vstd::prelude::*;

use crate::screens::transitions::Transition;

verus! {

/// The screens of the application.
#[derive(Copy, Clone, Debug, PartialEq, Eq, Structural)]
pub enum ScreenKind {
    Load,
    Title,
    Game,
}

/// The screen that a transition leads to.
pub open spec fn screen_for(t: Transition) -> ScreenKind {
    match t {
        Transition::Loaded(_) => ScreenKind::Title,
        Transition::StartGame(_) => ScreenKind::Game,
        Transition::GameOver(_) => ScreenKind::Title,
    }
}

/// The screen that the application switches to on a transition: the title
/// once loaded or after a game, a new game when one is asked for.
pub fn screen_after(t: &Transition) -> (s: ScreenKind)
    ensures
        s == screen_for(*t),
{
    match t {
        Transition::Loaded(_) => ScreenKind::Title,
        Transition::StartGame(_) => ScreenKind::Game,
        Transition::GameOver(_) => ScreenKind::Title,
    }
}

} // verus!
