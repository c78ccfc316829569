use vstd::prelude::*;

use crate::input::Button;
use crate::screens::transitions::{GameOver, StartGame, Transition};

verus! {

/// The entry of the title menu under the cursor.
#[derive(Copy, Clone, Debug, PartialEq, Eq, Structural)]
pub enum Selection {
    PlayTetris,
    HighScores,
}

/// The title screen: a menu of two entries.
pub struct TitleScreen {
    selection: Selection,
}

impl View for TitleScreen {
    type V = Selection;

    closed spec fn view(&self) -> Selection {
        self.selection
    }
}

/// The other entry of the menu.
pub open spec fn other_entry(s: Selection) -> Selection {
    match s {
        Selection::PlayTetris => Selection::HighScores,
        Selection::HighScores => Selection::PlayTetris,
    }
}

/// What Start does on an entry: a new game, or the high scores (a game over
/// with no score).
pub open spec fn chosen(s: Selection) -> Transition {
    match s {
        Selection::PlayTetris => Transition::StartGame(StartGame()),
        Selection::HighScores => Transition::GameOver(GameOver { score: 0 }),
    }
}

/// The height at which the cursor stands beside an entry.
pub open spec fn cursor_height(s: Selection) -> i32 {
    match s {
        Selection::PlayTetris => 32,
        Selection::HighScores => 16,
    }
}

impl TitleScreen {
    /// The title screen with the cursor on "Play Tetris".
    pub fn new() -> (t: Self)
        ensures
            t@ == Selection::PlayTetris,
    {
        TitleScreen { selection: Selection::PlayTetris }
    }

    /// A press of `button`: Start chooses the entry under the cursor; Up and
    /// Down move the cursor to the other entry.
    pub fn press(&mut self, button: Button) -> (t: Option<Transition>)
        ensures
            t == if button == Button::Start {
                Some(chosen(old(self)@))
            } else {
                None
            },
            final(self)@ == if button == Button::Up || button == Button::Down {
                other_entry(old(self)@)
            } else {
                old(self)@
            },
    {
        let mut fired = None;
        if button == Button::Start {
            fired = Some(
                match self.selection {
                    Selection::PlayTetris => Transition::StartGame(StartGame()),
                    Selection::HighScores => Transition::GameOver(GameOver { score: 0 }),
                },
            );
        }
        if button == Button::Up || button == Button::Down {
            self.selection = match self.selection {
                Selection::PlayTetris => Selection::HighScores,
                Selection::HighScores => Selection::PlayTetris,
            };
        }
        fired
    }

    /// The height at which the cursor is drawn.
    pub fn cursor_y(&self) -> (y: i32)
        ensures
            y == cursor_height(self@),
    {
        match self.selection {
            Selection::PlayTetris => 32,
            Selection::HighScores => 16,
        }
    }
}

/// Two presses of Up or Down bring the cursor back where it was.
pub proof fn lemma_cursor_toggles_back(s: Selection)
    ensures
        other_entry(other_entry(s)) == s,
        other_entry(s) != s,
{
}

} // verus!
