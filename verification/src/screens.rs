//! The screens of the game and the states of a play session.

use vstd::prelude::*;

verus! {

/// Which screen is shown.
#[derive(Clone, Copy, Debug, Default, PartialEq, Eq, Hash, Structural)]
pub enum Screen {
    #[default]
    Main,
    Gameplay,
}

/// The state of the play session.
#[derive(Clone, Copy, Debug, Default, PartialEq, Eq, Hash, Structural)]
pub enum GameState {
    #[default]
    Started,
    Running,
    Paused,
    Exit,
}

/// What can move the game from one state to another.
#[derive(Clone, Copy, Debug, PartialEq, Eq, Structural)]
pub enum GameEvent {
    /// The start button of the main screen was clicked.
    StartClicked,
    /// The map's entities were created.
    MapCreated,
    /// The escape key went down.
    EscapePressed,
    /// "Resume" was chosen in the pause menu.
    Resumed,
    /// "Main Menu" was chosen in the pause menu.
    ReturnedToMainMenu,
}

/// The screen together with the session state.
#[derive(Clone, Copy, Debug, Default, PartialEq, Eq, Structural)]
pub struct Flow {
    pub screen: Screen,
    pub game: GameState,
}

impl Flow {
    /// The state that follows `self` on `event`.
    pub open spec fn spec_on(self, event: GameEvent) -> Flow {
        match event {
            GameEvent::StartClicked => if self.screen == Screen::Main {
                Flow { screen: Screen::Gameplay, game: self.game }
            } else {
                self
            },
            GameEvent::MapCreated => Flow { screen: self.screen, game: GameState::Running },
            GameEvent::EscapePressed => if self.screen == Screen::Gameplay && self.game
                == GameState::Running {
                Flow { screen: self.screen, game: GameState::Paused }
            } else {
                self
            },
            GameEvent::Resumed => Flow { screen: self.screen, game: GameState::Running },
            GameEvent::ReturnedToMainMenu => Flow { screen: Screen::Main, game: GameState::Exit },
        }
    }

    /// Moves on one event.
    ///
    /// The start button only works on the main screen, and the escape key
    /// only pauses a running session on the gameplay screen.
    pub fn on(self, event: GameEvent) -> (next: Flow)
        ensures
            next == self.spec_on(event),
    {
        match event {
            GameEvent::StartClicked => match self.screen {
                Screen::Main => Flow { screen: Screen::Gameplay, game: self.game },
                Screen::Gameplay => self,
            },
            GameEvent::MapCreated => Flow { screen: self.screen, game: GameState::Running },
            GameEvent::EscapePressed => match (self.screen, self.game) {
                (Screen::Gameplay, GameState::Running) => Flow {
                    screen: self.screen,
                    game: GameState::Paused,
                },
                _ => self,
            },
            GameEvent::Resumed => Flow { screen: self.screen, game: GameState::Running },
            GameEvent::ReturnedToMainMenu => Flow { screen: Screen::Main, game: GameState::Exit },
        }
    }
}

} // verus!
