//! The app's top-level screens, and the title screen's number keys.

use vstd::prelude::*;

verus! {

/// Which screen the app shows; each screen builds its world on entry and
/// tears it down on exit.
#[derive(Clone, Copy, PartialEq, Eq, Debug, Hash, Structural)]
pub enum AppState {
    /// The landing screen: the title and its action slots.
    Title,
    /// The game.
    Intro,
    /// Display settings.
    Settings,
}

impl Default for AppState {
    fn default() -> (s: AppState)
        ensures
            s == AppState::Title,
    {
        AppState::Title
    }
}

/// What a title-screen number key does.
#[derive(Clone, Copy, PartialEq, Eq, Debug, Structural)]
pub enum TitleCommand {
    /// Leave the app.
    Quit,
    /// Go to a screen.
    Enter(AppState),
}

/// The title's number keys (each from the digit row or the numpad): `1`
/// starts the game, `2` opens settings, `4` quits; `4` wins over the others,
/// then `1`. `3` (Continue) is inert until there is a save to resume.
pub fn title_keys(one: bool, two: bool, four: bool) -> (c: Option<TitleCommand>)
    ensures
        c == if four {
            Some(TitleCommand::Quit)
        } else if one {
            Some(TitleCommand::Enter(AppState::Intro))
        } else if two {
            Some(TitleCommand::Enter(AppState::Settings))
        } else {
            None
        },
{
    if four {
        Some(TitleCommand::Quit)
    } else if one {
        Some(TitleCommand::Enter(AppState::Intro))
    } else if two {
        Some(TitleCommand::Enter(AppState::Settings))
    } else {
        None
    }
}

} // verus!
