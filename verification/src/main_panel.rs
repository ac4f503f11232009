use vstd::prelude::*;
use crate::panel::{GameFieldPanelEvent, MessageBoxButton};

verus! {

// The decisions of the main panel of the game window. It holds the game field, a button
// that takes the last move back, a button that starts a new game after asking, and the
// score. The window hands it each event that its panels report; it says what to do.

/// An event that reaches the main panel.
#[derive(Copy, Clone, Debug, PartialEq, Eq, Structural)]
pub enum MainPanelEvent {
    /// The undo button was pressed.
    UndoPressed,
    /// The reset button was pressed.
    ResetPressed,
    /// The question whether to start a new game was answered.
    ResetAnswered(MessageBoxButton),
    /// The game field reported.
    GameField(GameFieldPanelEvent),
    /// An event of another panel.
    Other,
}

/// What the main panel does with an event.
#[derive(Copy, Clone, Debug, PartialEq, Eq, Structural)]
pub enum MainPanelAction {
    /// Take the last move of the game back.
    Undo,
    /// Ask whether to start a new game.
    AskReset,
    /// Close the question; start a new game when `reset` holds.
    CloseQuestion { reset: bool },
    /// Show the score and enable the undo button when a move can be taken back.
    UpdateButtons,
    /// Hand the event to the control manager.
    PassToControls,
    /// Nothing.
    Ignore,
}

/// The undo and reset buttons are served first. While the question is open, only its
/// answer is served: it closes the question, and a Yes starts a new game. Otherwise a
/// change of the game field updates the buttons, and every other event goes to the
/// control manager.
pub fn main_panel_action(event: MainPanelEvent, question_open: bool) -> (r: MainPanelAction)
    ensures
        r == match event {
            MainPanelEvent::UndoPressed => MainPanelAction::Undo,
            MainPanelEvent::ResetPressed => MainPanelAction::AskReset,
            MainPanelEvent::ResetAnswered(b) => if question_open {
                MainPanelAction::CloseQuestion { reset: b == MessageBoxButton::Yes }
            } else {
                MainPanelAction::PassToControls
            },
            MainPanelEvent::GameField(_) => if question_open {
                MainPanelAction::Ignore
            } else {
                MainPanelAction::UpdateButtons
            },
            MainPanelEvent::Other => if question_open {
                MainPanelAction::Ignore
            } else {
                MainPanelAction::PassToControls
            },
        },
{
    match event {
        MainPanelEvent::UndoPressed => MainPanelAction::Undo,
        MainPanelEvent::ResetPressed => MainPanelAction::AskReset,
        _ => {
            if question_open {
                if let MainPanelEvent::ResetAnswered(b) = event {
                    MainPanelAction::CloseQuestion { reset: b == MessageBoxButton::Yes }
                } else {
                    MainPanelAction::Ignore
                }
            } else if let MainPanelEvent::GameField(GameFieldPanelEvent::Changed) = event {
                MainPanelAction::UpdateButtons
            } else {
                MainPanelAction::PassToControls
            }
        },
    }
}

} // verus!
