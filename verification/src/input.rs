use vstd::prelude::*;
use crate::panel::{ButtonPanelEvent, MessageBoxButton};
use crate::tile::Side;

verus! {

// How the panels answer the keyboard. Each panel decides from the key and its own state
// what to do; the window performs it.

/// The keys the panels react to.
#[derive(Copy, Clone, Debug, PartialEq, Eq, Structural)]
pub enum KeyCode {
    Left,
    Right,
    Up,
    Down,
    Back,
    Tab,
    Escape,
    Return,
    /// Any other key, or none.
    Other,
}

/// What the game field does with a key.
#[derive(Copy, Clone, Debug, PartialEq, Eq, Structural)]
pub enum GameFieldKeyAction {
    /// Swipe the field toward the side.
    Swipe(Side),
    /// Take the last move back.
    Undo,
    /// The key is not for the game field.
    Ignore,
}

/// The game field swipes on a pressed arrow key, toward the arrow, and takes the last
/// move back on a pressed Backspace; it ignores every other key and every release.
pub fn game_field_key_action(pressed: bool, key: KeyCode) -> (r: GameFieldKeyAction)
    ensures
        r == if !pressed {
            GameFieldKeyAction::Ignore
        } else {
            match key {
                KeyCode::Left => GameFieldKeyAction::Swipe(Side::Left),
                KeyCode::Right => GameFieldKeyAction::Swipe(Side::Right),
                KeyCode::Up => GameFieldKeyAction::Swipe(Side::Up),
                KeyCode::Down => GameFieldKeyAction::Swipe(Side::Down),
                KeyCode::Back => GameFieldKeyAction::Undo,
                _ => GameFieldKeyAction::Ignore,
            }
        },
{
    if pressed {
        if let Some(side) = match key {
            KeyCode::Left => Some(Side::Left),
            KeyCode::Right => Some(Side::Right),
            KeyCode::Up => Some(Side::Up),
            KeyCode::Down => Some(Side::Down),
            _ => None,
        } {
            return GameFieldKeyAction::Swipe(side);
        } else if key == KeyCode::Back {
            return GameFieldKeyAction::Undo;
        }
    }
    GameFieldKeyAction::Ignore
}

/// How a button looks.
#[derive(Copy, Clone, Debug, PartialEq, Eq, Structural)]
pub enum ButtonMode {
    Norm,
    Disabled,
    Focused,
}

/// A disabled button looks disabled; an enabled one looks focused when it has the focus.
pub fn get_mode(enabled: bool, focused: bool) -> (r: ButtonMode)
    ensures
        r == if !enabled {
            ButtonMode::Disabled
        } else if focused {
            ButtonMode::Focused
        } else {
            ButtonMode::Norm
        },
{
    if enabled {
        if focused {
            ButtonMode::Focused
        } else {
            ButtonMode::Norm
        }
    } else {
        ButtonMode::Disabled
    }
}

/// What a button does with a key.
#[derive(Copy, Clone, Debug, PartialEq, Eq, Structural)]
pub enum ButtonKeyAction {
    /// Give the focus up.
    ClearFocus,
    /// Pass the focus on to the next control.
    FocusNext,
    /// Press the button.
    Press,
    /// The key is not for the button.
    Ignore,
}

/// A focused, enabled button gives the focus up on a pressed Escape, passes it on on a
/// pressed Tab, and is pressed by a pressed Return; every other case is not for it.
pub fn button_key_action(focused: bool, enabled: bool, pressed: bool, key: KeyCode) -> (r: ButtonKeyAction)
    ensures
        r == if focused && enabled && pressed {
            match key {
                KeyCode::Escape => ButtonKeyAction::ClearFocus,
                KeyCode::Tab => ButtonKeyAction::FocusNext,
                KeyCode::Return => ButtonKeyAction::Press,
                _ => ButtonKeyAction::Ignore,
            }
        } else {
            ButtonKeyAction::Ignore
        },
{
    if focused && enabled {
        if pressed {
            match key {
                KeyCode::Escape => {
                    return ButtonKeyAction::ClearFocus;
                },
                KeyCode::Tab => {
                    return ButtonKeyAction::FocusNext;
                },
                KeyCode::Return => {
                    return ButtonKeyAction::Press;
                },
                _ => {},
            }
        }
    }
    ButtonKeyAction::Ignore
}

/// The buttons that a message box offers.
#[derive(Copy, Clone, Debug, PartialEq, Eq, Structural)]
pub struct MessageBoxFlags {
    pub ok: bool,
    pub cancel: bool,
    pub yes: bool,
    pub no: bool,
}

/// The buttons of a message box, in the order in which it shows them: Yes, No, OK,
/// Cancel, each when it is offered.
pub fn message_box_buttons(flags: MessageBoxFlags) -> (r: Vec<MessageBoxButton>)
    ensures
        r@ == (if flags.yes { seq![MessageBoxButton::Yes] } else { Seq::empty() }) + (if flags.no {
            seq![MessageBoxButton::No]
        } else {
            Seq::empty()
        }) + (if flags.ok { seq![MessageBoxButton::Okay] } else { Seq::empty() }) + (if flags.cancel {
            seq![MessageBoxButton::Cancel]
        } else {
            Seq::empty()
        }),
{
    let mut r: Vec<MessageBoxButton> = Vec::new();
    if flags.yes {
        r.push(MessageBoxButton::Yes);
    }
    if flags.no {
        r.push(MessageBoxButton::No);
    }
    if flags.ok {
        r.push(MessageBoxButton::Okay);
    }
    if flags.cancel {
        r.push(MessageBoxButton::Cancel);
    }
    proof {
        let a: Seq<MessageBoxButton> = if flags.yes { seq![MessageBoxButton::Yes] } else { Seq::empty() };
        let b: Seq<MessageBoxButton> = if flags.no { seq![MessageBoxButton::No] } else { Seq::empty() };
        let c: Seq<MessageBoxButton> = if flags.ok { seq![MessageBoxButton::Okay] } else { Seq::empty() };
        let d: Seq<MessageBoxButton> = if flags.cancel { seq![MessageBoxButton::Cancel] } else { Seq::empty() };
        assert(r@ =~= a + b + c + d);
    }
    r
}

/// A message box answers Escape with Cancel.
pub fn message_box_key_answer(key: KeyCode) -> (r: Option<MessageBoxButton>)
    ensures
        r == if key == KeyCode::Escape {
            Some(MessageBoxButton::Cancel)
        } else {
            None::<MessageBoxButton>
        },
{
    if key == KeyCode::Escape {
        Some(MessageBoxButton::Cancel)
    } else {
        None
    }
}

/// A button takes the focus and is pressed by a press of the left mouse button, when it
/// is enabled.
pub fn button_mouse_press(enabled: bool, left_button: bool, pressed: bool) -> (r: bool)
    ensures
        r == (enabled && left_button && pressed),
{
    enabled && left_button && pressed
}

/// What a message box does with a press of one of its buttons (none when the event came
/// from elsewhere): the answer it sends, which is the button pressed, and whether the
/// event goes on to its control manager, which it does unless OK was pressed.
pub fn message_box_button_event(pressed: Option<MessageBoxButton>) -> (r: (
    Option<MessageBoxButton>,
    bool,
))
    ensures
        r == (pressed, pressed != Some(MessageBoxButton::Okay)),
{
    let pass_on = match pressed {
        Some(MessageBoxButton::Okay) => false,
        _ => true,
    };
    (pressed, pass_on)
}

/// When a button is pressed it reports the press, but only while it is enabled.
pub fn button_press_event(enabled: bool) -> (r: Option<ButtonPanelEvent>)
    ensures
        r == if enabled { Some(ButtonPanelEvent::Pressed) } else { None::<ButtonPanelEvent> },
{
    if enabled {
        Some(ButtonPanelEvent::Pressed)
    } else {
        None
    }
}

} // verus!
