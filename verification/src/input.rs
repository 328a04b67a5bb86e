//! Modal key translation: which action a key press becomes, given the
//! error modal and search states. The terminal delivers raw events
//! outside the core and hands plain key values in.

use crate::actions::{Action, ActionModel};
use crate::state::AppState;
use vstd::prelude::*;

verus! {

/// A key press, as plain data.
#[derive(Debug, Clone, Copy, PartialEq, Eq, Structural)]
pub enum KeyInput {
    Char(char),
    Up,
    Down,
    Left,
    Right,
    Enter,
    Esc,
    Tab,
    BackTab,
    Backspace,
}

/// The modal translation: with an error shown only dismissal is heard;
/// with the search active only editing and the two ways out; otherwise
/// the full key map.
pub open spec fn spec_map_key(
    key: KeyInput,
    ctrl: bool,
    error_shown: bool,
    search_active: bool,
) -> Option<ActionModel> {
    if error_shown {
        match key {
            KeyInput::Esc => Some(ActionModel::DismissError),
            _ => None,
        }
    } else if search_active {
        match key {
            KeyInput::Esc => Some(ActionModel::ToggleSearch),
            KeyInput::Backspace => Some(ActionModel::SearchBackspace),
            KeyInput::Char(c) => Some(ActionModel::SearchInput(c)),
            KeyInput::Enter => Some(ActionModel::ToggleSearch),
            _ => None,
        }
    } else {
        match key {
            KeyInput::Char(c) => if c == 'q' {
                Some(ActionModel::Quit)
            } else if c == 'c' && ctrl {
                Some(ActionModel::Quit)
            } else if c == 'j' {
                Some(ActionModel::MoveDown)
            } else if c == 'k' {
                Some(ActionModel::MoveUp)
            } else if c == 'l' {
                Some(ActionModel::Select)
            } else if c == 'h' {
                Some(ActionModel::Back)
            } else if c == 'r' {
                Some(ActionModel::Refresh)
            } else if c == 'o' {
                Some(ActionModel::OpenInBrowser)
            } else if c == '/' {
                Some(ActionModel::ToggleSearch)
            } else {
                None
            },
            KeyInput::Down => Some(ActionModel::MoveDown),
            KeyInput::Up => Some(ActionModel::MoveUp),
            KeyInput::Enter => Some(ActionModel::Select),
            KeyInput::Right => Some(ActionModel::Select),
            KeyInput::Esc => Some(ActionModel::Back),
            KeyInput::Left => Some(ActionModel::Back),
            KeyInput::Tab => Some(ActionModel::SwitchPane),
            KeyInput::BackTab => Some(ActionModel::SwitchPane),
            KeyInput::Backspace => None,
        }
    }
}

/// Translates one key press into an action, honouring the error modal and
/// the search mode of the current state.
pub fn map_key_to_action(key: KeyInput, ctrl: bool, state: &AppState) -> (r: Option<Action>)
    ensures
        (r is Some) == (spec_map_key(
            key,
            ctrl,
            state@.error_message is Some,
            state@.search_active,
        ) is Some),
        r matches Some(a) ==> spec_map_key(
            key,
            ctrl,
            state@.error_message is Some,
            state@.search_active,
        ) == Some(a@),
{
    if state.error_message.is_some() {
        return match key {
            KeyInput::Esc => Some(Action::DismissError),
            _ => None,
        };
    }
    if state.search_active {
        return match key {
            KeyInput::Esc => Some(Action::ToggleSearch),
            KeyInput::Backspace => Some(Action::SearchBackspace),
            KeyInput::Char(c) => Some(Action::SearchInput(c)),
            KeyInput::Enter => Some(Action::ToggleSearch),
            _ => None,
        };
    }
    match key {
        KeyInput::Char(c) => {
            if c == 'q' {
                Some(Action::Quit)
            } else if c == 'c' && ctrl {
                Some(Action::Quit)
            } else if c == 'j' {
                Some(Action::MoveDown)
            } else if c == 'k' {
                Some(Action::MoveUp)
            } else if c == 'l' {
                Some(Action::Select)
            } else if c == 'h' {
                Some(Action::Back)
            } else if c == 'r' {
                Some(Action::Refresh)
            } else if c == 'o' {
                Some(Action::OpenInBrowser)
            } else if c == '/' {
                Some(Action::ToggleSearch)
            } else {
                None
            }
        },
        KeyInput::Down => Some(Action::MoveDown),
        KeyInput::Up => Some(Action::MoveUp),
        KeyInput::Enter => Some(Action::Select),
        KeyInput::Right => Some(Action::Select),
        KeyInput::Esc => Some(Action::Back),
        KeyInput::Left => Some(Action::Back),
        KeyInput::Tab => Some(Action::SwitchPane),
        KeyInput::BackTab => Some(Action::SwitchPane),
        KeyInput::Backspace => None,
    }
}

} // verus!
