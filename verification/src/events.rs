use vstd::prelude::*;
use crate::popup::MethodCallPopUp;

verus! {

/// The part of the screen that takes the keys.
pub enum WorkingArea {
    Services,
    Objects,
    MethodCallPopUp(MethodCallPopUp),
}

/// A key, as far as the program tells keys apart.
#[derive(Debug, Clone, Copy, PartialEq, Eq, Structural)]
pub enum Key {
    Char(char),
    Enter,
    Left,
    Down,
    Up,
    Right,
    Tab,
    Esc,
    Other,
}

/// What the program does on a key.
#[derive(Debug, Clone, Copy, PartialEq, Eq, Structural)]
pub enum Action {
    /// Leave the program.
    Quit,
    /// Ask for the objects of the selected service, if one is selected.
    RequestObjects,
    /// Open the form for the selected method, if a method is selected.
    OpenMethodCall,
    /// Make the call, if every input of the form is valid.
    CallMethod,
    /// Take the selection off the list of services.
    UnselectService,
    /// Select the next service.
    NextService,
    /// Select the service before.
    PreviousService,
    /// Close the selected entry of the tree, or go to its parent.
    TreeLeft,
    /// Go down in the tree.
    TreeDown,
    /// Go up in the tree.
    TreeUp,
    /// Open the selected entry of the tree.
    TreeRight,
    /// Go to the next field of the form.
    NextField,
    /// Go to the field before.
    PreviousField,
    /// Hand the key to the first field of the form.
    TypeInFirstField,
    /// Hand the key to the field of the form that the operator is at.
    TypeInSelectedField,
    /// Let the tree of objects take the keys; this closes the form.
    FocusObjects,
    /// Let the list of services take the keys.
    FocusServices,
    /// Nothing.
    Nothing,
}

/// What the program does on `key` while `area` takes the keys.  In the
/// form, `q` is swallowed: it neither leaves the program nor reaches a
/// field.
pub open spec fn reaction(area: WorkingArea, key: Key) -> Action {
    match key {
        Key::Esc => Action::FocusObjects,
        Key::Char(c) if c == 'q' => match area {
            WorkingArea::MethodCallPopUp(_) => Action::Nothing,
            _ => Action::Quit,
        },
        _ => match area {
            WorkingArea::Services => match key {
                Key::Enter => Action::RequestObjects,
                Key::Left => Action::UnselectService,
                Key::Down => Action::NextService,
                Key::Up => Action::PreviousService,
                Key::Tab => Action::FocusObjects,
                _ => Action::Nothing,
            },
            WorkingArea::Objects => match key {
                Key::Enter => Action::OpenMethodCall,
                Key::Left => Action::TreeLeft,
                Key::Down => Action::TreeDown,
                Key::Up => Action::TreeUp,
                Key::Right => Action::TreeRight,
                Key::Tab => Action::FocusServices,
                _ => Action::Nothing,
            },
            WorkingArea::MethodCallPopUp(_) => match key {
                Key::Enter => Action::CallMethod,
                Key::Left | Key::Right => Action::TypeInFirstField,
                Key::Down => Action::NextField,
                Key::Up => Action::PreviousField,
                Key::Tab => Action::Nothing,
                _ => Action::TypeInSelectedField,
            },
        },
    }
}

/// What the program does on `key` while `area` takes the keys.
pub fn on_key(area: &WorkingArea, key: Key) -> (action: Action)
    ensures
        action == reaction(*area, key),
        action == Action::Quit <==> key == Key::Char('q') && !(area is MethodCallPopUp),
        (action == Action::TypeInFirstField || action == Action::TypeInSelectedField
            || action == Action::CallMethod || action == Action::NextField || action
            == Action::PreviousField) ==> area is MethodCallPopUp,
{
    let in_form = match area {
        WorkingArea::MethodCallPopUp(_) => true,
        _ => false,
    };
    match key {
        Key::Esc => Action::FocusObjects,
        Key::Char(c) => {
            if c == 'q' {
                if in_form {
                    Action::Nothing
                } else {
                    Action::Quit
                }
            } else if in_form {
                Action::TypeInSelectedField
            } else {
                Action::Nothing
            }
        },
        Key::Enter => match area {
            WorkingArea::Services => Action::RequestObjects,
            WorkingArea::Objects => Action::OpenMethodCall,
            WorkingArea::MethodCallPopUp(_) => Action::CallMethod,
        },
        Key::Left => match area {
            WorkingArea::Services => Action::UnselectService,
            WorkingArea::Objects => Action::TreeLeft,
            WorkingArea::MethodCallPopUp(_) => Action::TypeInFirstField,
        },
        Key::Down => match area {
            WorkingArea::Services => Action::NextService,
            WorkingArea::Objects => Action::TreeDown,
            WorkingArea::MethodCallPopUp(_) => Action::NextField,
        },
        Key::Up => match area {
            WorkingArea::Services => Action::PreviousService,
            WorkingArea::Objects => Action::TreeUp,
            WorkingArea::MethodCallPopUp(_) => Action::PreviousField,
        },
        Key::Right => match area {
            WorkingArea::Services => Action::Nothing,
            WorkingArea::Objects => Action::TreeRight,
            WorkingArea::MethodCallPopUp(_) => Action::TypeInFirstField,
        },
        Key::Tab => match area {
            WorkingArea::Services => Action::FocusObjects,
            WorkingArea::Objects => Action::FocusServices,
            WorkingArea::MethodCallPopUp(_) => Action::Nothing,
        },
        Key::Other => if in_form {
            Action::TypeInSelectedField
        } else {
            Action::Nothing
        },
    }
}

/// The two parts of the screen that a border is drawn around.
#[derive(Debug, Clone, Copy, PartialEq, Eq, Structural)]
pub enum Pane {
    Services,
    Objects,
}

/// Whether `pane` is the part that takes the keys, whose border is
/// highlighted.
pub fn has_focus(area: &WorkingArea, pane: Pane) -> (focused: bool)
    ensures
        focused == match pane {
            Pane::Services => *area is Services,
            Pane::Objects => *area is Objects,
        },
{
    match (area, pane) {
        (WorkingArea::Services, Pane::Services) => true,
        (WorkingArea::Objects, Pane::Objects) => true,
        _ => false,
    }
}

/// The share of the screen, in percent, left free on each side of a form
/// that takes `percent` percent of it.
pub fn margin_percent(percent: u16) -> (margin: u16)
    requires
        percent <= 100,
    ensures
        margin == (100 - percent) / 2,
{
    (100 - percent) / 2
}

} // verus!
