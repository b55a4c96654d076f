use vstd::prelude::*;
use vstd::string::StringExecFns;

verus! {

/// A key as the editor sees it.
#[derive(Clone, Copy, Debug, PartialEq, Eq, Structural)]
pub enum KeyCode {
    Char(char),
    Up,
    Down,
    Left,
    Right,
    PageUp,
    PageDown,
    Home,
    End,
    Esc,
    Other,
}

/// The modifier keys held with a key: none (`Plain`), exactly Control, exactly Shift,
/// or any other combination.
#[derive(Clone, Copy, Debug, PartialEq, Eq, Structural)]
pub enum Modifiers {
    Plain,
    Control,
    Shift,
    Other,
}

/// A key press: the key and the modifiers held with it.
#[derive(Clone, Copy, Debug, PartialEq, Eq, Structural)]
pub struct KeyEvent {
    pub code: KeyCode,
    pub modifiers: Modifiers,
}

/// A cursor movement.
#[derive(Clone, Copy, Debug, PartialEq, Eq, Structural)]
pub enum Move {
    Up,
    Down,
    Left,
    Right,
    PageUp,
    PageDown,
    StartOfLine,
    EndOfLine,
}

/// The size of the terminal, in rows and columns.
#[derive(Clone, Copy, Debug, PartialEq, Eq, Structural)]
pub struct Size {
    pub height: usize,
    pub width: usize,
}

/// A command to the editor as a whole.
#[derive(Clone, Copy, Debug, PartialEq, Eq, Structural)]
pub enum System {
    Save,
    Resize(Size),
    Quit,
    Dismiss,
    Search,
    Select(Move),
}

/// The command that a key press stands for, if any: Control with `q`, `s`,
/// `f` quits, saves, searches; Shift with an arrow, page, Home or End key
/// extends the selection; Esc alone dismisses.
pub open spec fn command_of(event: KeyEvent) -> Option<System> {
    match event.modifiers {
        Modifiers::Control => match event.code {
            KeyCode::Char('q') => Some(System::Quit),
            KeyCode::Char('s') => Some(System::Save),
            KeyCode::Char('f') => Some(System::Search),
            _ => None,
        },
        Modifiers::Shift => match event.code {
            KeyCode::Up => Some(System::Select(Move::Up)),
            KeyCode::Down => Some(System::Select(Move::Down)),
            KeyCode::Left => Some(System::Select(Move::Left)),
            KeyCode::Right => Some(System::Select(Move::Right)),
            KeyCode::PageDown => Some(System::Select(Move::PageDown)),
            KeyCode::PageUp => Some(System::Select(Move::PageUp)),
            KeyCode::Home => Some(System::Select(Move::StartOfLine)),
            KeyCode::End => Some(System::Select(Move::EndOfLine)),
            _ => None,
        },
        Modifiers::Plain => match event.code {
            KeyCode::Esc => Some(System::Dismiss),
            _ => None,
        },
        Modifiers::Other => None,
    }
}

impl System {
    /// The command for `event`, or a message saying why there is none.
    pub fn try_from(event: KeyEvent) -> (r: Result<System, String>)
        ensures
            match command_of(event) {
                Some(c) => r == Ok::<System, String>(c),
                None => r is Err,
            },
    {
        let KeyEvent { code, modifiers } = event;
        match modifiers {
            Modifiers::Control => match code {
                KeyCode::Char('q') => Ok(System::Quit),
                KeyCode::Char('s') => Ok(System::Save),
                KeyCode::Char('f') => Ok(System::Search),
                _ => Err(String::from_str("Unsupported CONTROL combination")),
            },
            Modifiers::Shift => match code {
                KeyCode::Up => Ok(System::Select(Move::Up)),
                KeyCode::Down => Ok(System::Select(Move::Down)),
                KeyCode::Left => Ok(System::Select(Move::Left)),
                KeyCode::Right => Ok(System::Select(Move::Right)),
                KeyCode::PageDown => Ok(System::Select(Move::PageDown)),
                KeyCode::PageUp => Ok(System::Select(Move::PageUp)),
                KeyCode::Home => Ok(System::Select(Move::StartOfLine)),
                KeyCode::End => Ok(System::Select(Move::EndOfLine)),
                _ => Err(String::from_str("Unsupported SHIFT combination")),
            },
            Modifiers::Plain => match code {
                KeyCode::Esc => Ok(System::Dismiss),
                _ => Err(String::from_str("Unsupported key code")),
            },
            Modifiers::Other => Err(String::from_str("Unsupported modifier")),
        }
    }
}

} // verus!
