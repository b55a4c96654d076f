use hecto::command::{KeyCode, KeyEvent, Modifiers, Move, System};

fn key(code: KeyCode, modifiers: Modifiers) -> KeyEvent {
    KeyEvent { code, modifiers }
}

#[test]
fn control_keys() {
    assert_eq!(System::try_from(key(KeyCode::Char('q'), Modifiers::Control)), Ok(System::Quit));
    assert_eq!(System::try_from(key(KeyCode::Char('s'), Modifiers::Control)), Ok(System::Save));
    assert_eq!(System::try_from(key(KeyCode::Char('f'), Modifiers::Control)), Ok(System::Search));
    assert!(System::try_from(key(KeyCode::Char('x'), Modifiers::Control)).is_err());
}

#[test]
fn shift_keys_select() {
    assert_eq!(
        System::try_from(key(KeyCode::Home, Modifiers::Shift)),
        Ok(System::Select(Move::StartOfLine))
    );
    assert_eq!(
        System::try_from(key(KeyCode::PageDown, Modifiers::Shift)),
        Ok(System::Select(Move::PageDown))
    );
    assert!(System::try_from(key(KeyCode::Char('a'), Modifiers::Shift)).is_err());
}

#[test]
fn escape_dismisses_only_without_modifiers() {
    assert_eq!(System::try_from(key(KeyCode::Esc, Modifiers::Plain)), Ok(System::Dismiss));
    assert!(System::try_from(key(KeyCode::Esc, Modifiers::Other)).is_err());
    assert!(System::try_from(key(KeyCode::Char('q'), Modifiers::Plain)).is_err());
}
