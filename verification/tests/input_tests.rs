use ldapeditor::keys::{KeyCode, KeyEvent, KeyModifiers};
use ldapeditor::model::TextInput;

fn key(code: KeyCode, modifiers: KeyModifiers) -> KeyEvent {
    KeyEvent { code, modifiers }
}

#[test]
fn cursor_stays_within_the_text() {
    let mut t = TextInput::with_text("héllo".to_string());
    assert_eq!(t.cursor(), 5);
    t.right();
    assert_eq!(t.cursor(), 5);
    t.home();
    t.left();
    assert_eq!(t.cursor(), 0);
    t.delete_fwd();
    assert_eq!(t.text(), "éllo");
    t.end();
    t.delete_fwd();
    assert_eq!(t.text(), "éllo");
    t.clear();
    assert!(t.is_empty());
    t.backspace();
    assert_eq!(t.cursor(), 0);
}

#[test]
fn backspace_after_insert_restores() {
    let mut t = TextInput::with_text("cn=ab".to_string());
    t.left();
    t.insert('X');
    assert_eq!(t.text(), "cn=aXb");
    assert_eq!(t.cursor(), 5);
    t.backspace();
    assert_eq!(t.text(), "cn=ab");
    assert_eq!(t.cursor(), 4);
}

#[test]
fn left_then_right_returns() {
    let mut t = TextInput::with_text("abc".to_string());
    t.left();
    t.left();
    let at = t.cursor();
    t.left();
    t.right();
    assert_eq!(t.cursor(), at);
}

#[test]
fn delete_after_insert_and_left_restores() {
    let mut t = TextInput::with_text("日本".to_string());
    t.left();
    t.insert('語');
    t.left();
    t.delete_fwd();
    assert_eq!(t.text(), "日本");
    assert_eq!(t.cursor(), 1);
    assert_eq!(t.len(), 2);
}

#[test]
fn keys_edit_the_input() {
    let mut t = TextInput::new();
    assert!(t.handle_key(key(KeyCode::Char('a'), KeyModifiers::NoModifier)));
    assert!(t.handle_key(key(KeyCode::Char('B'), KeyModifiers::ShiftOnly)));
    assert_eq!(t.text(), "aB");
    // a control chord is not typed
    assert!(!t.handle_key(key(KeyCode::Char('c'), KeyModifiers::ControlOnly)));
    assert_eq!(t.text(), "aB");
    assert!(t.handle_key(key(KeyCode::Home, KeyModifiers::NoModifier)));
    assert!(t.handle_key(key(KeyCode::Delete, KeyModifiers::NoModifier)));
    assert_eq!(t.text(), "B");
    assert!(t.handle_key(key(KeyCode::End, KeyModifiers::NoModifier)));
    assert!(t.handle_key(key(KeyCode::Backspace, KeyModifiers::NoModifier)));
    assert_eq!(t.text(), "");
    assert!(!t.handle_key(key(KeyCode::Enter, KeyModifiers::NoModifier)));
}
