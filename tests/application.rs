use rustyvim::application::{Application, Mode};
use rustyvim::commands::{default_bindings, Command, BACKSPACE, ESCAPE};
use rustyvim::marks::Mark;

/// The command that `key` is bound to by default in `mode`.
fn bound(mode: Mode, key: char) -> Command {
    default_bindings(mode)
        .into_iter()
        .find(|(k, _)| *k == key)
        .map(|(_, cmd)| cmd)
        .unwrap()
}

#[test]
fn insert_a2z() {
    let mut app = Application::new();
    for key in ['a', 'b', 'z', '\n', 'D', 'E', 'Z', '\n', '0', '1', '9'] {
        app.apply(bound(Mode::Insert, key));
    }
    assert_eq!(app.get_active_buf().to_str(), "abz\nDEZ\n019");
}

#[test]
fn normal_hjkl() {
    let mut app = Application::new();
    app.get_active_buf_mut()
        .insert(Mark::new(0, 0), "abz\nDEZ\n019")
        .unwrap();

    assert_eq!(app.get_active_mark(), Mark::new(0, 0));
    app.apply(bound(Mode::Normal, 'j'));
    assert_eq!(app.get_active_mark(), Mark::new(1, 0));
    app.apply(bound(Mode::Normal, 'k'));
    assert_eq!(app.get_active_mark(), Mark::new(0, 0));
    app.apply(bound(Mode::Normal, 'k'));
    assert_eq!(app.get_active_mark(), Mark::new(0, 0));
    app.apply(bound(Mode::Normal, 'l'));
    assert_eq!(app.get_active_mark(), Mark::new(0, 1));
    app.apply(bound(Mode::Normal, 'h'));
    assert_eq!(app.get_active_mark(), Mark::new(0, 0));
    app.apply(bound(Mode::Normal, 'h'));
    assert_eq!(app.get_active_mark(), Mark::new(0, 0));
    for _ in 0..5 {
        app.apply(bound(Mode::Normal, 'j'));
        app.apply(bound(Mode::Normal, 'l'));
    }
    assert_eq!(app.get_active_mark(), Mark::new(2, 3));
}

#[test]
fn swap_modes() {
    let mut app = Application::new();
    assert_eq!(app.get_mode(), Mode::Normal);
    app.apply(bound(Mode::Normal, 'i'));
    assert_eq!(app.get_mode(), Mode::Insert);
    app.apply(bound(Mode::Insert, ESCAPE));
    assert_eq!(app.get_mode(), Mode::Normal);
}

#[test]
fn backspace() {
    let mut app = Application::new();
    app.get_active_buf_mut()
        .insert(Mark::new(0, 0), "abz\nDEZ\n019")
        .unwrap();
    *app.get_active_mark_mut() = Mark::new(1, 0);

    app.apply(bound(Mode::Insert, BACKSPACE));
    app.apply(bound(Mode::Insert, BACKSPACE));
    assert_eq!(app.get_active_buf().to_str(), "abDEZ\n019");
    assert_eq!(app.get_active_mark(), Mark::new(0, 2));
}

#[test]
fn default_binding_tables() {
    let normal = default_bindings(Mode::Normal);
    assert_eq!(normal.len(), 5);
    assert_eq!(normal[3], ('h', Command::MoveCursor(0, -1)));
    let insert = default_bindings(Mode::Insert);
    assert_eq!(insert.len(), 65);
    assert_eq!(insert[0], ('a', Command::Type('a')));
    assert_eq!(insert[26], ('A', Command::Type('A')));
    assert_eq!(insert[61], ('9', Command::Type('9')));
    assert_eq!(insert[63], (ESCAPE, Command::SetMode(Mode::Normal)));
    assert!(!insert.iter().any(|(k, _)| *k == '!'));
}

#[test]
fn direct_editing_commands() {
    let mut app = Application::new();
    for s in ["a", "b", "z", "\n", "D"] {
        app.insert_at_cursor(s);
    }
    app.move_cursor(-1, 1);
    app.backspace();
    assert_eq!(app.get_active_buf().to_str(), "az\nD");
    app.set_mode(Mode::Insert);
    assert_eq!(app.get_mode(), Mode::Insert);
}

#[test]
fn backspace_at_start_does_nothing() {
    let mut app = Application::new();
    app.insert_at_cursor("xy");
    *app.get_active_mark_mut() = Mark::new(0, 0);
    app.backspace();
    assert_eq!(app.get_active_buf().to_str(), "xy");
    assert_eq!(app.get_active_mark(), Mark::new(0, 0));
}

#[test]
fn typing_pulls_a_far_cursor_back() {
    let mut app = Application::new();
    app.insert_at_cursor("one\nlonger line\ntwo");
    assert_eq!(app.get_active_mark(), Mark::new(2, 3));
    app.move_cursor(-1, 0);
    app.move_cursor(0, 8);
    app.move_cursor(1, 0);
    assert_eq!(app.get_active_mark(), Mark::new(2, 11));
    app.insert_at_cursor("!");
    assert_eq!(app.get_active_buf().to_str(), "one\nlonger line\ntwo!");
    assert_eq!(app.get_active_mark(), Mark::new(2, 4));
}
