use jimbo::{App, KeyInput, SelectedTab};

#[test]
fn test_tab_navigation() {
    let mut app = App::new();
    assert_eq!(app.selected_tab, SelectedTab::Solver);

    app.next_tab();
    assert_eq!(app.selected_tab, SelectedTab::Simulator);

    app.next_tab();
    assert_eq!(app.selected_tab, SelectedTab::Config);

    app.next_tab();
    assert_eq!(app.selected_tab, SelectedTab::Solver);
}

#[test]
fn test_input_handling() {
    let mut app = App::new();

    app.handle_event(KeyInput::Char('a', false));
    assert_eq!(app.input, "a");

    app.handle_event(KeyInput::Backspace);
    assert_eq!(app.input, "");
}

#[test]
fn test_quit() {
    let mut app = App::new();
    assert!(!app.should_quit());

    let should_continue = app.handle_event(KeyInput::Char('q', false));
    assert!(!should_continue);
    assert!(app.should_quit());
}

#[test]
fn control_c_quits_and_plain_c_types() {
    let mut app = App::new();
    assert!(app.handle_event(KeyInput::Char('c', false)));
    assert_eq!(app.input, "c");
    assert!(!app.handle_event(KeyInput::Char('c', true)));
    assert_eq!(app.input, "c");
}

#[test]
fn back_tab_enter_and_empty_backspace() {
    let mut app = App::new();
    app.handle_event(KeyInput::BackTab);
    assert_eq!(app.selected_tab, SelectedTab::Config);
    app.previous_tab();
    assert_eq!(app.selected_tab, SelectedTab::Simulator);
    app.handle_event(KeyInput::Backspace);
    assert_eq!(app.input, "");
    app.handle_event(KeyInput::Char('x', false));
    app.handle_event(KeyInput::Enter);
    assert_eq!(app.input, "");
    assert!(app.handle_event(KeyInput::Other));
}
