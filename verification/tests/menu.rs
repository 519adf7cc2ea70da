use sensor_plot::menu::MenuState;

#[test]
fn a_new_menu_is_closed_and_unselected() {
    let menu = MenuState::default();
    assert!(!menu.opened());
    assert_eq!(menu.selected(), None);
    assert_eq!(menu.highlighted(), None);
}

#[test]
fn opening_highlights_the_first_line() {
    let mut menu = MenuState::default();
    menu.open();
    assert!(menu.opened());
    assert_eq!(menu.highlighted(), Some(0));
}

#[test]
fn the_highlight_wraps_around() {
    let mut menu = MenuState::default();
    menu.open();
    menu.prev(3);
    assert_eq!(menu.highlighted(), Some(2));
    menu.next(3);
    assert_eq!(menu.highlighted(), Some(0));
    menu.next(3);
    menu.next(3);
    assert_eq!(menu.highlighted(), Some(2));
    menu.next(3);
    assert_eq!(menu.highlighted(), Some(0));
}

#[test]
fn an_empty_list_moves_nothing() {
    let mut menu = MenuState::default();
    menu.open();
    menu.next(0);
    menu.prev(0);
    assert_eq!(menu.highlighted(), Some(0));
}

#[test]
fn a_closed_menu_moves_nothing() {
    let mut menu = MenuState::default();
    menu.next(3);
    menu.prev(3);
    assert_eq!(menu.highlighted(), None);
    assert!(!menu.opened());
}

#[test]
fn a_highlight_beyond_a_shrunk_list_comes_back_into_it() {
    let mut menu = MenuState::default();
    menu.set_select(Some(7));
    menu.open();
    assert_eq!(menu.highlighted(), Some(7));
    // 7 is line 1 of a cycle of three; the line after it is 2
    menu.next(3);
    assert_eq!(menu.highlighted(), Some(2));
    menu.set_select(Some(7));
    menu.open();
    menu.prev(3);
    assert_eq!(menu.highlighted(), Some(0));
}

#[test]
fn select_commits_and_closes() {
    let mut menu = MenuState::default();
    menu.open();
    menu.next(4);
    menu.next(4);
    menu.select();
    assert_eq!(menu.selected(), Some(2));
    assert!(!menu.opened());
}

#[test]
fn close_keeps_the_choice() {
    let mut menu = MenuState::default();
    menu.set_select(Some(1));
    menu.open();
    menu.next(4);
    menu.close();
    assert_eq!(menu.selected(), Some(1));
    assert!(!menu.opened());
}

#[test]
fn reopening_highlights_the_committed_line() {
    let mut menu = MenuState::default();
    menu.open();
    menu.next(5);
    menu.next(5);
    menu.next(5);
    menu.select();
    menu.open();
    assert_eq!(menu.highlighted(), Some(3));
    assert_eq!(menu.selected(), Some(3));
}
