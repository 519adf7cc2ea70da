use sensor_plot::input::{InputEdit, InputState};

fn typed(text: &str) -> InputState {
    let mut input = InputState::default();
    input.open();
    for ch in text.chars() {
        input.insert(ch);
    }
    input
}

#[test]
fn a_new_input_is_empty_and_closed() {
    let input = InputState::default();
    assert_eq!(input.content(), "");
    assert!(!input.opened());
}

#[test]
fn typing_moves_the_cursor() {
    let mut input = typed("ac");
    input.goto_prev();
    input.insert('b');
    assert_eq!(input.content(), "abc");
    input.remove();
    assert_eq!(input.content(), "ac");
    input.close();
    assert!(!input.opened());
    assert_eq!(input.content(), "ac");
}

#[test]
fn a_closed_input_takes_no_characters() {
    let mut input = typed("ab");
    input.close();
    input.insert('c');
    input.remove();
    input.goto_start();
    assert_eq!(input.content(), "ab");
    assert!(!input.opened());
}

#[test]
fn the_cursor_stays_within_the_text() {
    let mut input = typed("ab");
    input.goto_next();
    input.goto_next();
    input.insert('c');
    assert_eq!(input.content(), "abc");
    input.goto_start();
    input.goto_prev();
    input.remove();
    assert_eq!(input.content(), "abc");
    input.insert('_');
    assert_eq!(input.content(), "_abc");
    input.goto_end();
    input.remove();
    assert_eq!(input.content(), "_ab");
}

#[test]
fn reopening_puts_the_cursor_at_the_end() {
    let mut input = typed("ab");
    input.goto_start();
    input.close();
    input.open();
    input.insert('c');
    assert_eq!(input.content(), "abc");
}

#[test]
fn positions_count_characters_not_bytes() {
    let mut input = typed("Poле");
    input.goto_prev();
    input.insert('1');
    assert_eq!(input.content(), "Poл1е");
    input.remove();
    input.remove();
    assert_eq!(input.content(), "Poе");
}

#[test]
fn edits_do_what_the_methods_do() {
    let mut input = typed("");
    input.edit(InputEdit::Insert('x'));
    input.edit(InputEdit::Insert('z'));
    input.edit(InputEdit::Prev);
    input.edit(InputEdit::Insert('y'));
    assert_eq!(input.content(), "xyz");
    input.edit(InputEdit::Start);
    input.edit(InputEdit::Next);
    input.edit(InputEdit::Remove);
    assert_eq!(input.content(), "yz");
    input.edit(InputEdit::End);
    input.edit(InputEdit::Remove);
    assert_eq!(input.content(), "y");
}

#[test]
fn an_empty_input_has_an_empty_window() {
    let mut input = InputState::default();
    assert_eq!(input.get_render_bounds(5), (0, 0));
}

#[test]
fn the_window_follows_the_cursor() {
    let mut input = typed("abcdefghij");
    // the cursor stands behind `j`: the window ends there
    assert_eq!(input.get_render_bounds(4), (6, 10));
    // nothing moved: the window stays
    assert_eq!(input.get_render_bounds(4), (6, 10));
    input.goto_start();
    assert_eq!(input.get_render_bounds(4), (0, 4));
    for _ in 0..5 {
        input.goto_next();
    }
    // the cursor stands behind `e`, one place right of the window
    assert_eq!(input.get_render_bounds(4), (1, 5));
}

#[test]
fn a_closed_input_shows_its_beginning() {
    let mut input = typed("abcdefghij");
    input.close();
    assert_eq!(input.get_render_bounds(4), (0, 4));
    assert_eq!(input.get_render_bounds(20), (0, 10));
}

#[test]
fn removing_pulls_the_window_back() {
    let mut input = typed("abcdefghij");
    assert_eq!(input.get_render_bounds(4), (6, 10));
    input.remove();
    // offset 6 became 5; the text has nine characters now
    assert_eq!(input.get_render_bounds(4), (5, 9));
}

#[test]
fn a_window_of_no_width_is_empty() {
    let mut input = typed("abc");
    let (start, end) = input.get_render_bounds(0);
    assert_eq!(start, end);
    assert!(end <= 3);
}
