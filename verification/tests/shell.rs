use sensor_plot::catalog::SensorLists;
use sensor_plot::field::GraphFieldState;
use sensor_plot::filepicker::{FilePickerItem, FilePickerState};
use sensor_plot::graph::GraphState;
use sensor_plot::keys::{Key, Mode, TabAction};
use sensor_plot::tabs::Tabs;
use sensor_plot::window::scroll_window;

fn strings(items: &[&str]) -> Vec<String> {
    items.iter().map(|s| s.to_string()).collect()
}

fn plot() -> GraphState {
    let mut fields = SensorLists::new();
    fields.insert("S1".to_string(), strings(&["a", "b"]));
    let mut serials = SensorLists::new();
    serials.insert("S1".to_string(), strings(&["001", "002"]));
    GraphState::new(&fields, &serials)
}

fn files(names: &[&str]) -> Vec<FilePickerItem> {
    names.iter().map(|n| FilePickerItem::File(n.to_string())).collect()
}

#[test]
fn a_window_follows_its_focus() {
    assert_eq!(scroll_window(10, 0, 0, 4), (0, 4));
    assert_eq!(scroll_window(10, 0, 3, 4), (0, 4));
    assert_eq!(scroll_window(10, 0, 4, 4), (1, 5));
    assert_eq!(scroll_window(10, 0, 9, 4), (6, 10));
    assert_eq!(scroll_window(10, 6, 5, 4), (5, 9));
    assert_eq!(scroll_window(10, 6, 0, 4), (0, 4));
    assert_eq!(scroll_window(10, 50, 9, 4), (9, 10));
    assert_eq!(scroll_window(10, 50, 2, 4), (2, 6));
    assert_eq!(scroll_window(3, 0, 2, 10), (0, 3));
    assert_eq!(scroll_window(3, 1, 0, 10), (0, 3));
    assert_eq!(scroll_window(3, 1, 1, 0), (1, 1));
    assert_eq!(scroll_window(3, 0, 2, 0), (2, 2));
}

#[test]
fn keys_in_view_mode() {
    let mut state = plot();
    assert_eq!(state.mode(), Mode::View);
    assert_eq!(state.on_key_event(Key::Char('q'), true), TabAction::Quit);
    assert_eq!(state.on_key_event(Key::Char('q'), false), TabAction::CloseTab);
    assert_eq!(state.on_key_event(Key::Char('N'), false), TabAction::NewTab);
    assert_eq!(state.on_key_event(Key::Tab, false), TabAction::NextTab);
    assert_eq!(state.on_key_event(Key::BackTab, false), TabAction::PrevTab);
    assert_eq!(state.on_key_event(Key::Enter, false), TabAction::Nothing);
    assert_eq!(state.on_key_event(Key::Char('a'), false), TabAction::Nothing);
    assert_eq!(state.ys_states().len(), 1);
    assert_eq!(state.selected(), None);
    assert_eq!(state.on_key_event(Key::Char('e'), false), TabAction::Nothing);
    assert_eq!(state.selected(), Some(0));
    assert_eq!(state.mode(), Mode::Edit);
}

#[test]
fn keys_in_edit_mode() {
    let mut state = plot();
    state.on_key_event(Key::Char('e'), false);
    // edit mode keeps its keys to itself
    assert_eq!(state.on_key_event(Key::Tab, false), TabAction::Nothing);
    assert_eq!(state.selected(), Some(4));
    assert_eq!(state.on_key_event(Key::Char('N'), false), TabAction::Nothing);
    state.on_key_event(Key::Char('a'), false);
    assert_eq!(state.ys_states().len(), 2);
    state.on_key_event(Key::Down, false);
    assert_eq!(state.selected(), Some(8));
    state.on_key_event(Key::Right, false);
    assert_eq!(state.selected(), Some(0));
    state.on_key_event(Key::Left, false);
    assert_eq!(state.selected(), Some(8));
    state.on_key_event(Key::Up, false);
    assert_eq!(state.selected(), Some(4));
    state.on_key_event(Key::BackTab, false);
    assert_eq!(state.selected(), Some(0));
    state.on_key_event(Key::Char('d'), false);
    state.on_key_event(Key::Char('d'), false);
    assert_eq!(state.ys_states().len(), 1);
    state.on_key_event(Key::Other, false);
    assert_eq!(state.mode(), Mode::Edit);
    assert_eq!(state.on_key_event(Key::Char('q'), true), TabAction::Nothing);
    assert_eq!(state.selected(), None);
    state.on_key_event(Key::Char('e'), false);
    state.on_key_event(Key::Esc, false);
    assert_eq!(state.selected(), None);
}

#[test]
fn keys_in_an_open_menu() {
    let mut state = plot();
    state.on_key_event(Key::Char('e'), false);
    state.on_key_event(Key::Enter, false);
    assert_eq!(state.mode(), Mode::Menu);
    // the list is: date, S1/a, S1/b
    state.on_key_event(Key::Up, false);
    assert_eq!(state.selected_menu_state().highlighted(), Some(2));
    state.on_key_event(Key::Down, false);
    state.on_key_event(Key::Down, false);
    assert_eq!(state.selected_menu_state().highlighted(), Some(1));
    state.on_key_event(Key::Char('q'), false);
    assert_eq!(state.mode(), Mode::Edit);
    assert_eq!(state.x_value(), None);
    state.on_key_event(Key::Enter, false);
    state.on_key_event(Key::Esc, false);
    assert_eq!(state.mode(), Mode::Edit);
    assert_eq!(state.selected(), Some(0));
    state.on_key_event(Key::Enter, false);
    state.on_key_event(Key::Down, false);
    assert_eq!(state.on_key_event(Key::Enter, false), TabAction::Nothing);
    assert_eq!(state.mode(), Mode::Edit);
    assert_eq!(state.x_value(), Some("S1/a"));
    assert!(state.was_edited());
    assert!(matches!(state.field_state(1), GraphFieldState::Menu(_)));
}

#[test]
fn keys_in_an_open_input() {
    let mut state = plot();
    state.on_key_event(Key::Char('e'), false);
    state.on_key_event(Key::Enter, false);
    state.on_key_event(Key::Enter, false);
    assert_eq!(state.x_value(), Some("date"));
    state.on_key_event(Key::Tab, false);
    assert_eq!(state.selected(), Some(2));
    state.on_key_event(Key::Enter, false);
    assert_eq!(state.mode(), Mode::Input);
    for ch in "q2a".chars() {
        assert_eq!(state.on_key_event(Key::Char(ch), false), TabAction::Nothing);
    }
    state.on_key_event(Key::Home, false);
    state.on_key_event(Key::Char('1'), false);
    state.on_key_event(Key::Right, false);
    state.on_key_event(Key::Backspace, false);
    state.on_key_event(Key::End, false);
    state.on_key_event(Key::Left, false);
    state.on_key_event(Key::Char('3'), false);
    state.on_key_event(Key::Tab, false);
    assert_eq!(state.selected_input_state().content(), "123a");
    assert_eq!(state.mode(), Mode::Input);
    state.on_key_event(Key::Esc, false);
    assert_eq!(state.mode(), Mode::Edit);
    assert_eq!(state.selected_input_state().content(), "123a");
    assert!(state.was_edited());
    state.on_key_event(Key::Enter, false);
    state.on_key_event(Key::Backspace, false);
    state.on_key_event(Key::Enter, false);
    assert_eq!(state.selected_input_state().content(), "123");
    assert_eq!(state.mode(), Mode::Edit);
}

#[test]
fn the_cursor_of_a_file_picker_wraps_around() {
    let mut picker = FilePickerState::new(files(&["a", "b", "c"]));
    assert_eq!(picker.selection_index(), 0);
    picker.prev_file();
    assert_eq!(picker.selection_index(), 2);
    picker.next_file();
    assert_eq!(picker.selection_index(), 0);
    picker.next_file();
    assert_eq!(picker.selection_index(), 1);
    assert!(matches!(picker.open_file_or_directory(), Some(FilePickerItem::File(name)) if name == "b"));
    picker.set_contents(vec![FilePickerItem::Directory("d".to_string())]);
    assert_eq!(picker.selection_index(), 0);
    assert!(
        matches!(picker.open_file_or_directory(), Some(FilePickerItem::Directory(name)) if name == "d")
    );
    assert_eq!(picker.directory_contents().len(), 1);
}

#[test]
fn an_empty_file_picker_stays_put() {
    let mut picker = FilePickerState::new(Vec::new());
    picker.next_file();
    picker.prev_file();
    assert_eq!(picker.selection_index(), 0);
    assert!(picker.open_file_or_directory().is_none());
    assert_eq!(picker.get_render_bounds(5), (0, 0));
}

#[test]
fn the_list_of_a_file_picker_follows_the_cursor() {
    let names: Vec<String> = (0..10).map(|i| format!("f{i}")).collect();
    let refs: Vec<&str> = names.iter().map(|n| n.as_str()).collect();
    let mut picker = FilePickerState::new(files(&refs));
    assert_eq!(picker.get_render_bounds(4), (0, 4));
    for _ in 0..4 {
        picker.next_file();
    }
    assert_eq!(picker.get_render_bounds(4), (1, 5));
    picker.prev_file();
    assert_eq!(picker.get_render_bounds(4), (1, 5));
    for _ in 0..4 {
        picker.prev_file();
    }
    // around the top to the last entry
    assert_eq!(picker.selection_index(), 9);
    assert_eq!(picker.get_render_bounds(4), (6, 10));
    assert_eq!(picker.get_render_bounds(20), (6, 10));
}

#[test]
fn tabs_open_behind_and_close_in_place() {
    let mut tabs: Tabs<&str> = Tabs::new();
    assert_eq!(tabs.len(), 0);
    tabs.next();
    tabs.prev();
    tabs.close();
    assert_eq!(tabs.current(), 0);
    tabs.open("sensors");
    tabs.close();
    assert_eq!(tabs.len(), 1);
    tabs.open("plot 1");
    tabs.open("plot 2");
    assert_eq!(tabs.current(), 2);
    assert_eq!(*tabs.state(), "plot 2");
    tabs.next();
    assert_eq!(tabs.current(), 0);
    tabs.prev();
    assert_eq!(tabs.current(), 2);
    tabs.prev();
    assert_eq!(*tabs.state(), "plot 1");
    tabs.close();
    assert_eq!(tabs.states(), &vec!["sensors", "plot 2"]);
    assert_eq!(tabs.current(), 1);
    tabs.close();
    assert_eq!(tabs.current(), 0);
    assert_eq!(*tabs.state(), "sensors");
    *tabs.state_mut() = "data";
    assert_eq!(tabs.states(), &vec!["data"]);
}
