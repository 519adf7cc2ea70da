use sensor_plot::catalog::SensorLists;
use sensor_plot::field::GraphFieldState;
use sensor_plot::graph::GraphState;
use sensor_plot::input::InputEdit;

fn strings(items: &[&str]) -> Vec<String> {
    items.iter().map(|s| s.to_string()).collect()
}

fn one_sensor() -> (SensorLists, SensorLists) {
    let mut fields = SensorLists::new();
    fields.insert("S1".to_string(), strings(&["Poле1", "Poле2"]));
    let mut serials = SensorLists::new();
    serials.insert("S1".to_string(), strings(&["001"]));
    (fields, serials)
}

fn two_sensors() -> (SensorLists, SensorLists) {
    let (mut fields, mut serials) = one_sensor();
    fields.insert("S2".to_string(), strings(&["t", "h"]));
    serials.insert("S2".to_string(), strings(&["7", "8"]));
    (fields, serials)
}

fn goto(state: &mut GraphState, index: usize) {
    if state.selected().is_none() {
        state.start_editing();
    }
    let mut guard = 0;
    while state.selected() != Some(index) {
        state.select_next(1);
        guard += 1;
        assert!(guard < 1000, "slot {index} cannot be reached");
    }
}

fn highlighted(state: &GraphState, index: usize) -> Option<usize> {
    state.field_state(index).menu().unwrap().highlighted()
}

fn choice(state: &GraphState, index: usize) -> Option<usize> {
    state.field_state(index).menu().unwrap().selected()
}

fn pick(state: &mut GraphState, index: usize, value: &str) {
    goto(state, index);
    state.open_selected();
    let list = state.candidates(index);
    let at = list.iter().position(|v| v == value).unwrap();
    while highlighted(state, index) != Some(at) {
        state.move_highlight(true);
    }
    state.commit_selected();
}

fn type_text(state: &mut GraphState, index: usize, text: &str) {
    goto(state, index);
    state.open_selected();
    for ch in text.chars() {
        state.edit_input(InputEdit::Insert(ch));
    }
    state.commit_selected();
}

fn is_hidden(state: &GraphState, index: usize) -> bool {
    matches!(state.field_state(index), GraphFieldState::Hidden)
}

fn is_menu(state: &GraphState, index: usize) -> bool {
    matches!(state.field_state(index), GraphFieldState::Menu(_))
}

fn is_input(state: &GraphState, index: usize) -> bool {
    matches!(state.field_state(index), GraphFieldState::Input(_))
}

#[test]
fn a_new_plot_has_one_curve_and_nothing_chosen() {
    let (fields, serials) = one_sensor();
    let state = GraphState::new(&fields, &serials);
    assert_eq!(state.slot_count(), 8);
    assert_eq!(state.selected(), None);
    assert!(!state.was_edited());
    assert_eq!(state.x_data_fields(), &strings(&["date", "S1/Poле1", "S1/Poле2"]));
    assert_eq!(
        state.y_data_fields(),
        &strings(&["S1/Poле1", "S1/Poле2", "S1/Эфф. темп."])
    );
    for row in [0, 4] {
        assert!(is_menu(&state, row));
        assert_eq!(choice(&state, row), None);
        for column in 1..4 {
            assert!(is_hidden(&state, row + column));
        }
    }
    assert_eq!(state.x_value(), None);
    assert_eq!(state.y_value(0), None);
}

#[test]
fn the_default_row_is_a_menu_and_three_hidden_slots() {
    let row = GraphState::default_graph();
    assert!(matches!(row[0], GraphFieldState::Menu(_)));
    assert!(matches!(row[1], GraphFieldState::Hidden));
    assert!(matches!(row[2], GraphFieldState::Hidden));
    assert!(matches!(row[3], GraphFieldState::Hidden));
}

#[test]
fn choosing_a_sensor_field_for_x_shows_its_serials() {
    let (fields, serials) = two_sensors();
    let mut state = GraphState::new(&fields, &serials);
    assert_eq!(
        state.y_data_fields(),
        &strings(&[
            "S1/Poле1",
            "S1/Poле2",
            "S1/Эфф. темп.",
            "S2/h",
            "S2/t",
            "S2/Эфф. темп."
        ])
    );
    pick(&mut state, 0, "S1/Poле1");
    assert_eq!(state.x_value(), Some("S1/Poле1"));
    assert!(is_menu(&state, 1));
    assert_eq!(choice(&state, 1), None);
    assert_eq!(state.candidates(1), strings(&["001"]));
    assert_eq!(state.get_serial_fields_for_sensor(1), strings(&["001"]));
    assert!(is_input(&state, 2));
    assert!(is_input(&state, 3));
    assert_eq!(
        state.y_data_fields(),
        &strings(&["S1/Poле1", "S1/Poле2", "S1/Эфф. темп."])
    );
    for entry in state.y_data_fields() {
        assert!(entry.starts_with("S1/"));
    }
    assert!(state.was_edited());
}

#[test]
fn with_the_date_for_x_a_curve_shows_its_own_serials() {
    let (fields, serials) = one_sensor();
    let mut state = GraphState::new(&fields, &serials);
    pick(&mut state, 0, "date");
    assert!(is_hidden(&state, 1));
    assert!(is_input(&state, 2));
    assert!(is_input(&state, 3));
    pick(&mut state, 4, "S1/Poле1");
    assert_eq!(state.y_value(0), Some("S1/Poле1"));
    assert!(is_menu(&state, 5));
    assert_eq!(choice(&state, 5), None);
    assert_eq!(state.candidates(5), strings(&["001"]));
    assert!(is_hidden(&state, 6));
    assert!(is_hidden(&state, 7));
}

#[test]
fn a_curve_chosen_before_x_gets_its_serials_when_x_is_the_date() {
    let (fields, serials) = one_sensor();
    let mut state = GraphState::new(&fields, &serials);
    pick(&mut state, 4, "S1/Poле2");
    // X shows no serial menu yet, so the curve shows its own
    assert!(is_menu(&state, 5));
    pick(&mut state, 5, "001");
    assert_eq!(choice(&state, 5), Some(0));
    pick(&mut state, 0, "date");
    // a commit of X gives every chosen curve a fresh serial menu
    assert!(is_menu(&state, 5));
    assert_eq!(choice(&state, 5), None);
    assert_eq!(state.y_value(0), Some("S1/Poле2"));
}

#[test]
fn x_takes_over_the_serial_of_a_curve_of_its_sensor() {
    let (fields, serials) = two_sensors();
    let mut state = GraphState::new(&fields, &serials);
    pick(&mut state, 4, "S2/t");
    assert!(is_menu(&state, 5));
    assert_eq!(state.candidates(5), strings(&["7", "8"]));
    pick(&mut state, 0, "S2/h");
    assert!(is_menu(&state, 1));
    assert!(is_hidden(&state, 5));
    // the curve keeps its entry, at its place in the shorter list
    assert_eq!(state.y_data_fields(), &strings(&["S2/h", "S2/t", "S2/Эфф. темп."]));
    assert_eq!(choice(&state, 4), Some(1));
    assert_eq!(state.y_value(0), Some("S2/t"));
}

#[test]
fn a_curve_of_another_sensor_is_cleared() {
    let (fields, serials) = two_sensors();
    let mut state = GraphState::new(&fields, &serials);
    pick(&mut state, 4, "S2/Эфф. темп.");
    assert!(is_menu(&state, 5));
    assert!(is_menu(&state, 6));
    assert!(is_menu(&state, 7));
    pick(&mut state, 0, "S1/Poле1");
    assert_eq!(choice(&state, 4), None);
    assert_eq!(state.y_value(0), None);
    assert!(is_hidden(&state, 5));
    assert!(is_hidden(&state, 6));
    assert!(is_hidden(&state, 7));
}

#[test]
fn a_derived_field_shows_two_menus_of_measured_fields() {
    let (fields, serials) = two_sensors();
    let mut state = GraphState::new(&fields, &serials);
    pick(&mut state, 0, "date");
    pick(&mut state, 4, "S1/Эфф. темп.");
    assert!(is_menu(&state, 5));
    assert!(is_menu(&state, 6));
    assert!(is_menu(&state, 7));
    assert_eq!(state.candidates(6), strings(&["S1/Poле1", "S1/Poле2"]));
    assert_eq!(state.candidates(7), strings(&["S1/Poле1", "S1/Poле2"]));
    pick(&mut state, 6, "S1/Poле1");
    pick(&mut state, 7, "S1/Poле2");
    assert_eq!(choice(&state, 6), Some(0));
    assert_eq!(choice(&state, 7), Some(1));
    // a measured field hides the two menus again
    pick(&mut state, 4, "S1/Poле1");
    assert!(is_hidden(&state, 6));
    assert!(is_hidden(&state, 7));
}

#[test]
fn the_cascade_reaches_its_fixed_point_in_one_pass() {
    let (fields, serials) = two_sensors();
    let mut state = GraphState::new(&fields, &serials);
    pick(&mut state, 4, "S2/t");
    state.add_curve();
    pick(&mut state, 8, "S1/Poле1");
    pick(&mut state, 0, "S2/h");
    let lists = (state.x_data_fields().clone(), state.y_data_fields().clone());
    let picture = |state: &GraphState| -> Vec<(bool, Option<usize>)> {
        (0..state.slot_count())
            .map(|i| match state.field_state(i) {
                GraphFieldState::Menu(menu) => (true, menu.selected()),
                _ => (false, None),
            })
            .collect()
    };
    let once = picture(&state);
    state.update_graph_field(0);
    assert_eq!(picture(&state), once);
    assert_eq!((state.x_data_fields().clone(), state.y_data_fields().clone()), lists);
    state.update_graph_field(4);
    state.update_graph_field(4);
    state.update_graph_field(8);
    assert_eq!(picture(&state), once);
    for leaf in [1, 2, 3, 5, 6, 7, 9, 10, 11, 12, 400] {
        state.update_graph_field(leaf);
        assert_eq!(picture(&state), once);
    }
}

#[test]
fn a_committed_menu_reopens_on_its_choice() {
    let (fields, serials) = two_sensors();
    let mut state = GraphState::new(&fields, &serials);
    pick(&mut state, 0, "S2/h");
    assert_eq!(choice(&state, 0), Some(3));
    assert_eq!(state.selected(), Some(0));
    state.open_selected();
    assert_eq!(highlighted(&state, 0), Some(3));
    state.close_selected();
    pick(&mut state, 1, "8");
    state.open_selected();
    assert_eq!(highlighted(&state, 1), Some(1));
    assert_eq!(state.candidates(1)[1], "8");
}

#[test]
fn closing_a_menu_commits_nothing() {
    let (fields, serials) = one_sensor();
    let mut state = GraphState::new(&fields, &serials);
    state.start_editing();
    state.open_selected();
    state.move_highlight(true);
    state.close_selected();
    assert_eq!(choice(&state, 0), None);
    assert!(!state.was_edited());
    assert!(is_hidden(&state, 2));
}

#[test]
fn an_empty_menu_commits_nothing() {
    let fields = SensorLists::new();
    let serials = SensorLists::new();
    let mut state = GraphState::new(&fields, &serials);
    assert_eq!(state.y_data_fields(), &Vec::<String>::new());
    goto(&mut state, 4);
    state.open_selected();
    state.move_highlight(true);
    state.move_highlight(false);
    assert_eq!(highlighted(&state, 4), Some(0));
    state.commit_selected();
    assert_eq!(choice(&state, 4), None);
    assert_eq!(highlighted(&state, 4), None);
    assert!(!state.was_edited());
}

#[test]
fn the_selection_never_lands_on_a_hidden_slot() {
    let (fields, serials) = two_sensors();
    let mut state = GraphState::new(&fields, &serials);
    state.add_curve();
    state.add_curve();
    pick(&mut state, 0, "date");
    pick(&mut state, 8, "S1/Эфф. темп.");
    let moves: [(usize, bool); 14] = [
        (1, true),
        (1, true),
        (4, true),
        (1, false),
        (4, false),
        (4, false),
        (7, true),
        (1, true),
        (1, true),
        (1, true),
        (33, false),
        (16, true),
        (0, true),
        (1_000_003, false),
    ];
    for start in 0..4 {
        goto(&mut state, [0, 2, 8, 10][start]);
        for (step, forward) in moves {
            if forward {
                state.select_next(step);
            } else {
                state.select_prev(step);
            }
            let at = state.selected().unwrap();
            assert!(at < state.slot_count());
            assert!(!is_hidden(&state, at));
        }
    }
}

#[test]
fn the_selection_moves_by_slots_and_by_rows() {
    let (fields, serials) = one_sensor();
    let mut state = GraphState::new(&fields, &serials);
    pick(&mut state, 0, "S1/Poле1");
    state.add_curve();
    // shown: 0 1 2 3 | 4 | 8
    assert_eq!(state.selected(), Some(0));
    state.select_next(1);
    assert_eq!(state.selected(), Some(1));
    state.select_next(4);
    // slot 5 is hidden: on to 8
    assert_eq!(state.selected(), Some(8));
    state.select_next(1);
    // 9, 10 and 11 are hidden: around to 0
    assert_eq!(state.selected(), Some(0));
    state.select_prev(1);
    // 11, 10 and 9 are hidden: back to 8
    assert_eq!(state.selected(), Some(8));
    state.select_prev(4);
    assert_eq!(state.selected(), Some(4));
    state.select_prev(1);
    assert_eq!(state.selected(), Some(3));
    state.select_next(12);
    assert_eq!(state.selected(), Some(3));
    state.select_prev(14);
    assert_eq!(state.selected(), Some(1));
}

#[test]
fn moving_without_a_selection_changes_nothing() {
    let (fields, serials) = one_sensor();
    let mut state = GraphState::new(&fields, &serials);
    state.select_next(1);
    state.select_prev(4);
    assert_eq!(state.selected(), None);
}

#[test]
fn the_only_curve_cannot_be_removed() {
    let (fields, serials) = one_sensor();
    let mut state = GraphState::new(&fields, &serials);
    pick(&mut state, 4, "S1/Poле1");
    state.remove_curve();
    assert_eq!(state.ys_states().len(), 1);
    assert_eq!(state.slot_count(), 8);
    assert_eq!(state.y_value(0), Some("S1/Poле1"));
    assert_eq!(state.selected(), Some(4));
}

#[test]
fn curves_come_and_go_at_the_end() {
    let (fields, serials) = one_sensor();
    let mut state = GraphState::new(&fields, &serials);
    state.add_curve();
    state.add_curve();
    assert_eq!(state.ys_states().len(), 3);
    assert_eq!(state.slot_count(), 16);
    assert!(is_menu(&state, 12));
    assert!(is_hidden(&state, 13));
    pick(&mut state, 12, "S1/Poле2");
    assert_eq!(state.selected(), Some(12));
    state.remove_curve();
    assert_eq!(state.ys_states().len(), 2);
    // the selection stood on the curve that is gone
    assert_eq!(state.selected(), Some(8));
    state.remove_curve();
    state.remove_curve();
    assert_eq!(state.ys_states().len(), 1);
    assert_eq!(state.selected(), Some(4));
}

#[test]
fn typing_a_bound_marks_the_plot_as_edited() {
    let (fields, serials) = one_sensor();
    let mut state = GraphState::new(&fields, &serials);
    pick(&mut state, 0, "date");
    assert_eq!(state.update_datasets(None, None).map(|p| p.curves.len()), Some(1));
    assert!(!state.was_edited());
    type_text(&mut state, 2, "2023-01-01 00:00:00");
    assert!(state.was_edited());
    assert_eq!(
        state.field_state(2).input().unwrap().content(),
        "2023-01-01 00:00:00"
    );
    assert!(!state.field_state(2).opened());
}

#[test]
fn a_new_catalog_carries_every_choice_over() {
    let (fields, serials) = two_sensors();
    let mut state = GraphState::new(&fields, &serials);
    pick(&mut state, 0, "S2/t");
    pick(&mut state, 1, "8");
    pick(&mut state, 4, "S2/Эфф. темп.");
    pick(&mut state, 6, "S2/h");
    pick(&mut state, 7, "S2/t");
    assert_eq!(choice(&state, 0), Some(4));
    assert_eq!(choice(&state, 1), Some(1));
    assert_eq!(choice(&state, 4), Some(2));

    let mut new_fields = SensorLists::new();
    new_fields.insert("S0".to_string(), strings(&["a"]));
    new_fields.insert("S2".to_string(), strings(&["t", "p", "h"]));
    let mut new_serials = SensorLists::new();
    new_serials.insert("S2".to_string(), strings(&["8", "9"]));
    state.update_sensor_data(&new_fields, &new_serials);

    assert_eq!(
        state.x_data_fields(),
        &strings(&["date", "S0/a", "S2/h", "S2/p", "S2/t"])
    );
    assert_eq!(choice(&state, 0), Some(4));
    assert_eq!(state.x_value(), Some("S2/t"));
    assert_eq!(state.candidates(1), strings(&["8", "9"]));
    assert_eq!(choice(&state, 1), Some(0));
    assert_eq!(
        state.y_data_fields(),
        &strings(&["S2/h", "S2/p", "S2/t", "S2/Эфф. темп."])
    );
    assert_eq!(choice(&state, 4), Some(3));
    assert_eq!(state.candidates(6), strings(&["S2/h", "S2/p", "S2/t"]));
    assert_eq!(choice(&state, 6), Some(0));
    assert_eq!(choice(&state, 7), Some(2));
}

#[test]
fn a_choice_that_is_gone_from_the_catalog_is_dropped() {
    let (fields, serials) = two_sensors();
    let mut state = GraphState::new(&fields, &serials);
    pick(&mut state, 0, "date");
    pick(&mut state, 4, "S2/t");
    pick(&mut state, 5, "7");
    state.add_curve();
    pick(&mut state, 8, "S1/Poле1");
    pick(&mut state, 9, "001");
    goto(&mut state, 5);
    let (only_first, first_serials) = one_sensor();
    state.update_sensor_data(&only_first, &first_serials);
    assert_eq!(state.x_value(), Some("date"));
    assert_eq!(state.y_value(0), None);
    assert!(is_hidden(&state, 5));
    // the selection stood on the serial menu that is gone
    assert_eq!(state.selected(), Some(4));
    assert_eq!(state.y_value(1), Some("S1/Poле1"));
    assert_eq!(choice(&state, 8), Some(0));
    assert_eq!(choice(&state, 9), Some(0));

    pick(&mut state, 0, "S1/Poле2");
    pick(&mut state, 1, "001");
    let nothing = SensorLists::new();
    state.update_sensor_fields(&nothing);
    assert_eq!(state.x_data_fields(), &strings(&["date"]));
    assert_eq!(state.x_value(), None);
    assert!(is_hidden(&state, 1));
    assert_eq!(state.y_value(1), None);
    assert_eq!(state.serial_fields().len(), 1);
    state.update_sensor_serials(&nothing);
    assert_eq!(state.serial_fields().len(), 0);
    state.update_y_data_fields();
    assert_eq!(state.y_data_fields(), &Vec::<String>::new());
}
